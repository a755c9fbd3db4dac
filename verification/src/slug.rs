use vstd::prelude::*;

use crate::bytes::{
    bytes_cmp, bytes_eq, clone_bytes, lex_lt, lemma_lex_lt_irrefl, lemma_lex_lt_trans,
    lemma_lex_lt_trichotomy, lit_bytes, str_bytes, Cmp, DOT, SLASH,
};
use crate::relpath::{
    ext_of, join_comps, join_with_file, last_dot, lemma_join_split, lemma_split_last_empty,
    lemma_split_path_len, lemma_stem_ext_rejoin, split_bytes_path, split_filename, split_path,
    stem_of,
};
use crate::BuildError;

verus! {

/// File-name part of a slug: either the distinguished `index` stem or an
/// arbitrary name.
#[derive(Debug, Clone)]
pub enum SlugStem {
    Index,
    Other(Vec<u8>),
}

/// Canonical address of one content page.
///
/// `parent` is the directory path, as a list of components; `stem` is the file
/// name without its extension; `extension` is the original source extension.
#[derive(Debug, Clone)]
pub struct ContentSlug {
    pub parent: Vec<Vec<u8>>,
    pub stem: SlugStem,
    pub extension: Option<Vec<u8>>,
}

/// Mathematical model of a stem.
#[verifier::ext_equal]
pub enum StemView {
    Index,
    Other(Seq<u8>),
}

/// Mathematical model of a slug.
#[verifier::ext_equal]
pub struct SlugView {
    pub parent: Seq<Seq<u8>>,
    pub stem: StemView,
    pub extension: Option<Seq<u8>>,
}

impl View for SlugStem {
    type V = StemView;

    open spec fn view(&self) -> StemView {
        match self {
            SlugStem::Index => StemView::Index,
            SlugStem::Other(name) => StemView::Other(name@),
        }
    }
}

impl View for ContentSlug {
    type V = SlugView;

    open spec fn view(&self) -> SlugView {
        SlugView {
            parent: self.parent.deep_view(),
            stem: self.stem@,
            extension: self.extension.deep_view(),
        }
    }
}

/// Strict lexicographic order on component paths, component by component.
pub open spec fn path_lt(a: Seq<Seq<u8>>, b: Seq<Seq<u8>>) -> bool
    decreases a.len(),
{
    if b.len() == 0 {
        false
    } else if a.len() == 0 {
        true
    } else if lex_lt(a[0], b[0]) {
        true
    } else if lex_lt(b[0], a[0]) {
        false
    } else {
        path_lt(a.skip(1), b.skip(1))
    }
}

/// Order on stems: every `Other` name sorts strictly before `Index`.
pub open spec fn stem_lt(a: StemView, b: StemView) -> bool {
    match (a, b) {
        (StemView::Other(x), StemView::Other(y)) => lex_lt(x, y),
        (StemView::Other(_), StemView::Index) => true,
        (StemView::Index, _) => false,
    }
}

/// Order on optional extensions: no extension sorts before any extension.
pub open spec fn ext_lt(a: Option<Seq<u8>>, b: Option<Seq<u8>>) -> bool {
    match (a, b) {
        (Option::None, Option::Some(_)) => true,
        (Option::Some(x), Option::Some(y)) => lex_lt(x, y),
        _ => false,
    }
}

/// The total order on slugs: parents compared in reverse (deeper paths sort
/// first), then stems (`Index` after every `Other` name), then extensions.
pub open spec fn slug_lt(a: SlugView, b: SlugView) -> bool {
    ||| path_lt(b.parent, a.parent)
    ||| (a.parent == b.parent && stem_lt(a.stem, b.stem))
    ||| (a.parent == b.parent && a.stem == b.stem && ext_lt(a.extension, b.extension))
}

pub proof fn lemma_path_lt_irrefl(a: Seq<Seq<u8>>)
    ensures
        !path_lt(a, a),
    decreases a.len(),
{
    if a.len() > 0 {
        lemma_lex_lt_irrefl(a[0]);
        lemma_path_lt_irrefl(a.skip(1));
    }
}

pub proof fn lemma_path_lt_trichotomy(a: Seq<Seq<u8>>, b: Seq<Seq<u8>>)
    ensures
        path_lt(a, b) || path_lt(b, a) || a == b,
        path_lt(a, b) ==> !path_lt(b, a),
        path_lt(a, b) ==> a != b,
    decreases a.len(),
{
    lemma_path_lt_irrefl(a);
    lemma_path_lt_irrefl(b);
    if a.len() > 0 && b.len() > 0 {
        lemma_lex_lt_trichotomy(a[0], b[0]);
        if !lex_lt(a[0], b[0]) && !lex_lt(b[0], a[0]) {
            lemma_path_lt_trichotomy(a.skip(1), b.skip(1));
            if a.skip(1) == b.skip(1) {
                assert forall|i: int| 0 <= i < a.len() implies a[i] == b[i] by {
                    if i >= 1 {
                        assert(a[i] == a.skip(1)[i - 1]);
                        assert(b[i] == b.skip(1)[i - 1]);
                    }
                }
                assert(a =~= b);
            }
        }
    }
}

pub proof fn lemma_path_lt_trans(a: Seq<Seq<u8>>, b: Seq<Seq<u8>>, c: Seq<Seq<u8>>)
    requires
        path_lt(a, b),
        path_lt(b, c),
    ensures
        path_lt(a, c),
    decreases a.len(),
{
    if a.len() > 0 && b.len() > 0 && c.len() > 0 {
        lemma_lex_lt_trichotomy(a[0], b[0]);
        lemma_lex_lt_trichotomy(b[0], c[0]);
        if lex_lt(a[0], b[0]) && lex_lt(b[0], c[0]) {
            lemma_lex_lt_trans(a[0], b[0], c[0]);
        } else if a[0] == b[0] && b[0] == c[0] {
            lemma_path_lt_trans(a.skip(1), b.skip(1), c.skip(1));
        }
    }
}

pub proof fn lemma_stem_lt_trichotomy(a: StemView, b: StemView)
    ensures
        stem_lt(a, b) || stem_lt(b, a) || a == b,
        stem_lt(a, b) ==> !stem_lt(b, a),
        stem_lt(a, b) ==> a != b,
{
    match (a, b) {
        (StemView::Other(x), StemView::Other(y)) => {
            lemma_lex_lt_trichotomy(x, y);
        },
        _ => {},
    }
}

pub proof fn lemma_stem_lt_trans(a: StemView, b: StemView, c: StemView)
    requires
        stem_lt(a, b),
        stem_lt(b, c),
    ensures
        stem_lt(a, c),
{
    match (a, b) {
        (StemView::Other(x), StemView::Other(y)) => match c {
            StemView::Other(z) => {
                lemma_lex_lt_trans(x, y, z);
            },
            StemView::Index => {},
        },
        _ => {},
    }
}

pub proof fn lemma_ext_lt_trichotomy(a: Option<Seq<u8>>, b: Option<Seq<u8>>)
    ensures
        ext_lt(a, b) || ext_lt(b, a) || a == b,
        ext_lt(a, b) ==> !ext_lt(b, a),
        ext_lt(a, b) ==> a != b,
{
    match (a, b) {
        (Option::Some(x), Option::Some(y)) => {
            lemma_lex_lt_trichotomy(x, y);
        },
        _ => {},
    }
}

pub proof fn lemma_ext_lt_trans(a: Option<Seq<u8>>, b: Option<Seq<u8>>, c: Option<Seq<u8>>)
    requires
        ext_lt(a, b),
        ext_lt(b, c),
    ensures
        ext_lt(a, c),
{
    match (a, b) {
        (Option::Some(x), Option::Some(y)) => match c {
            Option::Some(z) => {
                lemma_lex_lt_trans(x, y, z);
            },
            Option::None => {},
        },
        _ => {},
    }
}

/// The slug order never relates a slug to itself.
pub proof fn lemma_slug_lt_irrefl(a: SlugView)
    ensures
        !slug_lt(a, a),
{
    lemma_path_lt_irrefl(a.parent);
    lemma_stem_lt_trichotomy(a.stem, a.stem);
    lemma_ext_lt_trichotomy(a.extension, a.extension);
}

/// Of two distinct slugs, exactly one precedes the other: together with
/// irreflexivity and transitivity this makes the slug order a strict total
/// order.
pub proof fn lemma_slug_lt_trichotomy(a: SlugView, b: SlugView)
    ensures
        slug_lt(a, b) || slug_lt(b, a) || a == b,
        slug_lt(a, b) ==> !slug_lt(b, a),
        slug_lt(a, b) ==> a != b,
{
    lemma_path_lt_trichotomy(a.parent, b.parent);
    lemma_stem_lt_trichotomy(a.stem, b.stem);
    lemma_ext_lt_trichotomy(a.extension, b.extension);
    if a.parent == b.parent && a.stem == b.stem && a.extension == b.extension {
        assert(a =~= b);
    }
}

/// The slug order is transitive.
pub proof fn lemma_slug_lt_trans(a: SlugView, b: SlugView, c: SlugView)
    requires
        slug_lt(a, b),
        slug_lt(b, c),
    ensures
        slug_lt(a, c),
{
    lemma_path_lt_trichotomy(a.parent, b.parent);
    lemma_path_lt_trichotomy(b.parent, c.parent);
    if path_lt(b.parent, a.parent) && path_lt(c.parent, b.parent) {
        lemma_path_lt_trans(c.parent, b.parent, a.parent);
    }
    lemma_stem_lt_trichotomy(a.stem, b.stem);
    lemma_stem_lt_trichotomy(b.stem, c.stem);
    lemma_ext_lt_trichotomy(a.extension, b.extension);
    lemma_ext_lt_trichotomy(b.extension, c.extension);
    if a.parent == b.parent && b.parent == c.parent {
        if stem_lt(a.stem, b.stem) && stem_lt(b.stem, c.stem) {
            lemma_stem_lt_trans(a.stem, b.stem, c.stem);
        }
        if ext_lt(a.extension, b.extension) && ext_lt(b.extension, c.extension) {
            lemma_ext_lt_trans(a.extension, b.extension, c.extension);
        }
    }
}

/// In any directory, every `Other`-stem slug precedes every `Index` slug.
pub proof fn lemma_other_before_index(a: SlugView, b: SlugView)
    requires
        a.parent == b.parent,
        a.stem is Other,
        b.stem is Index,
    ensures
        slug_lt(a, b),
{
    lemma_path_lt_irrefl(a.parent);
}

/// Compare two stems.
pub fn stem_cmp(a: &SlugStem, b: &SlugStem) -> (r: Cmp)
    ensures
        r == Cmp::Less <==> stem_lt(a@, b@),
        r == Cmp::Greater <==> stem_lt(b@, a@),
        r == Cmp::Equal <==> a@ == b@,
{
    match (a, b) {
        (SlugStem::Index, SlugStem::Index) => Cmp::Equal,
        (SlugStem::Index, SlugStem::Other(_)) => Cmp::Greater,
        (SlugStem::Other(_), SlugStem::Index) => Cmp::Less,
        (SlugStem::Other(x), SlugStem::Other(y)) => bytes_cmp(x, y),
    }
}

/// Compare two component paths.
pub fn path_cmp(a: &Vec<Vec<u8>>, b: &Vec<Vec<u8>>) -> (r: Cmp)
    ensures
        r == Cmp::Less <==> path_lt(a.deep_view(), b.deep_view()),
        r == Cmp::Greater <==> path_lt(b.deep_view(), a.deep_view()),
        r == Cmp::Equal <==> a.deep_view() == b.deep_view(),
{
    let ghost av = a.deep_view();
    let ghost bv = b.deep_view();
    proof {
        lemma_path_lt_trichotomy(av, bv);
        assert(av.skip(0) =~= av);
        assert(bv.skip(0) =~= bv);
        assert(av.take(0) =~= bv.take(0));
    }
    let n = a.len();
    let m = b.len();
    let mut i: usize = 0;
    loop
        invariant
            i <= n,
            i <= m,
            n == av.len(),
            m == bv.len(),
            av == a.deep_view(),
            bv == b.deep_view(),
            av.take(i as int) == bv.take(i as int),
            path_lt(av, bv) <==> path_lt(av.skip(i as int), bv.skip(i as int)),
            path_lt(bv, av) <==> path_lt(bv.skip(i as int), av.skip(i as int)),
        decreases n - i,
    {
        if i == n && i == m {
            proof {
                assert(av.take(i as int) =~= av);
                assert(bv.take(i as int) =~= bv);
            }
            return Cmp::Equal;
        }
        if i == n {
            return Cmp::Less;
        }
        if i == m {
            return Cmp::Greater;
        }
        proof {
            broadcast use crate::bytes::lemma_bytes_deep_view;

            assert(av[i as int] == a@[i as int]@);
            assert(bv[i as int] == b@[i as int]@);
        }
        match bytes_cmp(&a[i], &b[i]) {
            Cmp::Less => {
                return Cmp::Less;
            },
            Cmp::Greater => {
                return Cmp::Greater;
            },
            Cmp::Equal => {
                proof {
                    lemma_lex_lt_irrefl(av[i as int]);
                    assert(av.take(i + 1) =~= av.take(i as int).push(av[i as int]));
                    assert(bv.take(i + 1) =~= bv.take(i as int).push(bv[i as int]));
                    assert(av.skip(i as int).skip(1) =~= av.skip(i + 1));
                    assert(bv.skip(i as int).skip(1) =~= bv.skip(i + 1));
                }
                i = i + 1;
            },
        }
    }
}

/// Compare two optional extensions.
pub fn opt_bytes_cmp(a: &Option<Vec<u8>>, b: &Option<Vec<u8>>) -> (r: Cmp)
    ensures
        r == Cmp::Less <==> ext_lt(a.deep_view(), b.deep_view()),
        r == Cmp::Greater <==> ext_lt(b.deep_view(), a.deep_view()),
        r == Cmp::Equal <==> a.deep_view() == b.deep_view(),
{
    proof {
        broadcast use crate::bytes::lemma_bytes_deep_view;

    }
    match (a, b) {
        (Option::None, Option::None) => Cmp::Equal,
        (Option::None, Option::Some(_)) => Cmp::Less,
        (Option::Some(_), Option::None) => Cmp::Greater,
        (Option::Some(x), Option::Some(y)) => bytes_cmp(x, y),
    }
}

/// A path names a file when it is non-empty and does not end in a separator.
pub open spec fn path_has_filename(p: Seq<u8>) -> bool {
    p.len() > 0 && p.last() != SLASH
}

/// The file name a slug prints as.
pub open spec fn filename_bytes(stem: StemView, ext: Option<Seq<u8>>) -> Seq<u8> {
    let s = match stem {
        StemView::Index => str_bytes("index"@),
        StemView::Other(name) => name,
    };
    match ext {
        Option::None => s,
        Option::Some(e) => s + seq![DOT] + e,
    }
}

/// The path a slug prints as: its parent components, then its file name.
pub open spec fn path_of_slug(s: SlugView) -> Seq<u8> {
    join_comps(s.parent.push(filename_bytes(s.stem, s.extension)))
}

/// The slug a component list parses to: all but the last component are the
/// parent, the last splits into stem and extension.
pub open spec fn slug_of_comps(cs: Seq<Seq<u8>>) -> SlugView {
    let f = cs.last();
    SlugView {
        parent: cs.drop_last(),
        stem: if stem_of(f) == str_bytes("index"@) {
            StemView::Index
        } else {
            StemView::Other(stem_of(f))
        },
        extension: ext_of(f),
    }
}

/// The slug a path parses to.
pub open spec fn parsed_slug(p: Seq<u8>) -> SlugView {
    slug_of_comps(split_path(p))
}

/// Build a slug from a non-empty component list; an empty file name
/// component is rejected.
pub fn slug_from_comps(mut comps: Vec<Vec<u8>>) -> (r: Result<ContentSlug, BuildError>)
    requires
        comps@.len() >= 1,
    ensures
        r is Ok <==> comps.deep_view().last().len() > 0,
        r is Ok ==> r->Ok_0@ == slug_of_comps(comps.deep_view()),
        r is Err ==> r->Err_0 == BuildError::NoFileName,
{
    broadcast use crate::bytes::lemma_bytes_deep_view;

    let ghost cv = comps.deep_view();
    let filename = comps.pop().unwrap();
    proof {
        assert(filename@ == cv.last());
        assert(comps.deep_view() =~= cv.drop_last());
    }
    if filename.len() == 0 {
        return Result::Err(BuildError::NoFileName);
    }
    let (stem_bytes, extension) = split_filename(&filename);
    proof {
        reveal_strlit("index");
    }
    let index_lit = lit_bytes("index");
    let stem = if bytes_eq(&stem_bytes, &index_lit) {
        SlugStem::Index
    } else {
        SlugStem::Other(stem_bytes)
    };
    let slug = ContentSlug { parent: comps, stem, extension };
    proof {
        assert(slug@ =~= slug_of_comps(cv));
    }
    Result::Ok(slug)
}

/// Round trip: any path with a file name parses to a slug that prints back to
/// exactly the original path.
pub proof fn lemma_slug_round_trip(p: Seq<u8>)
    requires
        path_has_filename(p),
    ensures
        path_of_slug(parsed_slug(p)) == p,
{
    lemma_split_path_len(p);
    lemma_join_split(p);
    let cs = split_path(p);
    let f = cs.last();
    let s = parsed_slug(p);
    if last_dot(f) >= 0 {
        lemma_stem_ext_rejoin(f);
    }
    assert(filename_bytes(s.stem, s.extension) == f);
    assert(cs.drop_last().push(f) =~= cs);
}

/// No two distinct paths with a file name normalize to the same slug.
pub proof fn lemma_parsed_slug_injective(p1: Seq<u8>, p2: Seq<u8>)
    requires
        path_has_filename(p1),
        path_has_filename(p2),
        parsed_slug(p1) == parsed_slug(p2),
    ensures
        p1 == p2,
{
    lemma_slug_round_trip(p1);
    lemma_slug_round_trip(p2);
}

/// Lower bound of the subpage range.
///
/// For an index page, the least possible sibling in the same directory; for a
/// page named `name`, the least possible entry of the `parent/name` directory.
pub open spec fn subpage_lo(s: SlugView) -> SlugView {
    match s.stem {
        StemView::Index => SlugView {
            parent: s.parent,
            stem: StemView::Other(Seq::empty()),
            extension: Option::None,
        },
        StemView::Other(name) => SlugView {
            parent: s.parent.push(name),
            stem: StemView::Other(Seq::empty()),
            extension: Option::None,
        },
    }
}

/// Upper bound (exclusive) of the subpage range: the least index slug of
/// the subpages' directory, so only `Other`-stem entries fall below it.
pub open spec fn subpage_hi(s: SlugView) -> SlugView {
    match s.stem {
        StemView::Index => SlugView {
            parent: s.parent,
            stem: StemView::Index,
            extension: Option::None,
        },
        StemView::Other(name) => SlugView {
            parent: s.parent.push(name),
            stem: StemView::Index,
            extension: Option::None,
        },
    }
}

/// Membership in the half-open range `[lo, hi)` of the slug order.
pub open spec fn in_slug_range(lo: SlugView, hi: SlugView, t: SlugView) -> bool {
    (lo == t || slug_lt(lo, t)) && slug_lt(t, hi)
}

/// A slug is in the subpage range of `s` when it lies between the bounds.
pub open spec fn is_subpage(s: SlugView, t: SlugView) -> bool {
    in_slug_range(subpage_lo(s), subpage_hi(s), t)
}

/// A proper prefix of a component path sorts before it.
pub proof fn lemma_path_lt_push(a: Seq<Seq<u8>>, x: Seq<u8>)
    ensures
        path_lt(a, a.push(x)),
    decreases a.len(),
{
    if a.len() > 0 {
        lemma_lex_lt_irrefl(a[0]);
        lemma_path_lt_push(a.skip(1), x);
        assert(a.push(x).skip(1) =~= a.skip(1).push(x));
    }
}

/// Everything in a range whose bounds share one parent has that parent.
pub proof fn lemma_range_same_parent(lo: SlugView, hi: SlugView, t: SlugView)
    requires
        lo.parent == hi.parent,
        in_slug_range(lo, hi, t),
    ensures
        t.parent == lo.parent,
{
    if t != lo && t.parent != lo.parent {
        lemma_path_lt_trichotomy(t.parent, lo.parent);
        lemma_path_lt_trans(lo.parent, t.parent, lo.parent);
        lemma_path_lt_irrefl(lo.parent);
    }
}

/// The subpage range of an index slug holds exactly the `Other`-stem slugs
/// of its own directory — every sibling page, no index entry, and never the
/// index slug itself.
pub proof fn lemma_index_subpage_range(s: SlugView, t: SlugView)
    requires
        s.stem is Index,
    ensures
        is_subpage(s, t) <==> (t.parent == s.parent && t.stem is Other),
        !is_subpage(s, s),
{
    let lo = subpage_lo(s);
    let hi = subpage_hi(s);
    lemma_path_lt_irrefl(s.parent);
    if t.stem is Other && t.parent == s.parent {
        let name = t.stem->Other_0;
        if name.len() == 0 {
            assert(name =~= Seq::<u8>::empty());
            assert(t.stem == lo.stem);
            match t.extension {
                Option::None => {
                    assert(t =~= lo);
                },
                Option::Some(_) => {},
            }
        }
    }
    if in_slug_range(lo, hi, t) {
        lemma_range_same_parent(lo, hi, t);
        lemma_stem_lt_trichotomy(t.stem, hi.stem);
    }
}

/// The subpage range of a non-index slug named `name` holds exactly the
/// `Other`-stem slugs of the nested directory `parent/name`.
pub proof fn lemma_other_subpage_range(s: SlugView, t: SlugView)
    requires
        s.stem is Other,
    ensures
        is_subpage(s, t) <==> (t.parent == s.parent.push(s.stem->Other_0) && t.stem is Other),
{
    let lo = subpage_lo(s);
    let hi = subpage_hi(s);
    let sub = s.parent.push(s.stem->Other_0);
    lemma_path_lt_irrefl(sub);
    if in_slug_range(lo, hi, t) {
        lemma_range_same_parent(lo, hi, t);
        lemma_stem_lt_trichotomy(t.stem, hi.stem);
    }
    if t.parent == sub && t.stem is Other {
        let name = t.stem->Other_0;
        if name.len() == 0 {
            assert(name =~= Seq::<u8>::empty());
            assert(t.stem == lo.stem);
            match t.extension {
                Option::None => {
                    assert(t =~= lo);
                },
                Option::Some(_) => {},
            }
        }
    }
}

/// Every subpage of a slug sorts strictly before that slug, so a scan in
/// ascending slug order completes all subpages before reaching their page.
pub proof fn lemma_subpage_precedes(s: SlugView, t: SlugView)
    requires
        is_subpage(s, t),
    ensures
        slug_lt(t, s),
{
    match s.stem {
        StemView::Index => {
            lemma_index_subpage_range(s, t);
            lemma_other_before_index(t, s);
        },
        StemView::Other(name) => {
            lemma_other_subpage_range(s, t);
            lemma_path_lt_push(s.parent, name);
        },
    }
}

/// Build the file name of a stem and optional extension.
pub fn filename_vec(stem: &SlugStem, ext: &Option<Vec<u8>>) -> (r: Vec<u8>)
    ensures
        r@ == filename_bytes(stem@, ext.deep_view()),
{
    broadcast use crate::bytes::lemma_bytes_deep_view;

    let mut f = match stem {
        SlugStem::Index => {
            proof {
                reveal_strlit("index");
            }
            lit_bytes("index")
        },
        SlugStem::Other(name) => clone_bytes(name),
    };
    match ext {
        Option::None => {},
        Option::Some(e) => {
            let ghost stem_part = f@;
            f.push(DOT);
            crate::bytes::extend_bytes(&mut f, e);
            proof {
                assert(f@ =~= stem_part + seq![DOT] + e@);
            }
        },
    }
    f
}

impl SlugStem {
    /// Verified copy of a stem.
    pub fn duplicate(&self) -> (r: SlugStem)
        ensures
            r@ == self@,
    {
        match self {
            SlugStem::Index => SlugStem::Index,
            SlugStem::Other(name) => SlugStem::Other(clone_bytes(name)),
        }
    }
}

impl ContentSlug {
    /// Verified copy of a slug.
    pub fn duplicate(&self) -> (r: ContentSlug)
        ensures
            r@ == self@,
    {
        broadcast use crate::bytes::lemma_bytes_deep_view;

        let r = ContentSlug {
            parent: crate::bytes::clone_comps(&self.parent),
            stem: self.stem.duplicate(),
            extension: crate::bytes::clone_opt_bytes(&self.extension),
        };
        proof {
            assert(r@ =~= self@);
        }
        r
    }

    /// Parse a relative path into a slug; a path without a file name is
    /// rejected.
    pub fn from_path(p: &Vec<u8>) -> (r: Result<ContentSlug, BuildError>)
        ensures
            r is Ok <==> path_has_filename(p@),
            r is Ok ==> r->Ok_0@ == parsed_slug(p@),
            r is Ok ==> path_of_slug(r->Ok_0@) == p@,
            r is Err ==> r->Err_0 == BuildError::NoFileName,
    {
        let comps = split_bytes_path(p);
        proof {
            lemma_split_path_len(p@);
            lemma_split_last_empty(p@);
        }
        let r = slug_from_comps(comps);
        proof {
            if path_has_filename(p@) {
                lemma_slug_round_trip(p@);
            }
        }
        r
    }

    /// Print the slug back to a relative path.
    pub fn to_path(&self) -> (r: Vec<u8>)
        ensures
            r@ == path_of_slug(self@),
    {
        let f = filename_vec(&self.stem, &self.extension);
        join_with_file(&self.parent, &f)
    }

    /// The half-open range of the slug order that holds this slug's subpages.
    pub fn subpage_range(&self) -> (r: (ContentSlug, ContentSlug))
        ensures
            r.0@ == subpage_lo(self@),
            r.1@ == subpage_hi(self@),
    {
        broadcast use crate::bytes::lemma_bytes_deep_view;

        match &self.stem {
            SlugStem::Index => {
                let lo = ContentSlug {
                    parent: crate::bytes::clone_comps(&self.parent),
                    stem: SlugStem::Other(Vec::new()),
                    extension: Option::None,
                };
                let hi = ContentSlug {
                    parent: crate::bytes::clone_comps(&self.parent),
                    stem: SlugStem::Index,
                    extension: Option::None,
                };
                proof {
                    assert(lo@ =~= subpage_lo(self@));
                    assert(hi@ =~= subpage_hi(self@));
                }
                (lo, hi)
            },
            SlugStem::Other(name) => {
                let mut sub = crate::bytes::clone_comps(&self.parent);
                sub.push(clone_bytes(name));
                let sub2 = crate::bytes::clone_comps(&sub);
                let lo = ContentSlug {
                    parent: sub,
                    stem: SlugStem::Other(Vec::new()),
                    extension: Option::None,
                };
                let hi = ContentSlug {
                    parent: sub2,
                    stem: SlugStem::Index,
                    extension: Option::None,
                };
                proof {
                    assert(lo.parent.deep_view() =~~= self@.parent.push(name@));
                    assert(lo@ =~= subpage_lo(self@));
                    assert(hi@ =~= subpage_hi(self@));
                }
                (lo, hi)
            },
        }
    }

    /// Compare two slugs in the slug order.
    pub fn cmp_slug(&self, other: &ContentSlug) -> (r: Cmp)
        ensures
            r == Cmp::Less <==> slug_lt(self@, other@),
            r == Cmp::Greater <==> slug_lt(other@, self@),
            r == Cmp::Equal <==> self@ == other@,
    {
        proof {
            lemma_slug_lt_trichotomy(self@, other@);
        }
        match path_cmp(&other.parent, &self.parent) {
            Cmp::Less => Cmp::Less,
            Cmp::Greater => Cmp::Greater,
            Cmp::Equal => match stem_cmp(&self.stem, &other.stem) {
                Cmp::Less => Cmp::Less,
                Cmp::Greater => Cmp::Greater,
                Cmp::Equal => {
                    let r = opt_bytes_cmp(&self.extension, &other.extension);
                    proof {
                        if r == Cmp::Equal {
                            assert(self@ =~= other@);
                        }
                    }
                    r
                },
            },
        }
    }
}

} // verus!
