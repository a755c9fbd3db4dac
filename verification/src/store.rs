use vstd::prelude::*;

use crate::bytes::{clone_bytes, clone_opt_bytes, extend_bytes, Cmp, SLASH};
use crate::media::{extension_of, ContentFile, MediaType, MediaView};
use crate::relpath::join_comps;
use crate::slug::{
    filename_bytes, filename_vec, is_subpage, lemma_slug_lt_trans, lemma_slug_lt_trichotomy,
    lemma_subpage_precedes, slug_lt, ContentSlug, SlugView,
};
use crate::BuildError;

verus! {

/// Per-page metadata, created at classification time and filled in during
/// rendering.
#[derive(Debug)]
pub struct Metadata {
    /// The page's slug.
    pub slug: ContentSlug,
    /// Raw text of the frontmatter block, once extracted.
    pub frontmatter: Option<Vec<u8>>,
    /// Extracted page title, once found.
    pub title: Option<Vec<u8>>,
    /// Whether the build exposes debug information to templates.
    pub debug: bool,
    /// Absolute URL path of the rendered page.
    pub url_path: Vec<u8>,
    /// Whether the page originated from rendered markup.
    pub is_article: bool,
    /// Bibliography source referenced by the frontmatter, if any.
    pub bibliography_file: Option<Vec<u8>>,
}

/// Mathematical model of a metadata record.
#[verifier::ext_equal]
pub struct MetadataView {
    pub slug: SlugView,
    pub frontmatter: Option<Seq<u8>>,
    pub title: Option<Seq<u8>>,
    pub debug: bool,
    pub url_path: Seq<u8>,
    pub is_article: bool,
    pub bibliography_file: Option<Seq<u8>>,
}

impl View for Metadata {
    type V = MetadataView;

    open spec fn view(&self) -> MetadataView {
        MetadataView {
            slug: self.slug@,
            frontmatter: self.frontmatter.deep_view(),
            title: self.title.deep_view(),
            debug: self.debug,
            url_path: self.url_path@,
            is_article: self.is_article,
            bibliography_file: self.bibliography_file.deep_view(),
        }
    }
}

/// The output extension of a media type, or none when it is empty.
pub open spec fn output_ext(m: MediaView) -> Option<Seq<u8>> {
    if extension_of(m).len() == 0 {
        Option::None
    } else {
        Option::Some(extension_of(m))
    }
}

/// The file name a page is written out under: its stem with the extension of
/// its effective media type.
pub open spec fn output_filename_of(slug: SlugView, m: MediaView) -> Seq<u8> {
    filename_bytes(slug.stem, output_ext(m))
}

/// The absolute URL path of a page: `/`, its parent directories, and its
/// output file name.
pub open spec fn url_path_of(slug: SlugView, m: MediaView) -> Seq<u8> {
    seq![SLASH] + join_comps(slug.parent.push(output_filename_of(slug, m)))
}

/// Build the output file name of a slug under a media type.
pub fn output_filename(slug: &ContentSlug, media: &MediaType) -> (r: Vec<u8>)
    ensures
        r@ == output_filename_of(slug@, media@),
{
    let e = media.extension();
    let ext = if e.len() == 0 {
        Option::None
    } else {
        Option::Some(e)
    };
    proof {
        broadcast use crate::bytes::lemma_bytes_deep_view;

    }
    filename_vec(&slug.stem, &ext)
}

/// Build the URL path of a slug under a media type.
pub fn url_path_vec(slug: &ContentSlug, media: &MediaType) -> (r: Vec<u8>)
    ensures
        r@ == url_path_of(slug@, media@),
{
    let f = output_filename(slug, media);
    let joined = crate::relpath::join_with_file(&slug.parent, &f);
    let mut r: Vec<u8> = Vec::new();
    r.push(SLASH);
    let ghost before = r@;
    extend_bytes(&mut r, &joined);
    proof {
        assert(before =~= seq![SLASH]);
    }
    r
}

impl Metadata {
    /// A fresh metadata record for a page, with nothing extracted yet.
    pub fn new(debug: bool, slug: ContentSlug, file: &ContentFile) -> (r: Metadata)
        ensures
            r@.slug == slug@,
            r@.frontmatter is None,
            r@.title is None,
            r@.debug == debug,
            r@.url_path == url_path_of(slug@, file.current_media@),
            r@.is_article == (file.original_media@ is Djot),
            r@.bibliography_file is None,
    {
        let url_path = url_path_vec(&slug, &file.current_media);
        let is_article = file.is_article();
        Metadata {
            slug,
            frontmatter: Option::None,
            title: Option::None,
            debug,
            url_path,
            is_article,
            bibliography_file: Option::None,
        }
    }

    /// Verified copy of a metadata record.
    pub fn duplicate(&self) -> (r: Metadata)
        ensures
            r@ == self@,
    {
        broadcast use crate::bytes::lemma_bytes_deep_view;

        let r = Metadata {
            slug: self.slug.duplicate(),
            frontmatter: clone_opt_bytes(&self.frontmatter),
            title: clone_opt_bytes(&self.title),
            debug: self.debug,
            url_path: clone_bytes(&self.url_path),
            is_article: self.is_article,
            bibliography_file: clone_opt_bytes(&self.bibliography_file),
        };
        proof {
            assert(r@ =~= self@);
        }
        r
    }
}

/// Whether a sequence of records holds a record for a slug.
pub open spec fn contains_slug(s: Seq<MetadataView>, key: SlugView) -> bool {
    exists|i: int| 0 <= i < s.len() && s[i].slug == key
}

/// The record a sequence holds for a slug.
pub open spec fn value_at(s: Seq<MetadataView>, key: SlugView) -> MetadataView {
    s[choose|i: int| 0 <= i < s.len() && s[i].slug == key]
}

/// Index of the record for a slug.
pub open spec fn slug_index(s: Seq<MetadataView>, key: SlugView) -> int {
    choose|i: int| 0 <= i < s.len() && s[i].slug == key
}

/// Records sorted strictly ascending in the slug order.
pub open spec fn sorted_by_slug(s: Seq<MetadataView>) -> bool {
    forall|i: int, j: int| 0 <= i < j < s.len() ==> slug_lt(s[i].slug, s[j].slug)
}

/// In a sorted sequence, the record with a given slug is unique: any witness
/// index is the index.
pub proof fn lemma_sorted_unique(t: Seq<MetadataView>, w: int, key: SlugView)
    requires
        sorted_by_slug(t),
        0 <= w < t.len(),
        t[w].slug == key,
    ensures
        contains_slug(t, key),
        value_at(t, key) == t[w],
        slug_index(t, key) == w,
{
    assert(contains_slug(t, key));
    let v = choose|v: int| 0 <= v < t.len() && t[v].slug == key;
    if v != w {
        lemma_slug_lt_trichotomy(t[v].slug, t[w].slug);
    }
}

/// Position a new slug would be inserted at: after the run of smaller slugs.
pub open spec fn insert_pos(s: Seq<MetadataView>, key: SlugView) -> int
    decreases s.len(),
{
    if s.len() == 0 {
        0
    } else if slug_lt(s[0].slug, key) {
        1 + insert_pos(s.skip(1), key)
    } else {
        0
    }
}

proof fn lemma_insert_pos_of_run(s: Seq<MetadataView>, key: SlugView, i: int)
    requires
        0 <= i <= s.len(),
        forall|j: int| 0 <= j < i ==> slug_lt(s[j].slug, key),
        i < s.len() ==> !slug_lt(s[i].slug, key),
    ensures
        insert_pos(s, key) == i,
    decreases s.len(),
{
    if s.len() > 0 && i > 0 {
        assert(slug_lt(s[0].slug, key));
        assert forall|j: int| 0 <= j < i - 1 implies slug_lt(s.skip(1)[j].slug, key) by {
            assert(s.skip(1)[j] == s[j + 1]);
        }
        if i - 1 < s.skip(1).len() {
            assert(s.skip(1)[i - 1] == s[i]);
        }
        lemma_insert_pos_of_run(s.skip(1), key, i - 1);
    }
}

/// The per-build store: one metadata record per content slug, kept in
/// ascending slug order.
#[derive(Debug)]
pub struct MetadataStore {
    entries: Vec<Metadata>,
}

impl View for MetadataStore {
    type V = Seq<MetadataView>;

    closed spec fn view(&self) -> Seq<MetadataView> {
        Seq::new(self.entries@.len(), |i: int| self.entries@[i]@)
    }
}

/// The models of a vector of records.
pub open spec fn mds_view(v: Seq<Metadata>) -> Seq<MetadataView> {
    Seq::new(v.len(), |i: int| v[i]@)
}

/// The records of a sequence whose slugs fall in the subpage range of a page,
/// in their original order.
pub open spec fn subpage_filter(s: Seq<MetadataView>, page: SlugView) -> Seq<MetadataView>
    decreases s.len(),
{
    if s.len() == 0 {
        Seq::empty()
    } else {
        (if is_subpage(page, s[0].slug) {
            seq![s[0]]
        } else {
            Seq::empty()
        }) + subpage_filter(s.skip(1), page)
    }
}

proof fn lemma_subpage_filter_push(s: Seq<MetadataView>, x: MetadataView, page: SlugView)
    ensures
        subpage_filter(s.push(x), page) == subpage_filter(s, page) + (if is_subpage(page, x.slug) {
            seq![x]
        } else {
            Seq::<MetadataView>::empty()
        }),
    decreases s.len(),
{
    let t = s.push(x);
    if s.len() == 0 {
        assert(t.len() == 1);
        assert(t[0] == x);
        assert(t.skip(1) =~= s);
        assert(subpage_filter(s, page) == Seq::<MetadataView>::empty());
        if is_subpage(page, x.slug) {
            assert(subpage_filter(t, page) =~= seq![x]);
            assert(subpage_filter(s, page) + seq![x] =~= seq![x]);
        } else {
            assert(subpage_filter(t, page) =~= Seq::<MetadataView>::empty());
            assert(subpage_filter(s, page) + Seq::<MetadataView>::empty()
                =~= Seq::<MetadataView>::empty());
        }
    } else {
        assert(t[0] == s[0]);
        assert(t.skip(1) =~= s.skip(1).push(x));
        lemma_subpage_filter_push(s.skip(1), x, page);
        assert((if is_subpage(page, s[0].slug) {
            seq![s[0]]
        } else {
            Seq::<MetadataView>::empty()
        }) + (subpage_filter(s.skip(1), page) + (if is_subpage(page, x.slug) {
            seq![x]
        } else {
            Seq::<MetadataView>::empty()
        })) =~= subpage_filter(s, page) + (if is_subpage(page, x.slug) {
            seq![x]
        } else {
            Seq::<MetadataView>::empty()
        }));
    }
}

/// Every filtered record appears in the original sequence and lies in the
/// subpage range; the filter of a sorted sequence is sorted.
pub proof fn lemma_subpage_filter_props(s: Seq<MetadataView>, page: SlugView)
    ensures
        forall|k: int|
            0 <= k < subpage_filter(s, page).len() ==> is_subpage(
                page,
                #[trigger] subpage_filter(s, page)[k].slug,
            ),
        forall|k: int|
            0 <= k < subpage_filter(s, page).len() ==> exists|i: int|
                0 <= i < s.len() && s[i] == #[trigger] subpage_filter(s, page)[k],
        sorted_by_slug(s) ==> sorted_by_slug(subpage_filter(s, page)),
    decreases s.len(),
{
    let f = subpage_filter(s, page);
    if s.len() > 0 {
        lemma_subpage_filter_props(s.skip(1), page);
        let f1 = subpage_filter(s.skip(1), page);
        let head: Seq<MetadataView> = if is_subpage(page, s[0].slug) {
            seq![s[0]]
        } else {
            Seq::empty()
        };
        assert(f == head + f1);
        assert forall|k: int| 0 <= k < f.len() implies is_subpage(page, f[k].slug) && exists|
            i: int,
        |
            0 <= i < s.len() && s[i] == f[k] by {
            if k < head.len() {
                assert(f[k] == s[0]);
            } else {
                assert(f[k] == f1[k - head.len()]);
                let i = choose|i: int| 0 <= i < s.skip(1).len() && s.skip(1)[i] == f1[k
                    - head.len()];
                assert(s[i + 1] == f[k]);
            }
        }
        if sorted_by_slug(s) {
            assert forall|i: int, j: int| 0 <= i < j < s.skip(1).len() implies slug_lt(
                s.skip(1)[i].slug,
                s.skip(1)[j].slug,
            ) by {
                assert(s.skip(1)[i] == s[i + 1]);
                assert(s.skip(1)[j] == s[j + 1]);
            }
            assert forall|i: int, j: int| 0 <= i < j < f.len() implies slug_lt(
                f[i].slug,
                f[j].slug,
            ) by {
                if i >= head.len() {
                    assert(f[i] == f1[i - head.len()]);
                    assert(f[j] == f1[j - head.len()]);
                } else {
                    assert(f[i] == s[0]);
                    assert(f[j] == f1[j - head.len()]);
                    let m = choose|m: int|
                        0 <= m < s.skip(1).len() && s.skip(1)[m] == f1[j - head.len()];
                    assert(s[m + 1] == f[j]);
                    assert(slug_lt(s[0].slug, s[m + 1].slug));
                }
            }
        }
    }
}

/// Every subpage entry of a page sorts strictly before the page itself, so a
/// pass in ascending slug order has fully populated each listed record before
/// the page's own template renders.
pub proof fn lemma_subpages_rendered_first(s: Seq<MetadataView>, page: SlugView)
    ensures
        forall|k: int|
            0 <= k < subpage_filter(s, page).len() ==> slug_lt(
                #[trigger] subpage_filter(s, page)[k].slug,
                page,
            ),
{
    lemma_subpage_filter_props(s, page);
    assert forall|k: int| 0 <= k < subpage_filter(s, page).len() implies slug_lt(
        subpage_filter(s, page)[k].slug,
        page,
    ) by {
        lemma_subpage_precedes(page, subpage_filter(s, page)[k].slug);
    }
}

impl MetadataStore {
    /// Well-formedness: records strictly ascending, so each slug appears once.
    pub open spec fn wf(self) -> bool {
        sorted_by_slug(self@)
    }

    /// An empty store.
    pub fn new() -> (r: MetadataStore)
        ensures
            r.wf(),
            r@ == Seq::<MetadataView>::empty(),
    {
        let r = MetadataStore { entries: Vec::new() };
        proof {
            assert(r@ =~= Seq::<MetadataView>::empty());
        }
        r
    }

    /// Number of records.
    pub fn len(&self) -> (r: usize)
        ensures
            r == self@.len(),
    {
        self.entries.len()
    }

    /// The record at a position, by copy.
    pub fn at(&self, i: usize) -> (r: Metadata)
        requires
            i < self@.len(),
        ensures
            r@ == self@[i as int],
    {
        self.entries[i].duplicate()
    }

    /// Insert the record for a new slug, keeping the order; a second record
    /// for the same slug is refused.
    pub fn insert(&mut self, md: Metadata) -> (r: Result<(), BuildError>)
        requires
            old(self).wf(),
        ensures
            final(self).wf(),
            r is Ok <==> !contains_slug(old(self)@, md.slug@),
            r is Err ==> final(self)@ == old(self)@ && r->Err_0 == BuildError::DuplicateSlug,
            r is Ok ==> final(self)@ == old(self)@.insert(insert_pos(old(self)@, md.slug@), md@),
    {
        let ghost s = self@;
        let ghost key = md.slug@;
        let n = self.entries.len();
        let mut i: usize = 0;
        while i < n && matches!(self.entries[i].slug.cmp_slug(&md.slug), Cmp::Less)
            invariant
                i <= n,
                n == s.len(),
                self@ == s,
                md.slug@ == key,
                forall|j: int| 0 <= j < i ==> slug_lt(s[j].slug, key),
            decreases n - i,
        {
            proof {
                assert(s[i as int].slug == self.entries@[i as int]@.slug);
            }
            i = i + 1;
        }
        proof {
            lemma_insert_pos_of_run(s, key, i as int);
        }
        if i < n && matches!(self.entries[i].slug.cmp_slug(&md.slug), Cmp::Equal) {
            proof {
                assert(s[i as int].slug == key);
            }
            return Result::Err(BuildError::DuplicateSlug);
        }
        proof {
            assert forall|j: int| 0 <= j < s.len() implies s[j].slug != key by {
                lemma_slug_lt_trichotomy(s[j].slug, key);
                if j >= i {
                    lemma_slug_lt_trichotomy(s[i as int].slug, key);
                    if j > i {
                        lemma_slug_lt_trans(key, s[i as int].slug, s[j].slug);
                    }
                }
            }
        }
        proof {
            if (i as int) < s.len() {
                lemma_slug_lt_trichotomy(s[i as int].slug, key);
            }
        }
        self.entries.insert(i, md);
        proof {
            let t = s.insert(i as int, md@);
            assert(self@ =~= t);
            assert forall|a: int, b: int| 0 <= a < b < t.len() implies slug_lt(
                t[a].slug,
                t[b].slug,
            ) by {
                if b < i {
                    assert(t[a] == s[a] && t[b] == s[b]);
                } else if b == i {
                    assert(t[a] == s[a] && t[b] == md@);
                } else {
                    assert(t[b] == s[b - 1]);
                    if a < i {
                        assert(t[a] == s[a]);
                        if b - 1 == i {
                            lemma_slug_lt_trans(s[a].slug, key, s[b - 1].slug);
                        }
                    } else if a == i {
                        assert(t[a] == md@);
                        if b - 1 > i {
                            lemma_slug_lt_trans(key, s[i as int].slug, s[b - 1].slug);
                        }
                    } else {
                        assert(t[a] == s[a - 1]);
                    }
                }
            }
        }
        Result::Ok(())
    }

    /// Look a slug's record up, by copy.
    pub fn get(&self, slug: &ContentSlug) -> (r: Option<Metadata>)
        requires
            self.wf(),
        ensures
            r is Some <==> contains_slug(self@, slug@),
            r is Some ==> r->0@ == value_at(self@, slug@),
    {
        let ghost s = self@;
        let n = self.entries.len();
        let mut i: usize = 0;
        while i < n
            invariant
                i <= n,
                n == s.len(),
                self@ == s,
                self.wf(),
                forall|j: int| 0 <= j < i ==> s[j].slug != slug@,
            decreases n - i,
        {
            if matches!(self.entries[i].slug.cmp_slug(slug), Cmp::Equal) {
                proof {
                    assert(s[i as int] == self.entries@[i as int]@);
                    assert(s[i as int].slug == slug@);
                    assert(contains_slug(s, slug@));
                    let w = choose|w: int| 0 <= w < s.len() && s[w].slug == slug@;
                    if w != i {
                        lemma_slug_lt_trichotomy(s[w].slug, s[i as int].slug);
                    }
                    assert(value_at(s, slug@) == s[i as int]);
                }
                return Option::Some(self.entries[i].duplicate());
            }
            proof {
                assert(s[i as int].slug == self.entries@[i as int]@.slug);
            }
            i = i + 1;
        }
        Option::None
    }

    /// Replace the record for a slug already in the store.
    pub fn update(&mut self, md: Metadata) -> (r: bool)
        requires
            old(self).wf(),
        ensures
            final(self).wf(),
            r <==> contains_slug(old(self)@, md.slug@),
            r ==> final(self)@ == old(self)@.update(slug_index(old(self)@, md.slug@), md@),
            !r ==> final(self)@ == old(self)@,
    {
        let ghost s = self@;
        let n = self.entries.len();
        let mut i: usize = 0;
        while i < n
            invariant
                i <= n,
                n == s.len(),
                self@ == s,
                old(self)@ == s,
                self.wf(),
                forall|j: int| 0 <= j < i ==> s[j].slug != md.slug@,
            decreases n - i,
        {
            if matches!(self.entries[i].slug.cmp_slug(&md.slug), Cmp::Equal) {
                proof {
                    assert(s[i as int] == self.entries@[i as int]@);
                    assert(s[i as int].slug == md.slug@);
                    assert(contains_slug(s, md.slug@));
                    let w = slug_index(s, md.slug@);
                    if w != i {
                        lemma_slug_lt_trichotomy(s[w].slug, s[i as int].slug);
                    }
                    assert(slug_index(s, md.slug@) == i as int);
                }
                self.entries.remove(i);
                self.entries.insert(i, md);
                proof {
                    let t = s.update(i as int, md@);
                    assert(self@ =~= t);
                    assert forall|a: int, b: int| 0 <= a < b < t.len() implies slug_lt(
                        t[a].slug,
                        t[b].slug,
                    ) by {
                        if a == i {
                            assert(t[a] == md@ && t[b] == s[b]);
                            assert(md@.slug == s[i as int].slug);
                        } else if b == i {
                            assert(t[a] == s[a] && t[b] == md@);
                            assert(md@.slug == s[i as int].slug);
                        } else {
                            assert(t[a] == s[a] && t[b] == s[b]);
                        }
                    }
                }
                return true;
            }
            proof {
                assert(s[i as int].slug == self.entries@[i as int]@.slug);
            }
            i = i + 1;
        }
        false
    }

    /// The records of all subpages of a page, in ascending slug order.
    pub fn subpages(&self, slug: &ContentSlug) -> (r: Vec<Metadata>)
        ensures
            mds_view(r@) == subpage_filter(self@, slug@),
    {
        let ghost s = self@;
        let (lo, hi) = slug.subpage_range();
        let mut r: Vec<Metadata> = Vec::new();
        let n = self.entries.len();
        let mut i: usize = 0;
        proof {
            assert(s.take(0) =~= Seq::<MetadataView>::empty());
            assert(mds_view(r@) =~= subpage_filter(s.take(0), slug@));
        }
        while i < n
            invariant
                i <= n,
                n == s.len(),
                self@ == s,
                lo@ == crate::slug::subpage_lo(slug@),
                hi@ == crate::slug::subpage_hi(slug@),
                mds_view(r@) == subpage_filter(s.take(i as int), slug@),
            decreases n - i,
        {
            let entry = &self.entries[i];
            proof {
                assert(s[i as int] == entry@);
                assert(s.take(i + 1) =~= s.take(i as int).push(s[i as int]));
                lemma_subpage_filter_push(s.take(i as int), s[i as int], slug@);
            }
            let ge_lo = !matches!(lo.cmp_slug(&entry.slug), Cmp::Greater);
            let lt_hi = matches!(entry.slug.cmp_slug(&hi), Cmp::Less);
            if ge_lo && lt_hi {
                r.push(entry.duplicate());
                proof {
                    assert(mds_view(r@) =~= subpage_filter(s.take(i as int), slug@).push(
                        s[i as int],
                    ));
                    assert(subpage_filter(s.take(i as int), slug@) + seq![s[i as int]]
                        =~= subpage_filter(s.take(i as int), slug@).push(s[i as int]));
                }
            } else {
                proof {
                    assert(subpage_filter(s.take(i as int), slug@)
                        + Seq::<MetadataView>::empty() =~= subpage_filter(
                        s.take(i as int),
                        slug@,
                    ));
                }
            }
            i = i + 1;
        }
        proof {
            assert(s.take(n as int) =~= s);
        }
        r
    }
}

} // verus!
