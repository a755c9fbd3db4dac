use vstd::prelude::*;

use crate::bytes::{bytes_eq, lit_bytes, str_bytes, subvec};
use crate::events::{
    collect_strings, concat_strs, evs_view, lemma_str_run_in_range, out_view, str_run_len, EvKind,
    EvView, OutEv, OutEvView,
};

verus! {

/// Byte value of `;`, the citation key separator.
pub const SEMI: u8 = 59;

/// ASCII whitespace, as trimmed around citation keys: space, tab, line
/// feed, vertical tab, form feed, carriage return. Trimming works on bytes,
/// so multi-byte whitespace stays; a key wrapped in such whitespace simply
/// misses the library and is skipped, a soft condition.
pub open spec fn is_ws(b: u8) -> bool {
    b == 32 || (9 <= b && b <= 13)
}

/// A byte string with surrounding ASCII whitespace removed.
pub open spec fn trim_bytes(s: Seq<u8>) -> Seq<u8>
    decreases s.len(),
{
    if s.len() == 0 {
        s
    } else if is_ws(s[0]) {
        trim_bytes(s.skip(1))
    } else if is_ws(s.last()) {
        trim_bytes(s.drop_last())
    } else {
        s
    }
}

proof fn lemma_trim_of_clean(s: Seq<u8>, lo: int, hi: int)
    requires
        0 <= lo <= hi <= s.len(),
        forall|k: int| 0 <= k < lo ==> is_ws(#[trigger] s[k]),
        forall|k: int| hi <= k < s.len() ==> is_ws(#[trigger] s[k]),
        lo < hi ==> !is_ws(s[lo]) && !is_ws(s[hi - 1]),
    ensures
        trim_bytes(s) == s.subrange(lo, hi),
    decreases s.len(),
{
    if s.len() == 0 {
        assert(trim_bytes(s) =~= s.subrange(lo, hi));
    } else if lo > 0 {
        assert(is_ws(s[0]));
        lemma_trim_of_clean(s.skip(1), lo - 1, hi - 1);
        assert(s.skip(1).subrange(lo - 1, hi - 1) =~= s.subrange(lo, hi));
    } else if hi < s.len() {
        assert(is_ws(s.last()));
        if is_ws(s[0]) {
            assert(lo == hi);
            lemma_trim_of_clean(s.skip(1), 0, 0);
            assert(s.skip(1).subrange(0, 0) =~= s.subrange(lo, hi));
        } else {
            lemma_trim_of_clean(s.drop_last(), lo, hi);
            assert(s.drop_last().subrange(lo, hi) =~= s.subrange(lo, hi));
        }
    } else {
        assert(!is_ws(s[0]));
        assert(!is_ws(s.last()));
        assert(trim_bytes(s) == s);
        assert(s.subrange(0, s.len() as int) =~= s);
    }
}

/// Trim surrounding ASCII whitespace from a key.
pub fn trim_vec(s: &Vec<u8>) -> (r: Vec<u8>)
    ensures
        r@ == trim_bytes(s@),
{
    let n = s.len();
    let mut lo: usize = 0;
    while lo < n && (s[lo] == 32 || (9 <= s[lo] && s[lo] <= 13))
        invariant
            lo <= n,
            n == s@.len(),
            forall|k: int| 0 <= k < lo ==> is_ws(#[trigger] s@[k]),
        decreases n - lo,
    {
        lo = lo + 1;
    }
    let mut hi: usize = n;
    while hi > lo && (s[hi - 1] == 32 || (9 <= s[hi - 1] && s[hi - 1] <= 13))
        invariant
            lo <= hi <= n,
            n == s@.len(),
            forall|k: int| 0 <= k < lo ==> is_ws(#[trigger] s@[k]),
            forall|k: int| hi <= k < n ==> is_ws(#[trigger] s@[k]),
        decreases hi,
    {
        hi = hi - 1;
    }
    proof {
        lemma_trim_of_clean(s@, lo as int, hi as int);
    }
    subvec(s, lo, hi)
}

/// Split a key list at every `;`, exactly as the path splitter does with
/// `/`: the empty text has one empty piece.
pub open spec fn split_semis(s: Seq<u8>) -> Seq<Seq<u8>>
    decreases s.len(),
{
    if s.len() == 0 {
        seq![Seq::<u8>::empty()]
    } else if s.last() == SEMI {
        split_semis(s.drop_last()).push(Seq::empty())
    } else {
        let p = split_semis(s.drop_last());
        p.update(p.len() - 1, p.last().push(s.last()))
    }
}

proof fn lemma_split_semis_len(s: Seq<u8>)
    ensures
        split_semis(s).len() >= 1,
    decreases s.len(),
{
    if s.len() > 0 {
        lemma_split_semis_len(s.drop_last());
    }
}

/// Split a raw marker text into its keys: pieces at `;`, each trimmed.
pub open spec fn split_keys(s: Seq<u8>) -> Seq<Seq<u8>> {
    split_semis(s).map_values(|p: Seq<u8>| trim_bytes(p))
}

/// The keys of a marker that the library knows, in marker order.
pub open spec fn known_keys(ks: Seq<Seq<u8>>, lib: Seq<Seq<u8>>) -> Seq<Seq<u8>>
    decreases ks.len(),
{
    if ks.len() == 0 {
        Seq::empty()
    } else {
        (if lib.contains(ks[0]) {
            seq![ks[0]]
        } else {
            Seq::<Seq<u8>>::empty()
        }) + known_keys(ks.skip(1), lib)
    }
}

proof fn lemma_known_keys_push(ks: Seq<Seq<u8>>, x: Seq<u8>, lib: Seq<Seq<u8>>)
    ensures
        known_keys(ks.push(x), lib) == known_keys(ks, lib) + (if lib.contains(x) {
            seq![x]
        } else {
            Seq::<Seq<u8>>::empty()
        }),
    decreases ks.len(),
{
    let t = ks.push(x);
    if ks.len() == 0 {
        assert(t[0] == x);
        assert(t.skip(1) =~= ks);
        assert(known_keys(ks, lib) == Seq::<Seq<u8>>::empty());
        if lib.contains(x) {
            assert(known_keys(t, lib) =~= known_keys(ks, lib) + seq![x]);
        } else {
            assert(known_keys(t, lib) =~= known_keys(ks, lib) + Seq::<Seq<u8>>::empty());
        }
    } else {
        assert(t[0] == ks[0]);
        assert(t.skip(1) =~= ks.skip(1).push(x));
        lemma_known_keys_push(ks.skip(1), x, lib);
        assert((if lib.contains(ks[0]) {
            seq![ks[0]]
        } else {
            Seq::<Seq<u8>>::empty()
        }) + (known_keys(ks.skip(1), lib) + (if lib.contains(x) {
            seq![x]
        } else {
            Seq::<Seq<u8>>::empty()
        })) =~= known_keys(ks, lib) + (if lib.contains(x) {
            seq![x]
        } else {
            Seq::<Seq<u8>>::empty()
        }));
    }
}

/// Whether the library holds a key.
pub fn contains_key(lib: &Vec<Vec<u8>>, key: &Vec<u8>) -> (r: bool)
    ensures
        r == lib.deep_view().contains(key@),
{
    broadcast use crate::bytes::lemma_bytes_deep_view;

    let n = lib.len();
    let mut i: usize = 0;
    while i < n
        invariant
            i <= n,
            n == lib.deep_view().len(),
            forall|j: int| 0 <= j < i ==> lib.deep_view()[j] != key@,
        decreases n - i,
    {
        if bytes_eq(&lib[i], key) {
            proof {
                assert(lib.deep_view()[i as int] == key@);
            }
            return true;
        }
        proof {
            assert(lib.deep_view()[i as int] == lib@[i as int]@);
        }
        i = i + 1;
    }
    false
}

/// Split a raw marker text at `;`.
pub fn split_semis_vec(s: &Vec<u8>) -> (r: Vec<Vec<u8>>)
    ensures
        r.deep_view() == split_semis(s@),
        r@.len() >= 1,
{
    broadcast use crate::bytes::lemma_bytes_deep_view;

    let mut pieces: Vec<Vec<u8>> = Vec::new();
    let mut cur: Vec<u8> = Vec::new();
    let n = s.len();
    let mut i: usize = 0;
    proof {
        assert(s@.take(0) =~= Seq::<u8>::empty());
        assert(pieces.deep_view().push(cur@) =~= split_semis(s@.take(0)));
    }
    while i < n
        invariant
            i <= n,
            n == s@.len(),
            pieces.deep_view().push(cur@) == split_semis(s@.take(i as int)),
        decreases n - i,
    {
        let ghost prev = pieces.deep_view().push(cur@);
        proof {
            assert(s@.take(i + 1).drop_last() =~= s@.take(i as int));
            assert(s@.take(i + 1).last() == s@[i as int]);
        }
        let b = s[i];
        if b == SEMI {
            pieces.push(cur);
            cur = Vec::new();
            proof {
                assert(pieces.deep_view().push(cur@) =~~= prev.push(Seq::<u8>::empty()));
            }
        } else {
            cur.push(b);
            proof {
                assert(pieces.deep_view().push(cur@) =~~= prev.update(
                    prev.len() - 1,
                    prev.last().push(b),
                ));
            }
        }
        i = i + 1;
    }
    proof {
        assert(s@.take(n as int) =~= s@);
    }
    pieces.push(cur);
    proof {
        lemma_split_semis_len(s@);
    }
    pieces
}

/// Split a marker text into keys and keep those the library knows, in
/// marker order.
pub fn known_keys_of_text(raw: &Vec<u8>, lib: &Vec<Vec<u8>>) -> (r: Vec<Vec<u8>>)
    ensures
        r.deep_view() == known_keys(split_keys(raw@), lib.deep_view()),
{
    broadcast use crate::bytes::lemma_bytes_deep_view;

    let pieces = split_semis_vec(raw);
    let ghost ks = split_keys(raw@);
    proof {
        assert(ks.len() == pieces.deep_view().len());
    }
    let mut keys: Vec<Vec<u8>> = Vec::new();
    let n = pieces.len();
    let mut i: usize = 0;
    proof {
        assert(keys.deep_view() =~= known_keys(ks.take(0), lib.deep_view()));
    }
    while i < n
        invariant
            i <= n,
            n == pieces@.len(),
            ks == split_keys(raw@),
            ks.len() == n,
            pieces.deep_view() == split_semis(raw@),
            keys.deep_view() == known_keys(ks.take(i as int), lib.deep_view()),
        decreases n - i,
    {
        proof {
            assert(ks[i as int] == trim_bytes(split_semis(raw@)[i as int]));
            assert(pieces.deep_view()[i as int] == pieces@[i as int]@);
            assert(ks.take(i + 1) =~= ks.take(i as int).push(ks[i as int]));
            lemma_known_keys_push(ks.take(i as int), ks[i as int], lib.deep_view());
        }
        let t = trim_vec(&pieces[i]);
        if contains_key(lib, &t) {
            keys.push(t);
            proof {
                assert(keys.deep_view() =~~= known_keys(ks.take(i as int), lib.deep_view())
                    + seq![ks[i as int]]);
            }
        } else {
            proof {
                assert(known_keys(ks.take(i as int), lib.deep_view())
                    + Seq::<Seq<u8>>::empty() =~= known_keys(ks.take(i as int), lib.deep_view()));
            }
        }
        i = i + 1;
    }
    proof {
        assert(ks.take(n as int) =~= ks);
    }
    keys
}

/// One inline citation marker: its half-open span of input events and its
/// known keys, in order.
#[derive(Debug)]
pub struct CiteMarker {
    pub start: usize,
    pub end: usize,
    pub keys: Vec<Vec<u8>>,
}

/// Mathematical model of a marker.
#[verifier::ext_equal]
pub struct CiteMarkerView {
    pub start: int,
    pub end: int,
    pub keys: Seq<Seq<u8>>,
}

impl View for CiteMarker {
    type V = CiteMarkerView;

    open spec fn view(&self) -> CiteMarkerView {
        CiteMarkerView {
            start: self.start as int,
            end: self.end as int,
            keys: self.keys.deep_view(),
        }
    }
}

/// The models of a vector of markers.
pub open spec fn markers_view(v: Seq<CiteMarker>) -> Seq<CiteMarkerView> {
    Seq::new(v.len(), |i: int| v[i]@)
}

/// Whether an event opens an inline citation marker.
pub open spec fn is_cite_start(e: EvView) -> bool {
    e == EvView::RawInlineStart(str_bytes("cite"@))
}

/// The indices of all citation markers, in document order.
pub open spec fn cite_starts(evs: Seq<EvView>) -> Seq<int>
    decreases evs.len(),
{
    if evs.len() == 0 {
        Seq::empty()
    } else if is_cite_start(evs.last()) {
        cite_starts(evs.drop_last()).push(evs.len() - 1)
    } else {
        cite_starts(evs.drop_last())
    }
}

/// One past the closing event of the marker starting at `start`.
pub open spec fn marker_end(evs: Seq<EvView>, start: int) -> int {
    start + 1 + str_run_len(evs, start + 1) + 1
}

/// Whether the marker starting at `start` closes properly after its text.
pub open spec fn marker_closed(evs: Seq<EvView>, start: int) -> bool {
    marker_end(evs, start) <= evs.len() && evs[marker_end(evs, start) - 1]
        == EvView::RawInlineEnd(str_bytes("cite"@))
}

/// The raw key text of the marker starting at `start`.
pub open spec fn marker_text(evs: Seq<EvView>, start: int) -> Seq<u8> {
    concat_strs(evs, start + 1, str_run_len(evs, start + 1))
}

pub proof fn lemma_cite_starts_props(evs: Seq<EvView>)
    ensures
        forall|j: int|
            0 <= j < cite_starts(evs).len() ==> 0 <= #[trigger] cite_starts(evs)[j] < evs.len()
                && is_cite_start(evs[cite_starts(evs)[j]]),
        forall|j: int, k: int|
            0 <= j < k < cite_starts(evs).len() ==> #[trigger] cite_starts(evs)[j]
                < #[trigger] cite_starts(evs)[k],
    decreases evs.len(),
{
    if evs.len() > 0 {
        lemma_cite_starts_props(evs.drop_last());
        assert forall|j: int|
            0 <= j < cite_starts(evs.drop_last()).len() implies evs[#[trigger] cite_starts(
            evs.drop_last(),
        )[j]] == evs.drop_last()[cite_starts(evs.drop_last())[j]] by {}
    }
}

/// A prefix of the events yields a prefix of the marker indices.
pub proof fn lemma_cite_starts_prefix(evs: Seq<EvView>, b: int)
    requires
        0 <= b <= evs.len(),
    ensures
        cite_starts(evs.take(b)).len() <= cite_starts(evs).len(),
        forall|j: int|
            0 <= j < cite_starts(evs.take(b)).len() ==> #[trigger] cite_starts(evs)[j]
                == cite_starts(evs.take(b))[j],
    decreases evs.len() - b,
{
    if b == evs.len() {
        assert(evs.take(b) =~= evs);
    } else {
        lemma_cite_starts_prefix(evs, b + 1);
        assert(evs.take(b + 1).drop_last() =~= evs.take(b));
    }
}

/// Closed markers do not overlap: one marker's span ends before the next
/// marker starts.
pub proof fn lemma_markers_disjoint(evs: Seq<EvView>, s1: int, s2: int)
    requires
        0 <= s1 < s2 < evs.len(),
        is_cite_start(evs[s2]),
        marker_closed(evs, s1),
    ensures
        marker_end(evs, s1) <= s2,
{
    lemma_str_run_in_range(evs, s1 + 1);
    let e1 = marker_end(evs, s1);
    if s2 < e1 - 1 {
        assert(evs[s2] is Str);
        assert(false);
    } else if s2 == e1 - 1 {
        assert(evs[s2] == EvView::RawInlineEnd(str_bytes("cite"@)));
        assert(false);
    }
}

/// Parse a bibliography source into its citation keys, in library order; a
/// source that does not parse fails the file.
pub fn library_keys(text: &Vec<u8>) -> (r: Result<Vec<Vec<u8>>, crate::BuildError>)
    ensures
        r is Ok <==> crate::outside::library_keys_of(text@) is Some,
        r is Ok ==> r->Ok_0.deep_view() == crate::outside::library_keys_of(text@)->0,
        r is Err ==> r->Err_0 == crate::BuildError::MalformedLibrary,
{
    match crate::outside::parse_library_keys(text) {
        Option::Some(keys) => Result::Ok(keys),
        Option::None => Result::Err(crate::BuildError::MalformedLibrary),
    }
}

/// The three events a rendered citation fragment is spliced in as: an
/// inline HTML passthrough.
pub open spec fn cite_html_triple(frag: Seq<u8>) -> Seq<OutEvView> {
    seq![
        OutEvView::RawInlineStart(str_bytes("html"@)),
        OutEvView::Str(frag),
        OutEvView::RawInlineEnd(str_bytes("html"@)),
    ]
}

/// The passthrough events for the input range `[a, b)`.
pub open spec fn orig_range(a: int, b: int) -> Seq<OutEvView> {
    Seq::new(
        if b >= a {
            (b - a) as nat
        } else {
            0nat
        },
        |k: int| OutEvView::Orig(a + k),
    )
}

/// The transformed stream from `from` on: passthrough up to each marker in
/// turn, the marker's rendered fragment in its place, and passthrough after
/// the last marker. The `j`-th marker in document order gets the `j`-th
/// fragment: splicing never reorders.
pub open spec fn splice_spec(
    ms: Seq<CiteMarkerView>,
    fs: Seq<Seq<u8>>,
    from: int,
    n: int,
) -> Seq<OutEvView>
    decreases ms.len(),
{
    if ms.len() == 0 {
        orig_range(from, n)
    } else {
        orig_range(from, ms[0].start) + cite_html_triple(fs[0]) + splice_spec(
            ms.skip(1),
            fs.skip(1),
            ms[0].end,
            n,
        )
    }
}

/// Markers in document order, disjoint, inside `[from, n)`.
pub open spec fn markers_chain(ms: Seq<CiteMarkerView>, from: int, n: int) -> bool {
    forall|j: int|
        0 <= j < ms.len() ==> (#[trigger] ms[j]).start >= (if j == 0 {
            from
        } else {
            ms[j - 1].end
        }) && ms[j].start <= ms[j].end && ms[j].end <= n
}

/// Markers as a successful scan reports them — one per marker index, in
/// document order, closed — are always in splicing order: disjoint and
/// inside the document, from any position at or before the first marker.
pub proof fn lemma_scanned_markers_chain(evs: Seq<EvView>, ms: Seq<CiteMarkerView>, from: int)
    requires
        ms.len() == cite_starts(evs).len(),
        forall|j: int|
            0 <= j < ms.len() ==> (#[trigger] ms[j]).start == cite_starts(evs)[j] && ms[j].end
                == marker_end(evs, cite_starts(evs)[j]) && marker_closed(
                evs,
                cite_starts(evs)[j],
            ),
        0 <= from,
        ms.len() > 0 ==> from <= ms[0].start,
    ensures
        markers_chain(ms, from, evs.len() as int),
{
    lemma_cite_starts_props(evs);
    assert forall|j: int| 0 <= j < ms.len() implies (#[trigger] ms[j]).start >= (if j == 0 {
        from
    } else {
        ms[j - 1].end
    }) && ms[j].start <= ms[j].end && ms[j].end <= evs.len() by {
        let s = cite_starts(evs)[j];
        lemma_str_run_in_range(evs, s + 1);
        if j > 0 {
            assert(ms[j - 1].start == cite_starts(evs)[j - 1]);
            assert(marker_closed(evs, cite_starts(evs)[j - 1]));
            lemma_markers_disjoint(evs, cite_starts(evs)[j - 1], s);
        }
    }
}

/// Decide whether markers are in document order, disjoint, inside
/// `[from, n)` — what splicing needs of them.
#[verifier::rlimit(60)]
pub fn markers_chained(markers: &Vec<CiteMarker>, from: usize, n: usize) -> (r: bool)
    ensures
        r == markers_chain(markers_view(markers@), from as int, n as int),
{
    let ghost ms = markers_view(markers@);
    let m = markers.len();
    let mut j: usize = 0;
    while j < m
        invariant
            j <= m,
            m == ms.len(),
            ms == markers_view(markers@),
            forall|k: int|
                0 <= k < j ==> (#[trigger] ms[k]).start >= (if k == 0 {
                    from as int
                } else {
                    ms[k - 1].end
                }) && ms[k].start <= ms[k].end && ms[k].end <= n,
        decreases m - j,
    {
        proof {
            assert(ms[j as int] == markers@[j as int]@);
            if j > 0 {
                assert(ms[j - 1] == markers@[j - 1]@);
            }
        }
        let lower = if j == 0 {
            from
        } else {
            markers[j - 1].end
        };
        if !(markers[j].start >= lower && markers[j].start <= markers[j].end && markers[j].end
            <= n) {
            return false;
        }
        j = j + 1;
    }
    true
}

/// Append the passthrough events for the input range `[a, b)`.
fn push_orig_range(out: &mut Vec<OutEv>, a: usize, b: usize)
    requires
        a <= b,
    ensures
        out_view(final(out)@) == out_view(old(out)@) + orig_range(a as int, b as int),
{
    let mut i = a;
    let ghost base = out_view(out@);
    proof {
        assert(out_view(out@) =~= base + orig_range(a as int, a as int));
    }
    while i < b
        invariant
            a <= i <= b,
            base == out_view(old(out)@),
            out_view(out@) == base + orig_range(a as int, i as int),
        decreases b - i,
    {
        let ghost prev = out_view(out@);
        out.push(OutEv::Orig(i));
        proof {
            assert(out_view(out@) =~= prev.push(OutEvView::Orig(i as int)));
            assert(out_view(out@) =~= base + orig_range(a as int, i + 1));
        }
        i = i + 1;
    }
}

/// Splice the rendered citation fragments into the document: the `j`-th
/// marker's span, counted against the original event indices, is replaced by
/// the `j`-th fragment, and everything else passes through unchanged.
#[verifier::rlimit(60)]
pub fn splice_citations(
    markers: &Vec<CiteMarker>,
    frags: &Vec<Vec<u8>>,
    from: usize,
    n: usize,
) -> (r: Vec<OutEv>)
    requires
        markers_chain(markers_view(markers@), from as int, n as int),
        frags@.len() == markers@.len(),
        from <= n,
    ensures
        out_view(r@) == splice_spec(
            markers_view(markers@),
            frags.deep_view(),
            from as int,
            n as int,
        ),
{
    broadcast use crate::bytes::lemma_bytes_deep_view;

    let ghost ms = markers_view(markers@);
    let ghost fs = frags.deep_view();
    let ghost total = splice_spec(ms, fs, from as int, n as int);
    let mut out: Vec<OutEv> = Vec::new();
    let mut cur: usize = from;
    let mut j: usize = 0;
    proof {
        assert(ms.skip(0) =~= ms);
        assert(fs.skip(0) =~= fs);
        assert(out_view(out@) + splice_spec(ms, fs, from as int, n as int) =~= total);
    }
    while j < markers.len()
        invariant
            j <= markers@.len(),
            frags@.len() == markers@.len(),
            ms == markers_view(markers@),
            fs == frags.deep_view(),
            total == splice_spec(ms, fs, from as int, n as int),
            markers_chain(ms, from as int, n as int),
            from <= n,
            cur == (if j == 0 {
                from as int
            } else {
                ms[j - 1].end
            }),
            cur <= n,
            total == out_view(out@) + splice_spec(ms.skip(j as int), fs.skip(j as int), cur as int, n as int),
        decreases markers@.len() - j,
    {
        proof {
            reveal_strlit("html");
            assert(ms[j as int] == markers@[j as int]@);
        }
        let start = markers[j].start;
        let end = markers[j].end;
        proof {
            assert(ms[j as int].start == start as int && ms[j as int].end == end as int);
            assert(cur <= start <= end <= n);
        }
        let ghost out0 = out_view(out@);
        push_orig_range(&mut out, cur, start);
        out.push(OutEv::RawInlineStart(lit_bytes("html")));
        out.push(OutEv::Str(crate::bytes::clone_bytes(&frags[j])));
        out.push(OutEv::RawInlineEnd(lit_bytes("html")));
        proof {
            assert(fs[j as int] == frags@[j as int]@);
            assert(out_view(out@) =~= out0 + orig_range(cur as int, start as int)
                + cite_html_triple(fs[j as int]));
            assert(ms.skip(j as int)[0] == ms[j as int]);
            assert(fs.skip(j as int)[0] == fs[j as int]);
            assert(ms.skip(j as int).skip(1) =~= ms.skip(j + 1));
            assert(fs.skip(j as int).skip(1) =~= fs.skip(j + 1));
            assert(splice_spec(ms.skip(j as int), fs.skip(j as int), cur as int, n as int)
                == orig_range(cur as int, start as int) + cite_html_triple(fs[j as int])
                + splice_spec(ms.skip(j + 1), fs.skip(j + 1), end as int, n as int));
            assert(out0 + (orig_range(cur as int, start as int) + cite_html_triple(fs[j as int])
                + splice_spec(ms.skip(j + 1), fs.skip(j + 1), end as int, n as int)) =~= (out0
                + orig_range(cur as int, start as int) + cite_html_triple(fs[j as int]))
                + splice_spec(ms.skip(j + 1), fs.skip(j + 1), end as int, n as int));
        }
        cur = end;
        j = j + 1;
    }
    proof {
        assert(ms.skip(j as int) =~= Seq::<CiteMarkerView>::empty());
        assert(splice_spec(ms.skip(j as int), fs.skip(j as int), cur as int, n as int)
            == orig_range(cur as int, n as int));
    }
    let ghost out0 = out_view(out@);
    push_orig_range(&mut out, cur, n);
    proof {
        assert(out_view(out@) == out0 + orig_range(cur as int, n as int));
    }
    out
}

/// Scan the document for citation markers, in order, resolving each
/// marker's keys against the library; unknown keys are skipped. A marker
/// that does not close properly makes the whole citation step a no-op.
#[verifier::rlimit(80)]
pub fn scan_citations(events: &Vec<EvKind>, lib_keys: &Vec<Vec<u8>>) -> (r: Option<Vec<CiteMarker>>)
    ensures
        r is Some <==> (forall|j: int|
            0 <= j < cite_starts(evs_view(events@)).len() ==> marker_closed(
                evs_view(events@),
                #[trigger] cite_starts(evs_view(events@))[j],
            )),
        r is Some ==> markers_view(r->0@).len() == cite_starts(evs_view(events@)).len(),
        r is Some ==> forall|j: int|
            0 <= j < markers_view(r->0@).len() ==> (#[trigger] markers_view(r->0@)[j]).start
                == cite_starts(evs_view(events@))[j] && markers_view(r->0@)[j].end == marker_end(
                evs_view(events@),
                cite_starts(evs_view(events@))[j],
            ) && markers_view(r->0@)[j].keys == known_keys(
                split_keys(marker_text(evs_view(events@), cite_starts(evs_view(events@))[j])),
                lib_keys.deep_view(),
            ),
{
    broadcast use crate::bytes::lemma_bytes_deep_view;

    let ghost evs = evs_view(events@);
    proof {
        reveal_strlit("cite");
        lemma_cite_starts_props(evs);
    }
    let cite_lit = lit_bytes("cite");
    let mut markers: Vec<CiteMarker> = Vec::new();
    let n = events.len();
    let mut i: usize = 0;
    proof {
        assert(evs.take(0) =~= Seq::<EvView>::empty());
    }
    while i < n
        invariant
            i <= n,
            n == evs.len(),
            evs == evs_view(events@),
            cite_lit@ == str_bytes("cite"@),
            markers_view(markers@).len() == cite_starts(evs.take(i as int)).len(),
            forall|j: int|
                0 <= j < markers_view(markers@).len() ==> (#[trigger] markers_view(markers@)[j]).start
                    == cite_starts(evs.take(i as int))[j] && markers_view(markers@)[j].end
                    == marker_end(evs, cite_starts(evs.take(i as int))[j]) && marker_closed(
                    evs,
                    cite_starts(evs.take(i as int))[j],
                ) && markers_view(markers@)[j].keys == known_keys(
                    split_keys(marker_text(evs, cite_starts(evs.take(i as int))[j])),
                    lib_keys.deep_view(),
                ),
            forall|j: int|
                0 <= j < cite_starts(evs.take(i as int)).len() ==> #[trigger] cite_starts(
                    evs.take(i as int),
                )[j] == cite_starts(evs)[j],
        decreases n - i,
    {
        proof {
            reveal_strlit("cite");
            assert(evs[i as int] == events@[i as int]@);
            assert(evs.take(i + 1).drop_last() =~= evs.take(i as int));
            assert(evs.take(i + 1).last() == evs[i as int]);
            lemma_cite_starts_prefix(evs, i + 1);
        }
        let is_start = match &events[i] {
            EvKind::RawInlineStart(f) => bytes_eq(f, &cite_lit),
            _ => false,
        };
        if is_start {
            proof {
                assert(is_cite_start(evs[i as int]));
                assert(cite_starts(evs.take(i + 1)) =~= cite_starts(evs.take(i as int)).push(
                    i as int,
                ));
            }
            let (raw, k) = collect_strings(events, i + 1);
            proof {
                lemma_str_run_in_range(evs, i + 1);
            }
            if i + 1 + k >= n {
                proof {
                    let jj = markers_view(markers@).len() as int;
                    assert(cite_starts(evs)[jj] == i as int);
                    assert(!marker_closed(evs, i as int));
                }
                return Option::None;
            }
            let closed = match &events[i + 1 + k] {
                EvKind::RawInlineEnd(f) => bytes_eq(f, &cite_lit),
                _ => false,
            };
            proof {
                assert(evs[i + 1 + k as int] == events@[i + 1 + k as int]@);
            }
            if !closed {
                proof {
                    let jj = markers_view(markers@).len() as int;
                    assert(cite_starts(evs)[jj] == i as int);
                    assert(!marker_closed(evs, i as int));
                }
                return Option::None;
            }
            let keys = known_keys_of_text(&raw, lib_keys);
            let marker = CiteMarker { start: i, end: i + 1 + k + 1, keys };
            let ghost mv_old = markers_view(markers@);
            let ghost m_new = marker@;
            markers.push(marker);
            proof {
                assert(markers_view(markers@) =~= mv_old.push(m_new));
                assert(m_new.start == i as int);
                assert(m_new.end == marker_end(evs, i as int));
                assert(marker_closed(evs, i as int));
                assert(m_new.keys == known_keys(
                    split_keys(marker_text(evs, i as int)),
                    lib_keys.deep_view(),
                ));
                let ss = cite_starts(evs.take(i + 1));
                assert forall|j: int| 0 <= j < markers_view(markers@).len() implies (
                #[trigger] markers_view(markers@)[j]).start == ss[j] && markers_view(markers@)[j].end
                    == marker_end(evs, ss[j]) && marker_closed(evs, ss[j]) && markers_view(
                    markers@,
                )[j].keys == known_keys(
                    split_keys(marker_text(evs, ss[j])),
                    lib_keys.deep_view(),
                ) by {
                    if j < mv_old.len() {
                        assert(markers_view(markers@)[j] == mv_old[j]);
                        assert(ss[j] == cite_starts(evs.take(i as int))[j]);
                    } else {
                        assert(markers_view(markers@)[j] == m_new);
                        assert(ss[j] == i as int);
                    }
                }
            }
        } else {
            proof {
                assert(cite_starts(evs.take(i + 1)) =~= cite_starts(evs.take(i as int)));
            }
        }
        i = i + 1;
    }
    proof {
        assert(evs.take(n as int) =~= evs);
        assert forall|j: int| 0 <= j < cite_starts(evs).len() implies marker_closed(
            evs,
            #[trigger] cite_starts(evs)[j],
        ) by {
            assert(markers_view(markers@)[j].start == cite_starts(evs.take(n as int))[j]);
        }
    }
    Option::Some(markers)
}

} // verus!
