use vstd::prelude::*;

use crate::bytes::{clone_bytes, dec_digits, extend_bytes, fmt_usize, lit_bytes, str_bytes};
use crate::events::{out_view, OutEv, OutEvView};

verus! {

/// One rendered bibliography entry: its citation key and its rendered HTML.
#[derive(Debug)]
pub struct BibItem {
    pub key: Vec<u8>,
    pub html: Vec<u8>,
}

/// Mathematical model of a bibliography entry.
#[verifier::ext_equal]
pub struct BibItemView {
    pub key: Seq<u8>,
    pub html: Seq<u8>,
}

impl View for BibItem {
    type V = BibItemView;

    open spec fn view(&self) -> BibItemView {
        BibItemView { key: self.key@, html: self.html@ }
    }
}

/// The models of a vector of bibliography entries.
pub open spec fn bib_items_view(v: Seq<BibItem>) -> Seq<BibItemView> {
    Seq::new(v.len(), |i: int| v[i]@)
}

/// The anchor identifier of a bibliography entry, derived from its key, so
/// citation fragments can hyperlink to it.
pub open spec fn ref_anchor(key: Seq<u8>) -> Seq<u8> {
    str_bytes("ref-"@) + key
}

/// Distinct keys give distinct anchors: every entry's anchor is unique and
/// stable.
pub proof fn lemma_anchor_injective(k1: Seq<u8>, k2: Seq<u8>)
    ensures
        (ref_anchor(k1) == ref_anchor(k2)) == (k1 == k2),
{
    reveal_strlit("ref-");
    if ref_anchor(k1) == ref_anchor(k2) {
        assert(ref_anchor(k1).skip(4) =~= k1);
        assert(ref_anchor(k2).skip(4) =~= k2);
    }
}

/// The anchored key label of the `num`-th reference entry.
pub open spec fn ref_span(key: Seq<u8>, num: int) -> Seq<u8> {
    str_bytes("<span id=\""@) + ref_anchor(key) + str_bytes("\">["@) + dec_digits(num) + str_bytes(
        "]</span>"@,
    )
}

/// The events of one reference entry: its anchored `[n]` label and its
/// rendered body, with a blank line between entries.
pub open spec fn bib_item_events(item: BibItemView, num: int, last: bool) -> Seq<OutEvView> {
    seq![
        OutEvView::DivStart(str_bytes("reference-key"@)),
        OutEvView::RawBlockStart(str_bytes("html"@)),
        OutEvView::Str(ref_span(item.key, num)),
        OutEvView::RawBlockEnd(str_bytes("html"@)),
        OutEvView::DivEnd(str_bytes("reference-key"@)),
        OutEvView::RawBlockStart(str_bytes("html"@)),
        OutEvView::Str(str_bytes("<cite class=\"reference-body\">"@)),
        OutEvView::RawBlockEnd(str_bytes("html"@)),
        OutEvView::RawBlockStart(str_bytes("html"@)),
        OutEvView::Str(item.html),
        OutEvView::RawBlockEnd(str_bytes("html"@)),
        OutEvView::RawBlockStart(str_bytes("html"@)),
        OutEvView::Str(str_bytes("</cite>"@)),
        OutEvView::RawBlockEnd(str_bytes("html"@)),
    ] + (if last {
        Seq::<OutEvView>::empty()
    } else {
        seq![OutEvView::Blankline]
    })
}

/// The events of all reference entries from the `i`-th on, numbered from
/// `i + 1`.
pub open spec fn bib_entries(items: Seq<BibItemView>, i: int) -> Seq<OutEvView>
    decreases items.len() - i,
{
    if i < 0 || i >= items.len() {
        Seq::empty()
    } else {
        bib_item_events(items[i], i + 1, i == items.len() - 1) + bib_entries(items, i + 1)
    }
}

/// The reference section appended at the document's end: a labeled section
/// with a heading and the grid of all entries.
pub open spec fn bib_section(items: Seq<BibItemView>) -> Seq<OutEvView> {
    seq![
        OutEvView::SectionStart(str_bytes("reference"@)),
        OutEvView::HeadingStart(2u16, str_bytes("reference"@)),
        OutEvView::Str(str_bytes("Reference"@)),
        OutEvView::HeadingEnd(2u16, str_bytes("reference"@)),
        OutEvView::DivStart(str_bytes("reference-grid"@)),
    ] + bib_entries(items, 0) + seq![
        OutEvView::DivEnd(str_bytes("reference-grid"@)),
        OutEvView::SectionEnd(str_bytes("reference"@)),
    ]
}

/// Build the anchored key label of the `num`-th reference entry.
fn ref_span_vec(key: &Vec<u8>, num: usize) -> (r: Vec<u8>)
    ensures
        r@ == ref_span(key@, num as int),
{
    proof {
        reveal_strlit("<span id=\"");
        reveal_strlit("ref-");
        reveal_strlit("\">[");
        reveal_strlit("]</span>");
    }
    let mut r = lit_bytes("<span id=\"");
    let pre = lit_bytes("ref-");
    extend_bytes(&mut r, &pre);
    extend_bytes(&mut r, key);
    let mid = lit_bytes("\">[");
    extend_bytes(&mut r, &mid);
    let digits = fmt_usize(num);
    extend_bytes(&mut r, &digits);
    let tail = lit_bytes("]</span>");
    extend_bytes(&mut r, &tail);
    proof {
        assert(r@ =~= ref_span(key@, num as int));
    }
    r
}

/// Build the reference section for the rendered bibliography entries, in
/// the engine's order, each entry anchored by its key.
#[verifier::rlimit(80)]
pub fn bibliography_events(items: &Vec<BibItem>) -> (r: Vec<OutEv>)
    ensures
        out_view(r@) == bib_section(bib_items_view(items@)),
{
    let ghost iv = bib_items_view(items@);
    proof {
        reveal_strlit("reference");
        reveal_strlit("Reference");
        reveal_strlit("reference-grid");
        reveal_strlit("reference-key");
        reveal_strlit("html");
        reveal_strlit("<cite class=\"reference-body\">");
        reveal_strlit("</cite>");
    }
    let mut out: Vec<OutEv> = Vec::new();
    out.push(OutEv::SectionStart(lit_bytes("reference")));
    out.push(OutEv::HeadingStart(2, lit_bytes("reference")));
    out.push(OutEv::Str(lit_bytes("Reference")));
    out.push(OutEv::HeadingEnd(2, lit_bytes("reference")));
    out.push(OutEv::DivStart(lit_bytes("reference-grid")));
    let ghost header = out_view(out@);
    proof {
        assert(header =~= bib_section(iv).take(5));
    }
    let n = items.len();
    let mut i: usize = 0;
    while i < n
        invariant
            i <= n,
            n == iv.len(),
            iv == bib_items_view(items@),
            out_view(out@) + bib_entries(iv, i as int) == header + bib_entries(iv, 0),
            header == bib_section(iv).take(5),
        decreases n - i,
    {
        proof {
            reveal_strlit("reference-key");
            reveal_strlit("html");
            reveal_strlit("<cite class=\"reference-body\">");
            reveal_strlit("</cite>");
            assert(iv[i as int] == items@[i as int]@);
        }
        let ghost prev = out_view(out@);
        let span = ref_span_vec(&items[i].key, i + 1);
        let body = clone_bytes(&items[i].html);
        out.push(OutEv::DivStart(lit_bytes("reference-key")));
        out.push(OutEv::RawBlockStart(lit_bytes("html")));
        out.push(OutEv::Str(span));
        out.push(OutEv::RawBlockEnd(lit_bytes("html")));
        out.push(OutEv::DivEnd(lit_bytes("reference-key")));
        out.push(OutEv::RawBlockStart(lit_bytes("html")));
        out.push(OutEv::Str(lit_bytes("<cite class=\"reference-body\">")));
        out.push(OutEv::RawBlockEnd(lit_bytes("html")));
        out.push(OutEv::RawBlockStart(lit_bytes("html")));
        out.push(OutEv::Str(body));
        out.push(OutEv::RawBlockEnd(lit_bytes("html")));
        out.push(OutEv::RawBlockStart(lit_bytes("html")));
        out.push(OutEv::Str(lit_bytes("</cite>")));
        out.push(OutEv::RawBlockEnd(lit_bytes("html")));
        if i + 1 < n {
            out.push(OutEv::Blankline);
        }
        proof {
            assert(out_view(out@) =~= prev + bib_item_events(iv[i as int], i + 1, i + 1 == n));
            assert(prev + bib_item_events(iv[i as int], i + 1, i + 1 == n) + bib_entries(
                iv,
                i + 1,
            ) =~= prev + bib_entries(iv, i as int));
        }
        i = i + 1;
    }
    proof {
        assert(bib_entries(iv, n as int) =~= Seq::<OutEvView>::empty());
        assert(out_view(out@) =~= header + bib_entries(iv, 0));
    }
    let ghost mid = out_view(out@);
    out.push(OutEv::DivEnd(lit_bytes("reference-grid")));
    out.push(OutEv::SectionEnd(lit_bytes("reference")));
    proof {
        let tail = seq![
            OutEvView::DivEnd(str_bytes("reference-grid"@)),
            OutEvView::SectionEnd(str_bytes("reference"@)),
        ];
        assert(out_view(out@) =~= mid + tail);
        assert(bib_section(iv).take(5) + bib_entries(iv, 0) + tail =~= bib_section(iv));
        assert(header + bib_entries(iv, 0) + tail =~= mid + tail);
    }
    out
}

} // verus!
