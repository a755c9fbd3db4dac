use vstd::prelude::*;

use crate::bytes::{bytes_eq, lit_bytes, str_bytes};
use crate::events::{
    collect_strings, concat_strs, evs_view, lemma_str_run_in_range, str_run_len, EvKind, EvView,
};
use crate::outside::{frontmatter_of, parse_frontmatter_json};
use crate::store::{Metadata, MetadataView};
use crate::BuildError;

verus! {

/// Whether the document opens with a fenced raw block of structured data: a
/// `json` raw block, its text, and its closing event.
pub open spec fn has_frontmatter_block(evs: Seq<EvView>) -> bool {
    &&& evs.len() > 0
    &&& evs[0] == EvView::RawBlockStart(str_bytes("json"@))
    &&& 1 + str_run_len(evs, 1) < evs.len()
    &&& evs[1 + str_run_len(evs, 1)] == EvView::RawBlockEnd(str_bytes("json"@))
}

/// The text of the leading frontmatter block.
pub open spec fn frontmatter_text(evs: Seq<EvView>) -> Seq<u8> {
    concat_strs(evs, 1, str_run_len(evs, 1))
}

/// How many leading events the frontmatter block occupies.
pub open spec fn frontmatter_len(evs: Seq<EvView>) -> int {
    2 + str_run_len(evs, 1)
}

/// Extract the frontmatter: if and only if the document opens with a `json`
/// raw block, its text is parsed, stored, and the block is dropped from the
/// output; a malformed block fails the file. A `bibliography` string field
/// is copied into the dedicated metadata field; without one that field is
/// left alone. Returns how many leading events the rest of the pipeline
/// must skip.
pub fn extract_frontmatter(events: &Vec<EvKind>, md: &mut Metadata) -> (r: Result<
    usize,
    BuildError,
>)
    ensures
        !has_frontmatter_block(evs_view(events@)) ==> r is Ok && r->Ok_0 == 0 && final(md)@ == old(
            md,
        )@,
        has_frontmatter_block(evs_view(events@)) && frontmatter_of(
            frontmatter_text(evs_view(events@)),
        ) is None ==> r is Err && r->Err_0 == BuildError::MalformedFrontmatter && final(md)@ == old(
            md,
        )@,
        has_frontmatter_block(evs_view(events@)) && frontmatter_of(
            frontmatter_text(evs_view(events@)),
        ) is Some ==> r is Ok && r->Ok_0 == frontmatter_len(evs_view(events@)) && final(md)@
            == (MetadataView {
            frontmatter: Option::Some(frontmatter_text(evs_view(events@))),
            bibliography_file: if frontmatter_of(frontmatter_text(evs_view(events@)))->0 is Some {
                frontmatter_of(frontmatter_text(evs_view(events@)))->0
            } else {
                old(md)@.bibliography_file
            },
            ..old(md)@
        }),
{
    broadcast use crate::bytes::lemma_bytes_deep_view;

    let ghost evs = evs_view(events@);
    let n = events.len();
    proof {
        reveal_strlit("json");
    }
    let json_lit = lit_bytes("json");
    let is_start = n > 0 && match &events[0] {
        EvKind::RawBlockStart(f) => bytes_eq(f, &json_lit),
        _ => false,
    };
    proof {
        if n > 0 {
            assert(evs[0] == events@[0]@);
        }
    }
    if !is_start {
        return Result::Ok(0);
    }
    let (text, k) = collect_strings(events, 1);
    proof {
        lemma_str_run_in_range(evs, 1);
    }
    if 1 + k >= n {
        return Result::Ok(0);
    }
    let is_end = match &events[1 + k] {
        EvKind::RawBlockEnd(f) => bytes_eq(f, &json_lit),
        _ => false,
    };
    proof {
        assert(evs[1 + k as int] == events@[1 + k as int]@);
    }
    if !is_end {
        return Result::Ok(0);
    }
    match parse_frontmatter_json(&text) {
        Option::None => Result::Err(BuildError::MalformedFrontmatter),
        Option::Some(bib) => {
            md.frontmatter = Option::Some(text);
            match bib {
                Option::Some(b) => {
                    md.bibliography_file = Option::Some(b);
                },
                Option::None => {},
            }
            proof {
                assert(md@ =~= (MetadataView {
                    frontmatter: Option::Some(frontmatter_text(evs)),
                    bibliography_file: if frontmatter_of(frontmatter_text(evs))->0 is Some {
                        frontmatter_of(frontmatter_text(evs))->0
                    } else {
                        old(md)@.bibliography_file
                    },
                    ..old(md)@
                }));
            }
            Result::Ok(1 + k + 1)
        },
    }
}

/// Number of top-level heading starts in the first `upto` events.
pub open spec fn h1_count(evs: Seq<EvView>, upto: int) -> int
    decreases upto,
{
    if upto <= 0 {
        0
    } else {
        h1_count(evs, upto - 1) + (if evs[upto - 1] == EvView::HeadingStart(1u16) {
            1int
        } else {
            0int
        })
    }
}

/// The index of the top-level heading, where there is exactly one.
pub open spec fn h1_index(evs: Seq<EvView>) -> int {
    choose|o: int| 0 <= o < evs.len() && evs[o] == EvView::HeadingStart(1u16)
}

/// Whether the top-level heading closes right after its text.
pub open spec fn title_ended(evs: Seq<EvView>) -> bool {
    let o = h1_index(evs);
    let k = str_run_len(evs, o + 1);
    o + 1 + k < evs.len() && evs[o + 1 + k] == EvView::HeadingEnd(1u16)
}

/// The flattened text of the top-level heading.
pub open spec fn title_text(evs: Seq<EvView>) -> Seq<u8> {
    concat_strs(evs, h1_index(evs) + 1, str_run_len(evs, h1_index(evs) + 1))
}

proof fn lemma_h1_count_nonneg(evs: Seq<EvView>, upto: int)
    ensures
        h1_count(evs, upto) >= 0,
    decreases upto,
{
    if upto > 0 {
        lemma_h1_count_nonneg(evs, upto - 1);
    }
}

proof fn lemma_h1_count_at_least(evs: Seq<EvView>, o: int, upto: int)
    requires
        0 <= o < upto,
        evs[o] == EvView::HeadingStart(1u16),
    ensures
        h1_count(evs, upto) >= 1 + h1_count(evs, o),
    decreases upto,
{
    if upto - 1 > o {
        lemma_h1_count_at_least(evs, o, upto - 1);
    }
}

/// Find the page title: the text of the document's only top-level heading,
/// left in place. No heading is fine; two top-level headings are ambiguous
/// and fail the file.
pub fn find_title(events: &Vec<EvKind>, md: &mut Metadata) -> (r: Result<(), BuildError>)
    ensures
        r is Err <==> h1_count(evs_view(events@), events@.len() as int) >= 2,
        r is Err ==> r->Err_0 == BuildError::MultipleTitles && final(md)@ == old(md)@,
        h1_count(evs_view(events@), events@.len() as int) == 0 ==> final(md)@ == old(md)@,
        h1_count(evs_view(events@), events@.len() as int) == 1 && !title_ended(evs_view(events@))
            ==> final(md)@ == old(md)@,
        h1_count(evs_view(events@), events@.len() as int) == 1 && title_ended(evs_view(events@))
            ==> final(md)@ == (MetadataView {
            title: Option::Some(title_text(evs_view(events@))),
            ..old(md)@
        }),
{
    let ghost evs = evs_view(events@);
    let n = events.len();
    let mut found: Option<usize> = Option::None;
    let mut i: usize = 0;
    while i < n
        invariant
            i <= n,
            n == evs.len(),
            evs == evs_view(events@),
            md@ == old(md)@,
            match found {
                Option::None => h1_count(evs, i as int) == 0,
                Option::Some(fo) => h1_count(evs, i as int) == 1 && fo < i && evs[fo as int]
                    == EvView::HeadingStart(1u16),
            },
        decreases n - i,
    {
        let is_h1 = match &events[i] {
            EvKind::HeadingStart(level) => *level == 1,
            _ => false,
        };
        proof {
            assert(evs[i as int] == events@[i as int]@);
        }
        if is_h1 {
            match found {
                Option::None => {
                    found = Option::Some(i);
                },
                Option::Some(fo) => {
                    proof {
                        lemma_h1_count_at_least(evs, i as int, n as int);
                        lemma_h1_count_at_least(evs, fo as int, i as int);
                        lemma_h1_count_nonneg(evs, fo as int);
                    }
                    return Result::Err(BuildError::MultipleTitles);
                },
            }
        }
        i = i + 1;
    }
    let fo = match found {
        Option::None => {
            return Result::Ok(());
        },
        Option::Some(fo) => fo,
    };
    proof {
        let o = h1_index(evs);
        assert(0 <= o < evs.len() && evs[o] == EvView::HeadingStart(1u16));
        if o != fo {
            if o < fo {
                lemma_h1_count_at_least(evs, o as int, fo as int);
                lemma_h1_count_at_least(evs, fo as int, n as int);
                lemma_h1_count_nonneg(evs, o);
            } else {
                lemma_h1_count_at_least(evs, fo as int, o as int);
                lemma_h1_count_at_least(evs, o, n as int);
                lemma_h1_count_nonneg(evs, fo as int);
            }
        }
        assert(h1_index(evs) == fo as int);
        lemma_str_run_in_range(evs, fo + 1);
    }
    let (title, k) = collect_strings(events, fo + 1);
    if fo + 1 + k >= n {
        return Result::Ok(());
    }
    let is_end = match &events[fo + 1 + k] {
        EvKind::HeadingEnd(level) => *level == 1,
        _ => false,
    };
    proof {
        assert(evs[fo + 1 + k as int] == events@[fo + 1 + k as int]@);
    }
    if !is_end {
        return Result::Ok(());
    }
    md.title = Option::Some(title);
    proof {
        assert(md@ =~= (MetadataView {
            title: Option::Some(title_text(evs)),
            ..old(md)@
        }));
    }
    Result::Ok(())
}

} // verus!
