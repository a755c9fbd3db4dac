use vstd::prelude::*;

use crate::bytes::extend_bytes;

verus! {

/// What the renderer reads of one parsed markup event.
///
/// Events the pipeline never inspects are `Other`; they pass through by
/// position.
#[derive(Debug)]
pub enum EvKind {
    /// A text fragment.
    Str(Vec<u8>),
    /// Start of a raw block with a format tag.
    RawBlockStart(Vec<u8>),
    /// End of a raw block.
    RawBlockEnd(Vec<u8>),
    /// Start of a raw inline span with a format tag.
    RawInlineStart(Vec<u8>),
    /// End of a raw inline span.
    RawInlineEnd(Vec<u8>),
    /// Start of a heading of the given level.
    HeadingStart(u16),
    /// End of a heading of the given level.
    HeadingEnd(u16),
    /// Any other event.
    Other,
}

/// Mathematical model of an input event.
#[verifier::ext_equal]
pub enum EvView {
    Str(Seq<u8>),
    RawBlockStart(Seq<u8>),
    RawBlockEnd(Seq<u8>),
    RawInlineStart(Seq<u8>),
    RawInlineEnd(Seq<u8>),
    HeadingStart(u16),
    HeadingEnd(u16),
    Other,
}

impl View for EvKind {
    type V = EvView;

    open spec fn view(&self) -> EvView {
        match self {
            EvKind::Str(s) => EvView::Str(s@),
            EvKind::RawBlockStart(f) => EvView::RawBlockStart(f@),
            EvKind::RawBlockEnd(f) => EvView::RawBlockEnd(f@),
            EvKind::RawInlineStart(f) => EvView::RawInlineStart(f@),
            EvKind::RawInlineEnd(f) => EvView::RawInlineEnd(f@),
            EvKind::HeadingStart(l) => EvView::HeadingStart(*l),
            EvKind::HeadingEnd(l) => EvView::HeadingEnd(*l),
            EvKind::Other => EvView::Other,
        }
    }
}

/// The models of a vector of input events.
pub open spec fn evs_view(v: Seq<EvKind>) -> Seq<EvView> {
    Seq::new(v.len(), |i: int| v[i]@)
}

/// One event of the transformed stream.
///
/// `Orig(i)` stands for the `i`-th input event, unchanged; the other
/// variants are events the pipeline itself inserts.
#[derive(Debug)]
pub enum OutEv {
    /// The input event at this index, unchanged.
    Orig(usize),
    /// An inserted text fragment.
    Str(Vec<u8>),
    /// An inserted raw block start with a format tag.
    RawBlockStart(Vec<u8>),
    /// An inserted raw block end.
    RawBlockEnd(Vec<u8>),
    /// An inserted raw inline start with a format tag.
    RawInlineStart(Vec<u8>),
    /// An inserted raw inline end.
    RawInlineEnd(Vec<u8>),
    /// An inserted div start with a class.
    DivStart(Vec<u8>),
    /// An inserted div end with a class.
    DivEnd(Vec<u8>),
    /// An inserted section start with an identifier.
    SectionStart(Vec<u8>),
    /// An inserted section end with an identifier.
    SectionEnd(Vec<u8>),
    /// An inserted heading start with a level and an identifier.
    HeadingStart(u16, Vec<u8>),
    /// An inserted heading end with a level and an identifier.
    HeadingEnd(u16, Vec<u8>),
    /// An inserted blank line.
    Blankline,
}

/// Mathematical model of an output event.
#[verifier::ext_equal]
pub enum OutEvView {
    Orig(int),
    Str(Seq<u8>),
    RawBlockStart(Seq<u8>),
    RawBlockEnd(Seq<u8>),
    RawInlineStart(Seq<u8>),
    RawInlineEnd(Seq<u8>),
    DivStart(Seq<u8>),
    DivEnd(Seq<u8>),
    SectionStart(Seq<u8>),
    SectionEnd(Seq<u8>),
    HeadingStart(u16, Seq<u8>),
    HeadingEnd(u16, Seq<u8>),
    Blankline,
}

impl View for OutEv {
    type V = OutEvView;

    open spec fn view(&self) -> OutEvView {
        match self {
            OutEv::Orig(i) => OutEvView::Orig(*i as int),
            OutEv::Str(s) => OutEvView::Str(s@),
            OutEv::RawBlockStart(f) => OutEvView::RawBlockStart(f@),
            OutEv::RawBlockEnd(f) => OutEvView::RawBlockEnd(f@),
            OutEv::RawInlineStart(f) => OutEvView::RawInlineStart(f@),
            OutEv::RawInlineEnd(f) => OutEvView::RawInlineEnd(f@),
            OutEv::DivStart(c) => OutEvView::DivStart(c@),
            OutEv::DivEnd(c) => OutEvView::DivEnd(c@),
            OutEv::SectionStart(s) => OutEvView::SectionStart(s@),
            OutEv::SectionEnd(s) => OutEvView::SectionEnd(s@),
            OutEv::HeadingStart(l, id) => OutEvView::HeadingStart(*l, id@),
            OutEv::HeadingEnd(l, id) => OutEvView::HeadingEnd(*l, id@),
            OutEv::Blankline => OutEvView::Blankline,
        }
    }
}

/// The models of a vector of output events.
pub open spec fn out_view(v: Seq<OutEv>) -> Seq<OutEvView> {
    Seq::new(v.len(), |i: int| v[i]@)
}

/// Length of the run of consecutive text fragments starting at `start`.
pub open spec fn str_run_len(evs: Seq<EvView>, start: int) -> int
    decreases evs.len() - start,
{
    if start < 0 || start >= evs.len() {
        0
    } else if evs[start] is Str {
        1 + str_run_len(evs, start + 1)
    } else {
        0
    }
}

/// Concatenation of `count` text fragments starting at `start`.
pub open spec fn concat_strs(evs: Seq<EvView>, start: int, count: int) -> Seq<u8>
    decreases count,
{
    if count <= 0 {
        Seq::empty()
    } else {
        evs[start]->Str_0 + concat_strs(evs, start + 1, count - 1)
    }
}

pub proof fn lemma_str_run_in_range(evs: Seq<EvView>, start: int)
    ensures
        0 <= str_run_len(evs, start),
        0 <= start <= evs.len() ==> start + str_run_len(evs, start) <= evs.len(),
        forall|k: int| start <= k < start + str_run_len(evs, start) ==> evs[k] is Str,
        start + str_run_len(evs, start) < evs.len() && start >= 0 ==> !(evs[start + str_run_len(
            evs,
            start,
        )] is Str),
    decreases evs.len() - start,
{
    if 0 <= start < evs.len() && evs[start] is Str {
        lemma_str_run_in_range(evs, start + 1);
    }
}

proof fn lemma_concat_strs_step(evs: Seq<EvView>, start: int, count: int)
    requires
        count >= 0,
    ensures
        concat_strs(evs, start, count + 1) == concat_strs(evs, start, count) + evs[start
            + count]->Str_0,
    decreases count,
{
    if count == 0 {
        assert(concat_strs(evs, start, 1) == evs[start]->Str_0 + concat_strs(evs, start + 1, 0));
        assert(evs[start]->Str_0 + Seq::<u8>::empty() =~= evs[start]->Str_0);
        assert(Seq::<u8>::empty() + evs[start]->Str_0 =~= evs[start]->Str_0);
    } else {
        lemma_concat_strs_step(evs, start + 1, count - 1);
        assert(evs[start]->Str_0 + (concat_strs(evs, start + 1, count - 1) + evs[start
            + count]->Str_0) =~= (evs[start]->Str_0 + concat_strs(evs, start + 1, count - 1))
            + evs[start + count]->Str_0);
    }
}

/// Collect the consecutive text fragments starting at `start` into one
/// buffer, and say how many there were.
pub fn collect_strings(events: &Vec<EvKind>, start: usize) -> (r: (Vec<u8>, usize))
    requires
        start <= events@.len(),
    ensures
        r.1 == str_run_len(evs_view(events@), start as int),
        r.0@ == concat_strs(evs_view(events@), start as int, r.1 as int),
{
    let ghost evs = evs_view(events@);
    proof {
        lemma_str_run_in_range(evs, start as int);
    }
    let n = events.len();
    let mut acc: Vec<u8> = Vec::new();
    let mut i: usize = start;
    while i < n && matches!(&events[i], EvKind::Str(_))
        invariant
            start <= i <= n,
            n == evs.len(),
            evs == evs_view(events@),
            forall|k: int| start <= k < i ==> evs[k] is Str,
            str_run_len(evs, start as int) == (i - start) + str_run_len(evs, i as int),
            acc@ == concat_strs(evs, start as int, i - start),
        decreases n - i,
    {
        proof {
            assert(evs[i as int] == events@[i as int]@);
        }
        match &events[i] {
            EvKind::Str(s) => {
                proof {
                    assert(evs[i as int]->Str_0 == s@);
                    lemma_concat_strs_step(evs, start as int, i - start);
                }
                extend_bytes(&mut acc, s);
            },
            _ => {
                proof {
                    assert(false);
                }
            },
        }
        i = i + 1;
    }
    proof {
        if i < n {
            assert(evs[i as int] == events@[i as int]@);
            assert(!(evs[i as int] is Str));
        }
        assert(str_run_len(evs, i as int) == 0);
    }
    (acc, i - start)
}

} // verus!
