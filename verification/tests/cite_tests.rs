use sitegen::bib::{bibliography_events, BibItem};
use sitegen::cite::{library_keys, markers_chained, scan_citations, splice_citations};
use sitegen::events::{EvKind, OutEv};
use sitegen::BuildError;

fn strv(s: &str) -> Vec<u8> {
    s.as_bytes().to_vec()
}

const LIB: &str = "@article{a, title={Alpha}, author={Author, Anna}, year={2001}, journal={J}}\n@book{c, title={Gamma}, author={Author, Carl}, year={2003}, publisher={P}}\n";

#[test]
fn library_keys_come_in_library_order() {
    let keys = library_keys(&strv(LIB)).expect("well-formed library");
    assert_eq!(keys, vec![strv("a"), strv("c")]);
}

#[test]
fn malformed_library_fails_the_file() {
    let r = library_keys(&strv("@article{broken"));
    assert!(matches!(r, Err(BuildError::MalformedLibrary)));
}

fn marker_events() -> Vec<EvKind> {
    vec![
        EvKind::Other,
        EvKind::RawInlineStart(strv("cite")),
        EvKind::Str(strv("a; b")),
        EvKind::RawInlineEnd(strv("cite")),
        EvKind::Other,
        EvKind::RawInlineStart(strv("cite")),
        EvKind::Str(strv("c")),
        EvKind::RawInlineEnd(strv("cite")),
    ]
}

#[test]
fn markers_are_found_in_document_order_with_known_keys_only() {
    let keys = library_keys(&strv(LIB)).expect("well-formed library");
    let markers = scan_citations(&marker_events(), &keys).expect("all markers closed");
    assert_eq!(markers.len(), 2);
    assert_eq!(markers[0].start, 1);
    assert_eq!(markers[0].end, 4);
    assert_eq!(markers[0].keys, vec![strv("a")]);
    assert_eq!(markers[1].start, 5);
    assert_eq!(markers[1].end, 8);
    assert_eq!(markers[1].keys, vec![strv("c")]);
}

#[test]
fn keys_are_trimmed_before_lookup() {
    let keys = vec![strv("a"), strv("c")];
    let events = vec![
        EvKind::RawInlineStart(strv("cite")),
        EvKind::Str(strv("  a ;\t\x0b\x0cc\r\n")),
        EvKind::RawInlineEnd(strv("cite")),
    ];
    let markers = scan_citations(&events, &keys).expect("closed");
    assert_eq!(markers[0].keys, vec![strv("a"), strv("c")]);
}

#[test]
fn unclosed_marker_makes_the_step_a_no_op() {
    let keys = vec![strv("a")];
    let events = vec![
        EvKind::RawInlineStart(strv("cite")),
        EvKind::Str(strv("a")),
        EvKind::Other,
    ];
    assert!(scan_citations(&events, &keys).is_none());
}

#[test]
fn splicing_replaces_each_marker_with_its_fragment_in_order() {
    let keys = library_keys(&strv(LIB)).expect("well-formed library");
    let events = marker_events();
    let markers = scan_citations(&events, &keys).expect("closed");
    let frags = vec![strv("[1]"), strv("[2]")];
    assert!(markers_chained(&markers, 0, events.len()));
    let out = splice_citations(&markers, &frags, 0, events.len());
    let expect = [
        "Orig0", "Start", "[1]", "End", "Orig4", "Start", "[2]", "End",
    ];
    assert_eq!(out.len(), expect.len());
    for (ev, want) in out.iter().zip(expect.iter()) {
        match (ev, *want) {
            (OutEv::Orig(0), "Orig0") => {},
            (OutEv::Orig(4), "Orig4") => {},
            (OutEv::RawInlineStart(f), "Start") => assert_eq!(f, &strv("html")),
            (OutEv::RawInlineEnd(f), "End") => assert_eq!(f, &strv("html")),
            (OutEv::Str(s), w) => assert_eq!(s, &strv(w)),
            other => panic!("unexpected event {:?}", other),
        }
    }
}

#[test]
fn splicing_with_offset_skips_the_frontmatter() {
    let events = vec![
        EvKind::RawBlockStart(strv("json")),
        EvKind::Str(strv("{}")),
        EvKind::RawBlockEnd(strv("json")),
        EvKind::Other,
        EvKind::Other,
    ];
    let markers = scan_citations(&events, &Vec::new()).expect("no markers");
    assert!(markers.is_empty());
    assert!(markers_chained(&markers, 3, events.len()));
    let out = splice_citations(&markers, &Vec::new(), 3, events.len());
    assert_eq!(out.len(), 2);
    assert!(matches!(out[0], OutEv::Orig(3)));
    assert!(matches!(out[1], OutEv::Orig(4)));
}

#[test]
fn bibliography_entries_are_anchored_by_key() {
    let items = vec![
        BibItem { key: strv("a"), html: strv("<i>Alpha</i>") },
        BibItem { key: strv("c"), html: strv("Gamma") },
    ];
    let out = bibliography_events(&items);
    let strs: Vec<Vec<u8>> = out
        .iter()
        .filter_map(|e| match e {
            OutEv::Str(s) => Some(s.clone()),
            _ => None,
        })
        .collect();
    assert!(strs.contains(&strv("<span id=\"ref-a\">[1]</span>")));
    assert!(strs.contains(&strv("<span id=\"ref-c\">[2]</span>")));
    assert!(strs.contains(&strv("<i>Alpha</i>")));
    // One blank line between the two entries, none after the last.
    let blanks = out.iter().filter(|e| matches!(e, OutEv::Blankline)).count();
    assert_eq!(blanks, 1);
    // The section wrapper is labeled.
    assert!(matches!(&out[0], OutEv::SectionStart(id) if id == &strv("reference")));
    assert!(matches!(out.last(), Some(OutEv::SectionEnd(id)) if id == &strv("reference")));
}
