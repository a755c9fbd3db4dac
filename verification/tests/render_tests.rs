use sitegen::events::EvKind;
use sitegen::media::ContentFile;
use sitegen::render::{extract_frontmatter, find_title};
use sitegen::slug::ContentSlug;
use sitegen::store::Metadata;
use sitegen::BuildError;

fn fresh_md() -> Metadata {
    let s = ContentSlug::from_path(&b"a/x.dj".to_vec()).expect("valid path");
    let file = ContentFile::from_extension(&s.extension);
    Metadata::new(true, s, &file)
}

fn strv(s: &str) -> Vec<u8> {
    s.as_bytes().to_vec()
}

#[test]
fn frontmatter_round_trip() {
    let events = vec![
        EvKind::RawBlockStart(strv("json")),
        EvKind::Str(strv("{\"bibliography\": \"refs.bib\"}")),
        EvKind::RawBlockEnd(strv("json")),
        EvKind::Other,
    ];
    let mut md = fresh_md();
    let skip = extract_frontmatter(&events, &mut md).expect("well-formed frontmatter");
    assert_eq!(skip, 3);
    assert_eq!(md.bibliography_file, Some(strv("refs.bib")));
    assert_eq!(md.frontmatter, Some(strv("{\"bibliography\": \"refs.bib\"}")));
}

#[test]
fn frontmatter_split_across_fragments() {
    let events = vec![
        EvKind::RawBlockStart(strv("json")),
        EvKind::Str(strv("{\"bibliography\":")),
        EvKind::Str(strv(" \"b.bib\"}")),
        EvKind::RawBlockEnd(strv("json")),
    ];
    let mut md = fresh_md();
    let skip = extract_frontmatter(&events, &mut md).expect("well-formed frontmatter");
    assert_eq!(skip, 4);
    assert_eq!(md.bibliography_file, Some(strv("b.bib")));
}

#[test]
fn frontmatter_without_bibliography_field() {
    let events = vec![
        EvKind::RawBlockStart(strv("json")),
        EvKind::Str(strv("{\"author\": \"someone\"}")),
        EvKind::RawBlockEnd(strv("json")),
    ];
    let mut md = fresh_md();
    let skip = extract_frontmatter(&events, &mut md).expect("well-formed frontmatter");
    assert_eq!(skip, 3);
    assert_eq!(md.bibliography_file, None);
    assert_eq!(md.frontmatter, Some(strv("{\"author\": \"someone\"}")));
}

#[test]
fn frontmatter_without_bibliography_field_preserves_a_prior_reference() {
    let events = vec![
        EvKind::RawBlockStart(strv("json")),
        EvKind::Str(strv("{\"author\": \"someone\"}")),
        EvKind::RawBlockEnd(strv("json")),
    ];
    let mut md = fresh_md();
    md.bibliography_file = Some(strv("kept.bib"));
    extract_frontmatter(&events, &mut md).expect("well-formed frontmatter");
    assert_eq!(md.bibliography_file, Some(strv("kept.bib")));
}

#[test]
fn missing_frontmatter_is_no_error() {
    let events = vec![EvKind::Other, EvKind::Str(strv("hello"))];
    let mut md = fresh_md();
    let skip = extract_frontmatter(&events, &mut md).expect("no frontmatter is fine");
    assert_eq!(skip, 0);
    assert_eq!(md.frontmatter, None);
}

#[test]
fn non_json_raw_block_is_skipped() {
    let events = vec![
        EvKind::RawBlockStart(strv("html")),
        EvKind::Str(strv("<b>not frontmatter</b>")),
        EvKind::RawBlockEnd(strv("html")),
    ];
    let mut md = fresh_md();
    let skip = extract_frontmatter(&events, &mut md).expect("not a frontmatter block");
    assert_eq!(skip, 0);
    assert_eq!(md.frontmatter, None);
}

#[test]
fn malformed_frontmatter_fails_the_file() {
    let events = vec![
        EvKind::RawBlockStart(strv("json")),
        EvKind::Str(strv("{not json")),
        EvKind::RawBlockEnd(strv("json")),
    ];
    let mut md = fresh_md();
    let r = extract_frontmatter(&events, &mut md);
    assert!(matches!(r, Err(BuildError::MalformedFrontmatter)));
    assert_eq!(md.frontmatter, None);
}

#[test]
fn title_is_extracted_and_left_in_place() {
    let events = vec![
        EvKind::Other,
        EvKind::HeadingStart(1),
        EvKind::Str(strv("Hello ")),
        EvKind::Str(strv("World")),
        EvKind::HeadingEnd(1),
        EvKind::Other,
    ];
    let mut md = fresh_md();
    find_title(&events, &mut md).expect("one title");
    assert_eq!(md.title, Some(strv("Hello World")));
}

#[test]
fn missing_title_is_no_error() {
    let events = vec![EvKind::Other, EvKind::HeadingStart(2), EvKind::HeadingEnd(2)];
    let mut md = fresh_md();
    find_title(&events, &mut md).expect("no title is fine");
    assert_eq!(md.title, None);
}

#[test]
fn two_top_level_headings_fail_the_file() {
    let events = vec![
        EvKind::HeadingStart(1),
        EvKind::Str(strv("One")),
        EvKind::HeadingEnd(1),
        EvKind::HeadingStart(1),
        EvKind::Str(strv("Two")),
        EvKind::HeadingEnd(1),
    ];
    let mut md = fresh_md();
    let r = find_title(&events, &mut md);
    assert!(matches!(r, Err(BuildError::MultipleTitles)));
    assert_eq!(md.title, None);
}
