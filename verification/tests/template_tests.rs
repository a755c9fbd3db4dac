use sitegen::media::{MediaType, Transform};
use sitegen::slug::ContentSlug;
use sitegen::template::TemplateIndex;

fn slug(path: &str) -> ContentSlug {
    ContentSlug::from_path(&path.as_bytes().to_vec()).expect("valid path")
}

fn index_of(paths: &[&str]) -> TemplateIndex {
    let mut idx = TemplateIndex::new();
    for p in paths {
        idx.add(p.as_bytes().to_vec());
    }
    idx
}

#[test]
fn nearer_page_template_wins() {
    let idx = index_of(&["a/page.html", "page.html"]);
    let found = idx.find_template(&slug("a/b/c.md"), &MediaType::Html);
    assert_eq!(found, Some(b"a/page.html".to_vec()));
}

#[test]
fn exact_match_wins_over_page_walk() {
    let idx = index_of(&["a/b/c.html", "a/page.html", "page.html"]);
    let found = idx.find_template(&slug("a/b/c.md"), &MediaType::Html);
    assert_eq!(found, Some(b"a/b/c.html".to_vec()));
}

#[test]
fn walk_reaches_the_root() {
    let idx = index_of(&["page.html"]);
    let found = idx.find_template(&slug("a/b/c.md"), &MediaType::Html);
    assert_eq!(found, Some(b"page.html".to_vec()));
}

#[test]
fn deepest_directory_is_tried_first() {
    let idx = index_of(&["a/b/page.html", "a/page.html"]);
    let found = idx.find_template(&slug("a/b/c.md"), &MediaType::Html);
    assert_eq!(found, Some(b"a/b/page.html".to_vec()));
}

#[test]
fn no_template_resolves_to_none() {
    let idx = index_of(&["other/irrelevant.html"]);
    let found = idx.find_template(&slug("a/b/c.md"), &MediaType::Html);
    assert_eq!(found, None);
}

#[test]
fn plan_for_markup_renders_then_templates() {
    let file = sitegen::media::ContentFile::from_extension(&Some(b"dj".to_vec()));
    assert!(matches!(file.original_media, MediaType::Djot));
    assert!(matches!(file.current_media, MediaType::Html));
    assert_eq!(file.plan.len(), 2);
    assert!(matches!(file.plan[0], Transform::RenderDjot));
    assert!(matches!(file.plan[1], Transform::ApplyTemplate));
    assert!(file.is_article());
}

#[test]
fn plan_for_html_only_templates() {
    let file = sitegen::media::ContentFile::from_extension(&Some(b"html".to_vec()));
    assert_eq!(file.plan.len(), 1);
    assert!(matches!(file.plan[0], Transform::ApplyTemplate));
    assert!(!file.is_article());
}

#[test]
fn plan_for_other_media_is_empty() {
    let png = sitegen::media::ContentFile::from_extension(&Some(b"png".to_vec()));
    assert!(png.plan.is_empty());
    let none = sitegen::media::ContentFile::from_extension(&None);
    assert!(none.plan.is_empty());
}

#[test]
fn media_extension_roundtrip() {
    let file = sitegen::media::ContentFile::from_extension(&Some(b"dj".to_vec()));
    assert_eq!(file.original_media.extension(), b"dj".to_vec());
    assert_eq!(file.current_media.extension(), b"html".to_vec());
    let other = sitegen::media::ContentFile::from_extension(&Some(b"css".to_vec()));
    assert_eq!(other.current_media.extension(), b"css".to_vec());
}
