use sitegen::site::classify;
use sitegen::slug::ContentSlug;
use sitegen::BuildError;

fn paths(ps: &[&str]) -> Vec<Vec<u8>> {
    ps.iter().map(|p| p.as_bytes().to_vec()).collect()
}

fn slug(path: &str) -> ContentSlug {
    ContentSlug::from_path(&path.as_bytes().to_vec()).expect("valid path")
}

#[test]
fn content_page_named_page_is_rejected() {
    let r = classify(&paths(&["content/page.md"]), false);
    assert!(matches!(r, Err(BuildError::ReservedPageName)));
}

#[test]
fn nested_content_page_named_page_is_rejected() {
    let r = classify(&paths(&["content/a/b/page.dj"]), false);
    assert!(matches!(r, Err(BuildError::ReservedPageName)));
    let r2 = classify(&paths(&["content/ok.dj", "content/deep/page.html"]), false);
    assert!(matches!(r2, Err(BuildError::ReservedPageName)));
}

#[test]
fn template_without_html_extension_is_rejected() {
    let r = classify(&paths(&["templates/page.md"]), false);
    assert!(matches!(r, Err(BuildError::TemplateNotHtml)));
    let r2 = classify(&paths(&["templates/bare"]), false);
    assert!(matches!(r2, Err(BuildError::TemplateNotHtml)));
}

#[test]
fn colliding_content_paths_are_rejected() {
    let r = classify(&paths(&["content/a/x.dj", "content/a/x.dj"]), false);
    assert!(matches!(r, Err(BuildError::DuplicateSlug)));
}

#[test]
fn content_without_file_name_is_rejected() {
    let r = classify(&paths(&["content"]), false);
    assert!(matches!(r, Err(BuildError::NoFileName)));
}

#[test]
fn a_small_site_classifies() {
    let r = classify(
        &paths(&[
            "content/a/index.dj",
            "content/a/post.dj",
            "content/style.css",
            "templates/page.html",
            "templates/a/page.html",
            "static/logo.png",
        ]),
        true,
    );
    let site = r.expect("classifies");
    assert_eq!(site.store.len(), 3);
    let idx = site.store.get(&slug("a/index.dj")).expect("index present");
    assert!(idx.is_article);
    assert!(idx.debug);
    assert_eq!(idx.url_path, b"/a/index.html".to_vec());
    let css = site.store.get(&slug("style.css")).expect("asset present");
    assert!(!css.is_article);
    assert_eq!(css.url_path, b"/style.css".to_vec());
    // Static files are no content.
    assert!(site.store.get(&slug("logo.png")).is_none());
    // Template resolution sees both templates.
    let found = site
        .templates
        .find_template(&slug("a/post.dj"), &sitegen::media::MediaType::Html);
    assert_eq!(found, Some(b"a/page.html".to_vec()));
}

#[test]
fn release_flag_turns_debug_off() {
    let site = classify(&paths(&["content/x.dj"]), false).expect("classifies");
    let x = site.store.get(&slug("x.dj")).expect("present");
    assert!(!x.debug);
}
