use sitegen::bytes::Cmp;
use sitegen::media::ContentFile;
use sitegen::slug::ContentSlug;
use sitegen::store::{Metadata, MetadataStore};
use sitegen::BuildError;

fn slug(path: &str) -> ContentSlug {
    ContentSlug::from_path(&path.as_bytes().to_vec()).expect("valid path")
}

fn md(path: &str) -> Metadata {
    let s = slug(path);
    let file = ContentFile::from_extension(&s.extension);
    Metadata::new(true, s, &file)
}

#[test]
fn insert_and_get() {
    let mut store = MetadataStore::new();
    store.insert(md("a/x.dj")).expect("first insert");
    store.insert(md("a/index.dj")).expect("second insert");
    let got = store.get(&slug("a/x.dj")).expect("present");
    assert_eq!(got.url_path, b"/a/x.html".to_vec());
    assert!(got.is_article);
    assert!(store.get(&slug("a/y.dj")).is_none());
}

#[test]
fn duplicate_insert_is_refused() {
    let mut store = MetadataStore::new();
    store.insert(md("a/x.dj")).expect("first insert");
    let r = store.insert(md("a/x.dj"));
    assert!(matches!(r, Err(BuildError::DuplicateSlug)));
}

#[test]
fn update_replaces_the_record() {
    let mut store = MetadataStore::new();
    store.insert(md("a/x.dj")).expect("insert");
    let mut got = store.get(&slug("a/x.dj")).expect("present");
    got.title = Some(b"Hello".to_vec());
    assert!(store.update(got));
    let again = store.get(&slug("a/x.dj")).expect("present");
    assert_eq!(again.title, Some(b"Hello".to_vec()));
    assert!(!store.update(md("a/other.dj")));
}

#[test]
fn store_keeps_ascending_slug_order() {
    let mut store = MetadataStore::new();
    store.insert(md("a/index.dj")).expect("insert");
    store.insert(md("a/z.dj")).expect("insert");
    store.insert(md("a/b/nested.dj")).expect("insert");
    store.insert(md("a/m.dj")).expect("insert");
    let mut slugs = Vec::new();
    for i in 0..store.len() {
        slugs.push(store.at(i).slug);
    }
    for w in 0..slugs.len() - 1 {
        assert!(matches!(slugs[w].cmp_slug(&slugs[w + 1]), Cmp::Less));
    }
    // The index entry is the last of its directory's entries.
    assert_eq!(slugs[slugs.len() - 1].to_path(), b"a/index.dj".to_vec());
}

#[test]
fn subpages_of_an_index_are_its_siblings_in_order() {
    let mut store = MetadataStore::new();
    store.insert(md("a/index.dj")).expect("insert");
    store.insert(md("a/two.dj")).expect("insert");
    store.insert(md("a/one.dj")).expect("insert");
    store.insert(md("b/other.dj")).expect("insert");
    let subs = store.subpages(&slug("a/index.dj"));
    let paths: Vec<Vec<u8>> = subs.iter().map(|m| m.slug.to_path()).collect();
    assert_eq!(paths, vec![b"a/one.dj".to_vec(), b"a/two.dj".to_vec()]);
}

#[test]
fn index_page_sees_fully_populated_subpages_when_rendered_in_order() {
    // Rendering walks the store in ascending slug order; every subpage of
    // the index sorts before it, so by the index's turn each listed record
    // already carries what its own render wrote.
    let mut store = MetadataStore::new();
    store.insert(md("a/index.dj")).expect("insert");
    store.insert(md("a/one.dj")).expect("insert");
    store.insert(md("a/two.dj")).expect("insert");
    let idx = slug("a/index.dj");
    for i in 0..store.len() {
        let mut rec = store.at(i);
        if matches!(rec.slug.cmp_slug(&idx), Cmp::Equal) {
            let subs = store.subpages(&rec.slug);
            assert_eq!(subs.len(), 2);
            for sub in &subs {
                assert!(matches!(sub.slug.cmp_slug(&idx), Cmp::Less));
                assert!(sub.title.is_some(), "subpage rendered before its index");
            }
        } else {
            rec.title = Some(b"done".to_vec());
            assert!(store.update(rec));
        }
    }
}

#[test]
fn subpages_never_list_a_sibling_index_record() {
    let mut store = MetadataStore::new();
    store.insert(md("a/index.html")).expect("insert");
    store.insert(md("a/index.dj")).expect("insert");
    store.insert(md("a/one.dj")).expect("insert");
    let subs = store.subpages(&slug("a/index.html"));
    let paths: Vec<Vec<u8>> = subs.iter().map(|m| m.slug.to_path()).collect();
    assert_eq!(paths, vec![b"a/one.dj".to_vec()]);
}

#[test]
fn metadata_defaults() {
    let m = md("a/index.dj");
    assert!(m.frontmatter.is_none());
    assert!(m.title.is_none());
    assert!(m.bibliography_file.is_none());
    assert!(m.debug);
    assert!(m.is_article);
    assert_eq!(m.url_path, b"/a/index.html".to_vec());
    let p = md("a/img.png");
    assert!(!p.is_article);
    assert_eq!(p.url_path, b"/a/img.png".to_vec());
}
