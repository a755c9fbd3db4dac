use sitegen::bytes::Cmp;
use sitegen::slug::{ContentSlug, SlugStem};

fn slug(path: &str) -> ContentSlug {
    ContentSlug::from_path(&path.as_bytes().to_vec()).expect("valid path")
}

#[test]
fn round_trip_simple() {
    let s = slug("a/b/c.dj");
    assert_eq!(s.to_path(), b"a/b/c.dj".to_vec());
}

#[test]
fn round_trip_index() {
    let s = slug("notes/index.dj");
    assert!(matches!(s.stem, SlugStem::Index));
    assert_eq!(s.to_path(), b"notes/index.dj".to_vec());
}

#[test]
fn round_trip_no_extension() {
    let s = slug("a/readme");
    assert_eq!(s.extension, None);
    assert_eq!(s.to_path(), b"a/readme".to_vec());
}

#[test]
fn round_trip_dotted_name() {
    let s = slug("x/archive.tar.gz");
    assert_eq!(s.extension, Some(b"gz".to_vec()));
    assert_eq!(s.to_path(), b"x/archive.tar.gz".to_vec());
}

#[test]
fn from_path_rejects_missing_file_name() {
    assert!(ContentSlug::from_path(&b"".to_vec()).is_err());
    assert!(ContentSlug::from_path(&b"a/b/".to_vec()).is_err());
}

#[test]
fn fields_of_parsed_slug() {
    let s = slug("a/b/c.dj");
    assert_eq!(s.parent, vec![b"a".to_vec(), b"b".to_vec()]);
    match &s.stem {
        SlugStem::Other(name) => assert_eq!(name, &b"c".to_vec()),
        SlugStem::Index => panic!("not an index stem"),
    }
    assert_eq!(s.extension, Some(b"dj".to_vec()));
}

#[test]
fn other_sorts_before_index_in_same_directory() {
    let x = slug("a/x.dj");
    let idx = slug("a/index.dj");
    assert!(matches!(x.cmp_slug(&idx), Cmp::Less));
    assert!(matches!(idx.cmp_slug(&x), Cmp::Greater));
    // Even a name that sorts after "index" alphabetically stays before it.
    let z = slug("a/zzz.dj");
    assert!(matches!(z.cmp_slug(&idx), Cmp::Less));
}

#[test]
fn deeper_directories_sort_first() {
    let deep = slug("a/b/c.dj");
    let shallow = slug("a/d.dj");
    assert!(matches!(deep.cmp_slug(&shallow), Cmp::Less));
}

#[test]
fn slug_order_is_irreflexive_and_total() {
    let a = slug("a/x.dj");
    let b = slug("a/y.dj");
    assert!(matches!(a.cmp_slug(&a), Cmp::Equal));
    assert!(matches!(a.cmp_slug(&b), Cmp::Less));
    assert!(matches!(b.cmp_slug(&a), Cmp::Greater));
}

#[test]
fn extension_breaks_ties() {
    let none = slug("a/x");
    let dj = slug("a/x.dj");
    assert!(matches!(none.cmp_slug(&dj), Cmp::Less));
}

#[test]
fn subpage_range_of_index_holds_exactly_the_siblings() {
    let idx = slug("a/index.dj");
    let (lo, hi) = idx.subpage_range();
    let in_range = |s: &ContentSlug| {
        !matches!(lo.cmp_slug(s), Cmp::Greater) && matches!(s.cmp_slug(&hi), Cmp::Less)
    };
    assert!(in_range(&slug("a/x.dj")));
    assert!(in_range(&slug("a/zzz.html")));
    assert!(!in_range(&slug("b/x.dj")));
    assert!(!in_range(&slug("a/b/x.dj")));
    assert!(!in_range(&idx));
    // Another index file of the same directory is no subpage either.
    assert!(!in_range(&slug("a/index.html")));
    assert!(!in_range(&slug("a/index")));
}

#[test]
fn subpage_range_never_captures_a_sibling_index() {
    // Two index files can share a directory; neither lists the other.
    let html_idx = slug("a/index.html");
    let (lo, hi) = html_idx.subpage_range();
    let in_range = |s: &ContentSlug| {
        !matches!(lo.cmp_slug(s), Cmp::Greater) && matches!(s.cmp_slug(&hi), Cmp::Less)
    };
    assert!(!in_range(&slug("a/index.dj")));
    assert!(in_range(&slug("a/x.dj")));
}

#[test]
fn subpage_range_of_page_holds_its_nested_directory() {
    let page = slug("a/post.dj");
    let (lo, hi) = page.subpage_range();
    let in_range = |s: &ContentSlug| {
        !matches!(lo.cmp_slug(s), Cmp::Greater) && matches!(s.cmp_slug(&hi), Cmp::Less)
    };
    assert!(in_range(&slug("a/post/one.dj")));
    assert!(in_range(&slug("a/post/two.html")));
    assert!(!in_range(&slug("a/other/one.dj")));
    assert!(!in_range(&slug("a/post.dj")));
}

#[test]
fn subpages_sort_before_their_page() {
    let idx = slug("a/index.dj");
    let sib = slug("a/x.dj");
    assert!(matches!(sib.cmp_slug(&idx), Cmp::Less));
    let page = slug("a/post.dj");
    let nested = slug("a/post/one.dj");
    assert!(matches!(nested.cmp_slug(&page), Cmp::Less));
}
