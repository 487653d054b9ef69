use thumper::api::FileInfo;
use thumper::crawl::Crawler;
use thumper::error::SyncError;

fn file(path: &str, name: &str) -> FileInfo {
    FileInfo {
        path: path.to_string(),
        object_name: name.to_string(),
        checksum: None,
        is_directory: false,
    }
}

fn directory(path: &str, name: &str) -> FileInfo {
    FileInfo {
        path: path.to_string(),
        object_name: name.to_string(),
        checksum: None,
        is_directory: true,
    }
}

fn names(files: &[FileInfo]) -> Vec<String> {
    files.iter().map(|f| format!("{}{}", f.path, f.object_name)).collect()
}

#[test]
fn crawl_begins_with_the_root() {
    let mut crawler = Crawler::new("/".to_string(), Vec::new());
    assert!(!crawler.is_done());
    assert_eq!(crawler.next_path(), Some("/".to_string()));
    assert_eq!(crawler.next_path(), None);
    assert!(!crawler.is_done());
}

#[test]
fn crawl_of_an_empty_root_finds_nothing() {
    let mut crawler = Crawler::new("/".to_string(), Vec::new());
    let root = crawler.next_path().unwrap();
    crawler.absorb(&root, &Vec::new());
    assert!(crawler.is_done());
    assert!(crawler.into_files().is_empty());
}

#[test]
fn crawl_descends_into_directories() {
    let mut crawler = Crawler::new("/".to_string(), Vec::new());
    let root = crawler.next_path().unwrap();
    crawler.absorb(
        &root,
        &vec![file("/z/", "index.html"), directory("/z/", "css"), directory("/z/", "img")],
    );
    assert!(!crawler.is_done());
    assert_eq!(crawler.next_path(), Some("img/".to_string()));
    assert_eq!(crawler.next_path(), Some("css/".to_string()));
    assert_eq!(crawler.next_path(), None);
    crawler.absorb("css/", &vec![file("/z/css/", "site.css"), directory("/z/css/", "fonts")]);
    crawler.absorb("img/", &vec![file("/z/img/", "logo.png")]);
    assert_eq!(crawler.next_path(), Some("css/fonts/".to_string()));
    assert!(!crawler.is_done());
    crawler.absorb("css/fonts/", &vec![file("/z/css/fonts/", "a.woff")]);
    assert!(crawler.is_done());
    assert_eq!(
        names(&crawler.into_files()),
        vec!["/z/index.html", "/z/css/site.css", "/z/img/logo.png", "/z/css/fonts/a.woff"]
    );
}

#[test]
fn crawl_skips_whole_subtrees() {
    let skip = vec!["css/fonts".to_string(), "old".to_string()];
    let mut crawler = Crawler::new("/".to_string(), skip);
    let root = crawler.next_path().unwrap();
    crawler.absorb(
        &root,
        &vec![directory("/z/", "old"), directory("/z/", "older"), directory("/z/", "css")],
    );
    // "old/" and "older/" both begin with the prefix "old".
    assert_eq!(crawler.next_path(), Some("css/".to_string()));
    assert_eq!(crawler.next_path(), None);
    crawler.absorb("css/", &vec![directory("/z/css/", "fonts"), directory("/z/css/", "themes")]);
    assert_eq!(crawler.next_path(), Some("css/themes/".to_string()));
    assert_eq!(crawler.next_path(), None);
}

#[test]
fn skip_prefixes_do_not_hide_single_files() {
    let mut crawler = Crawler::new("/".to_string(), vec!["old".to_string()]);
    let root = crawler.next_path().unwrap();
    crawler.absorb(&root, &vec![file("/z/", "old.html"), directory("/z/", "old")]);
    assert!(crawler.is_done());
    assert_eq!(names(&crawler.into_files()), vec!["/z/old.html"]);
}

#[test]
fn crawl_below_a_subdirectory_keeps_its_prefix() {
    let mut crawler = Crawler::new("docs/".to_string(), Vec::new());
    let root = crawler.next_path().unwrap();
    assert_eq!(root, "docs/");
    crawler.absorb(&root, &vec![directory("/z/docs/", "api")]);
    assert_eq!(crawler.next_path(), Some("docs/api/".to_string()));
}

#[test]
fn crawl_is_done_only_when_nothing_is_out() {
    let mut crawler = Crawler::new("/".to_string(), Vec::new());
    let root = crawler.next_path().unwrap();
    crawler.absorb(&root, &vec![directory("/z/", "a"), directory("/z/", "b")]);
    let first = crawler.next_path().unwrap();
    let second = crawler.next_path().unwrap();
    assert!(!crawler.is_done());
    crawler.absorb(&second, &Vec::new());
    assert!(!crawler.is_done());
    crawler.absorb(&first, &Vec::new());
    assert!(crawler.is_done());
}

#[test]
fn the_order_of_listings_does_not_change_what_is_found() {
    let listing_a = vec![file("/z/a/", "1.txt"), file("/z/a/", "2.txt")];
    let listing_b = vec![file("/z/b/", "3.txt")];
    let root_listing = vec![directory("/z/", "a"), directory("/z/", "b")];

    let mut forward = Crawler::new("/".to_string(), Vec::new());
    let root = forward.next_path().unwrap();
    forward.absorb(&root, &root_listing);
    forward.next_path();
    forward.next_path();
    forward.absorb("a/", &listing_a);
    forward.absorb("b/", &listing_b);

    let mut backward = Crawler::new("/".to_string(), Vec::new());
    let root = backward.next_path().unwrap();
    backward.absorb(&root, &root_listing);
    backward.next_path();
    backward.next_path();
    backward.absorb("b/", &listing_b);
    backward.absorb("a/", &listing_a);

    let mut one = names(&forward.into_files());
    let mut other = names(&backward.into_files());
    one.sort();
    other.sort();
    assert_eq!(one, other);
    assert_eq!(one.len(), 3);
}

#[test]
fn a_directory_that_cannot_be_listed_fails_the_discovery() {
    let mut crawler = Crawler::new("/".to_string(), Vec::new());
    let root = crawler.next_path().unwrap();
    crawler.absorb(&root, &vec![file("/z/", "a.txt"), directory("/z/", "a"), directory("/z/", "b")]);
    assert_eq!(crawler.failed(), None);
    crawler.next_path();
    crawler.next_path();
    assert_eq!(crawler.awaiting(), 2);
    crawler.abandon(SyncError::Network { status: 500 });
    assert_eq!(crawler.awaiting(), 1);
    crawler.abandon(SyncError::Unreachable);
    assert_eq!(crawler.failed(), Some(SyncError::Network { status: 500 }));
    assert!(crawler.is_done());
    assert_eq!(crawler.finish().err(), Some(SyncError::Network { status: 500 }));
}

#[test]
fn a_discovery_without_failure_ends_with_its_files() {
    let mut crawler = Crawler::new("/".to_string(), Vec::new());
    let root = crawler.next_path().unwrap();
    crawler.absorb(&root, &vec![file("/z/", "a.txt")]);
    assert_eq!(names(&crawler.finish().unwrap()), vec!["/z/a.txt"]);
}
