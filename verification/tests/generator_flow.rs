use tn::cache::Cache;
use tn::generator::{assemble_page, GenError, Generator};
use tn::paths::SitePath;
use tn::store::FileStore;

fn path(parts: &[&str]) -> SitePath {
    SitePath { parts: parts.iter().map(|s| s.to_string()).collect() }
}

fn new_generator() -> Generator {
    Generator::new(
        path(&["root"]),
        path(&["cache"]),
        "proj".to_string(),
        false,
        "[Home](index.md)",
    )
}

#[test]
fn empty_cache_reports_every_path_modified() {
    let cache = Cache::new(path(&["out"]));
    assert!(cache.modified(&path(&["root", "a.md"]), &b"anything".to_vec()));
    assert!(cache.modified(&path(&["elsewhere"]), &Vec::new()));
}

#[test]
fn unchanged_bytes_are_not_modified_after_update() {
    let mut cache = Cache::new(path(&["out"]));
    let p = path(&["root", "a.md"]);
    cache.update(&p, &b"content".to_vec());
    assert!(!cache.modified(&p, &b"content".to_vec()));
    assert!(cache.modified(&p, &b"changed".to_vec()));
}

#[test]
fn cache_tracks_paths_and_root() {
    let mut cache = Cache::new(path(&["out", "proj"]));
    assert!(cache.get_path().equals(&path(&["out", "proj"])));
    assert_eq!(cache.files().len(), 0);
    cache.update(&path(&["a.md"]), &b"x".to_vec());
    cache.update(&path(&["b.md"]), &b"y".to_vec());
    cache.update(&path(&["a.md"]), &b"z".to_vec());
    let files = cache.files();
    assert_eq!(files.len(), 2);
    assert!(files[0].equals(&path(&["a.md"])));
    assert!(files[1].equals(&path(&["b.md"])));
}

#[test]
fn generate_renders_a_stale_markdown_candidate() {
    let mut generator = new_generator();
    let mut store = FileStore::new();
    let a = path(&["root", "a", "b", "c.md"]);
    store.add(a.copy_path(), Some(b"# C".to_vec()));
    let report = generator.generate(&vec![a], &store);
    assert!(report.error.is_none());
    assert_eq!(report.pages.len(), 1);
    // a source file at root/a/b/c.md maps to cache/proj/a/b/c.html
    assert!(report.pages[0].path.equals(&path(&["cache", "proj", "a", "b", "c.html"])));
    let nav_html = "<p><a href=\"index.html\">Home</a></p>\n";
    assert_eq!(
        report.pages[0].html,
        assemble_page("proj", nav_html, "<h1>C</h1>\n", false)
    );
}

#[test]
fn generate_skips_unchanged_candidate_on_second_call() {
    let mut generator = new_generator();
    let mut store = FileStore::new();
    let a = path(&["root", "a.md"]);
    store.add(a.copy_path(), Some(b"# A".to_vec()));
    let first = generator.generate(&vec![a.copy_path()], &store);
    assert_eq!(first.pages.len(), 1);
    // same bytes again: the file is no longer stale and nothing is rendered
    let second = generator.generate(&vec![a], &store);
    assert!(second.error.is_none());
    assert_eq!(second.pages.len(), 0);
    assert_eq!(second.skipped.len(), 0);
}

#[test]
fn generate_skips_non_markdown_candidates() {
    let mut generator = new_generator();
    let mut store = FileStore::new();
    let css = path(&["root", "style.css"]);
    store.add(css.copy_path(), Some(b"body {}".to_vec()));
    let report = generator.generate(&vec![css], &store);
    assert!(report.error.is_none());
    assert_eq!(report.pages.len(), 0);
    assert_eq!(report.skipped.len(), 0);
    assert_eq!(generator.cached_files().len(), 0);
}

#[test]
fn navigation_candidate_rebuilds_everything_and_ends_the_batch() {
    let mut generator = new_generator();
    let a = path(&["root", "a.md"]);
    let b = path(&["root", "b.md"]);
    let nav = path(&["root", "index.nav"]);

    let mut store = FileStore::new();
    store.add(a.copy_path(), Some(b"# A".to_vec()));
    let first = generator.generate(&vec![a.copy_path()], &store);
    assert_eq!(first.pages.len(), 1);

    // candidates [a.md, index.nav, b.md]: the batch stops at the navigation
    // file, rebuilds every cached path, and never evaluates b.md
    let mut second_store = FileStore::new();
    second_store.add(a.copy_path(), Some(b"# A".to_vec()));
    second_store.add(b.copy_path(), Some(b"# B".to_vec()));
    second_store.add(nav.copy_path(), Some(b"[Home](other.md)".to_vec()));
    let report = generator.generate(
        &vec![a.copy_path(), nav, b.copy_path()],
        &second_store,
    );
    assert!(report.error.is_none());
    // a.md was unchanged, so the only page is the full-rebuild render of a.md
    assert_eq!(report.pages.len(), 1);
    assert!(report.pages[0].path.equals(&path(&["cache", "proj", "a.html"])));
    // the rebuilt page carries the new navigation fragment
    let new_nav = "<p><a href=\"other.html\">Home</a></p>\n";
    assert_eq!(
        report.pages[0].html,
        assemble_page("proj", new_nav, "<h1>A</h1>\n", false)
    );
    // b.md was never examined: it is not tracked
    let known = generator.cached_files();
    assert_eq!(known.len(), 1);
    assert!(known[0].equals(&a));
}

#[test]
fn unreadable_navigation_file_stops_the_batch() {
    let mut generator = new_generator();
    let store = FileStore::new();
    let report = generator.generate(&vec![path(&["root", "index.nav"])], &store);
    assert!(matches!(report.error, Some(GenError::NavUnreadable)));
    assert_eq!(report.pages.len(), 0);
}

#[test]
fn unreadable_tracked_candidate_stops_the_batch() {
    let mut generator = new_generator();
    let a = path(&["root", "a.md"]);
    let mut store = FileStore::new();
    store.add(a.copy_path(), Some(b"# A".to_vec()));
    generator.generate(&vec![a.copy_path()], &store);
    // the same tracked file, now unreadable: its staleness check fails
    let empty_store = FileStore::new();
    let report = generator.generate(&vec![a.copy_path()], &empty_store);
    match report.error {
        Some(GenError::StaleCheckUnreadable(p)) => assert!(p.equals(&a)),
        _ => panic!("expected a stale-check failure"),
    }
}

#[test]
fn undecodable_candidate_is_skipped_not_fatal() {
    let mut generator = new_generator();
    let a = path(&["root", "a.md"]);
    let mut store = FileStore::new();
    // not valid UTF-8: the file renders to nothing and is skipped
    store.add(a.copy_path(), Some(vec![0xff, 0xfe, 0x00]));
    let report = generator.generate(&vec![a.copy_path()], &store);
    assert!(report.error.is_none());
    assert_eq!(report.pages.len(), 0);
    assert_eq!(report.skipped.len(), 1);
    assert!(report.skipped[0].equals(&a));
    // a failed render records nothing: the file is not tracked, stays
    // stale, and is attempted again by the next batch that names it
    assert_eq!(generator.cached_files().len(), 0);
    let second = generator.generate(&vec![a], &store);
    assert_eq!(second.skipped.len(), 1);
}

#[test]
fn failed_sweep_render_keeps_the_entry() {
    let mut generator = new_generator();
    let a = path(&["root", "a.md"]);
    let nav = path(&["root", "index.nav"]);
    let mut store = FileStore::new();
    store.add(a.copy_path(), Some(b"# A".to_vec()));
    generator.generate(&vec![a.copy_path()], &store);
    // the navigation changes while a.md has become unreadable: the sweep
    // skips it, but the entry from its earlier successful render stays
    let mut second = FileStore::new();
    second.add(nav.copy_path(), Some(b"nav".to_vec()));
    let report = generator.generate(&vec![nav], &second);
    assert!(report.error.is_none());
    assert_eq!(report.pages.len(), 0);
    assert_eq!(report.skipped.len(), 1);
    assert!(report.skipped[0].equals(&a));
    let known = generator.cached_files();
    assert_eq!(known.len(), 1);
    assert!(known[0].equals(&a));
}

#[test]
fn generate_file_renders_at_html_location() {
    let generator = new_generator();
    let content = b"hello".to_vec();
    let page = generator
        .generate_file(path(&["cache", "proj", "x.md"]), Some(&content))
        .unwrap();
    assert!(page.path.equals(&path(&["cache", "proj", "x.html"])));
    let nav_html = "<p><a href=\"index.html\">Home</a></p>\n";
    assert_eq!(page.html, assemble_page("proj", nav_html, "<p>hello</p>\n", false));
    assert!(generator.generate_file(path(&["cache", "x.md"]), None).is_none());
}

#[test]
fn regenerate_rerenders_all_tracked_markdown() {
    let mut generator = new_generator();
    let a = path(&["root", "a.md"]);
    let b = path(&["root", "b.md"]);
    let mut store = FileStore::new();
    store.add(a.copy_path(), Some(b"# A".to_vec()));
    store.add(b.copy_path(), Some(b"# B".to_vec()));
    generator.generate(&vec![a.copy_path(), b.copy_path()], &store);
    // nothing is stale, yet a sweep renders both tracked files again
    let report = generator.regenerate(&store);
    assert!(report.error.is_none());
    assert_eq!(report.pages.len(), 2);
    assert!(report.pages[0].path.equals(&path(&["cache", "proj", "a.html"])));
    assert!(report.pages[1].path.equals(&path(&["cache", "proj", "b.html"])));
}

#[test]
fn refresh_flag_reaches_the_page() {
    let mut generator = Generator::new(
        path(&["root"]),
        path(&["cache"]),
        "proj".to_string(),
        true,
        "nav",
    );
    let a = path(&["root", "a.md"]);
    let mut store = FileStore::new();
    store.add(a.copy_path(), Some(b"x".to_vec()));
    let report = generator.generate(&vec![a], &store);
    assert!(report.pages[0].html.contains("<meta http-equiv='refresh' content='1'>"));
}
