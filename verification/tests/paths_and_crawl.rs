use tn::crawler::{crawl, flatten, select_markdown, CrawledDir, CrawledEntry, CrawledFile, FsDir, FsEntry};
use tn::paths::SitePath;

fn path(parts: &[&str]) -> SitePath {
    SitePath { parts: parts.iter().map(|s| s.to_string()).collect() }
}

#[test]
fn path_equality() {
    let a = path(&["root", "a.md"]);
    let b = path(&["root", "a.md"]);
    let c = path(&["root", "b.md"]);
    assert!(a.equals(&b));
    assert!(!a.equals(&c));
    assert!(!a.equals(&path(&["root"])));
}

#[test]
fn markdown_extension_detected() {
    assert!(path(&["root", "note.md"]).is_markdown());
    assert!(path(&["root", "note.tar.md"]).is_markdown());
    assert!(!path(&["root", "note.txt"]).is_markdown());
    assert!(!path(&["root", "notemd"]).is_markdown());
    // a leading dot starts no extension, as the standard library has it
    assert!(!path(&["root", ".md"]).is_markdown());
    assert!(!path(&[]).is_markdown());
}

#[test]
fn html_extension_replaces_markdown() {
    let p = path(&["root", "a", "c.md"]).with_html_extension();
    assert!(p.equals(&path(&["root", "a", "c.html"])));
    let q = path(&["root", "c.tar.md"]).with_html_extension();
    assert!(q.equals(&path(&["root", "c.tar.html"])));
    let r = path(&["root", "noext"]).with_html_extension();
    assert!(r.equals(&path(&["root", "noext.html"])));
}

#[test]
fn skip_and_join_components() {
    let p = path(&["root", "a", "b", "c.md"]);
    let rel = p.skip_components(1);
    assert!(rel.equals(&path(&["a", "b", "c.md"])));
    let none_left = p.skip_components(9);
    assert!(none_left.equals(&path(&[])));
    let joined = path(&["out"]).join(&rel);
    assert!(joined.equals(&path(&["out", "a", "b", "c.md"])));
    let child = path(&["out"]).child("cache");
    assert!(child.equals(&path(&["out", "cache"])));
    let parent = p.parent();
    assert!(parent.equals(&path(&["root", "a", "b"])));
}

#[test]
fn crawl_returns_exactly_the_markdown_files() {
    // three markdown files and two other files, nested across subdirectories
    let tree = FsDir {
        entries: vec![
            FsEntry::File(path(&["root", "one.md"])),
            FsEntry::File(path(&["root", "style.css"])),
            FsEntry::Dir(FsDir {
                entries: vec![
                    FsEntry::File(path(&["root", "sub", "two.md"])),
                    FsEntry::File(path(&["root", "sub", "notes.txt"])),
                    FsEntry::Dir(FsDir {
                        entries: vec![FsEntry::File(path(&["root", "sub", "deep", "three.md"]))],
                    }),
                ],
            }),
        ],
    };
    let files = crawl(&tree);
    assert_eq!(files.len(), 3);
    assert!(files[0].path.equals(&path(&["root", "one.md"])));
    assert!(files[1].path.equals(&path(&["root", "sub", "two.md"])));
    assert!(files[2].path.equals(&path(&["root", "sub", "deep", "three.md"])));
}

#[test]
fn crawl_of_empty_tree_is_empty() {
    let files = crawl(&FsDir { entries: vec![] });
    assert_eq!(files.len(), 0);
}

#[test]
fn select_markdown_keeps_tree_shape() {
    let tree = FsDir {
        entries: vec![
            FsEntry::File(path(&["r", "a.md"])),
            FsEntry::File(path(&["r", "b.css"])),
            FsEntry::Dir(FsDir { entries: vec![FsEntry::File(path(&["r", "s", "c.md"]))] }),
        ],
    };
    let selected = select_markdown(&tree);
    assert_eq!(selected.entries.len(), 2);
    let files = flatten(selected);
    assert_eq!(files.len(), 2);
    assert!(files[0].path.equals(&path(&["r", "a.md"])));
    assert!(files[1].path.equals(&path(&["r", "s", "c.md"])));
}

#[test]
fn flatten_preserves_preorder() {
    let dir = CrawledDir {
        entries: vec![
            CrawledEntry::File(CrawledFile { path: path(&["r", "a.md"]) }),
            CrawledEntry::Dir(CrawledDir {
                entries: vec![CrawledEntry::File(CrawledFile { path: path(&["r", "s", "b.md"]) })],
            }),
            CrawledEntry::File(CrawledFile { path: path(&["r", "c.md"]) }),
        ],
    };
    let files = flatten(dir);
    assert_eq!(files.len(), 3);
    assert!(files[0].path.equals(&path(&["r", "a.md"])));
    assert!(files[1].path.equals(&path(&["r", "s", "b.md"])));
    assert!(files[2].path.equals(&path(&["r", "c.md"])));
}

#[test]
fn storage_layout_directories() {
    let storage = path(&["home", ".tn"]);
    assert!(tn::get_cache_dir(&storage).equals(&path(&["home", ".tn", "cache"])));
    assert!(tn::get_assets_dir(&storage).equals(&path(&["home", ".tn", "assets"])));
}

#[test]
fn config_resolves_against_config_location() {
    let cfg = tn::config::Config::parse(
        "proj".to_string(),
        &path(&["somewhere", "notes"]),
        None,
        &path(&["abs", "dir", "tn.toml"]),
        path(&["home", ".tn", "assets"]),
    );
    assert_eq!(cfg.name, "proj");
    assert!(cfg.src.equals(&path(&["abs", "dir", "notes"])));
    assert!(cfg.assets.unwrap().equals(&path(&["home", ".tn", "assets"])));

    let cfg2 = tn::config::Config::parse(
        "proj".to_string(),
        &path(&["notes"]),
        Some(path(&["my", "assets"])),
        &path(&["abs", "dir", "tn.toml"]),
        path(&["home", ".tn", "assets"]),
    );
    assert!(cfg2.src.equals(&path(&["abs", "dir", "notes"])));
    assert!(cfg2.assets.unwrap().equals(&path(&["my", "assets"])));
}

#[test]
fn server_options_hold_their_values() {
    let opt = tn::server::ServerOpt::new(9000, path(&["cache", "proj"]));
    assert_eq!(opt.port(), 9000);
    assert!(opt.src().equals(&path(&["cache", "proj"])));
    let def = tn::server::ServerOpt::default();
    assert_eq!(def.port(), 8080);
    assert!(def.src().equals(&path(&[])));
    let server = tn::server::Server::new(tn::server::ServerOpt::new(81, path(&["x"])));
    assert_eq!(server.options().port(), 81);
}
