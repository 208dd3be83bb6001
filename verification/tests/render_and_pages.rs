use tn::compiler::{create_content, create_head, create_navbar, create_page, Compiler};
use tn::generator::assemble_page;
use tn::paths::SitePath;
use tn::render::rewrite_link_dest;
use tn::store::FileStore;

fn path(parts: &[&str]) -> SitePath {
    SitePath { parts: parts.iter().map(|s| s.to_string()).collect() }
}

/// Compiles one markdown document and returns the whole page it produced.
fn compile_one(markdown: &[u8]) -> String {
    let mut store = FileStore::new();
    store.add(path(&["root", "doc.md"]), Some(markdown.to_vec()));
    let files = vec![tn::crawler::CrawledFile { path: path(&["root", "doc.md"]) }];
    let (pages, err) = Compiler::new(path(&["root"]), path(&["out"])).compile(files, &store);
    assert!(err.is_none());
    assert_eq!(pages.len(), 1);
    pages.into_iter().next().unwrap().html
}

#[test]
fn rendering_is_deterministic() {
    let input = b"# Title\n\nSome *text* with [a link](other.md).\n";
    assert_eq!(compile_one(input), compile_one(input));
}

#[test]
fn rendering_transforms_the_text() {
    assert_eq!(compile_one(b"# hi"), create_page("<h1>hi</h1>\n".to_string()));
    assert_eq!(compile_one(b"plain"), create_page("<p>plain</p>\n".to_string()));
}

#[test]
fn inline_markdown_link_is_rewritten() {
    assert_eq!(
        compile_one(b"[text](note.md)"),
        create_page("<p><a href=\"note.html\">text</a></p>\n".to_string())
    );
}

#[test]
fn inline_link_fragment_is_preserved() {
    assert_eq!(
        compile_one(b"[text](note.md#sec)"),
        create_page("<p><a href=\"note.html#sec\">text</a></p>\n".to_string())
    );
}

#[test]
fn reference_link_is_not_rewritten() {
    assert_eq!(
        compile_one(b"[text][1]\n\n[1]: note.md\n"),
        create_page("<p><a href=\"note.md\">text</a></p>\n".to_string())
    );
}

#[test]
fn link_rewrite_replaces_every_marker() {
    assert_eq!(rewrite_link_dest("note.md"), "note.html");
    assert_eq!(rewrite_link_dest("note.md#sec"), "note.html#sec");
    assert_eq!(rewrite_link_dest("a/b.md"), "a/b.html");
    assert_eq!(rewrite_link_dest("plain"), "plain");
    assert_eq!(rewrite_link_dest(""), "");
    // the marker is a substring, wherever it stands
    assert_eq!(rewrite_link_dest("a.mdx"), "a.htmlx");
    assert_eq!(rewrite_link_dest(".md.md"), ".html.html");
}

#[test]
fn page_head_and_navbar_are_fixed() {
    let head = create_head();
    assert!(head.starts_with("<head><title>Thesis notes</title>"));
    assert!(head.ends_with("</head>"));
    assert!(head.contains("<link rel='stylesheet' href='/assets/styling.css'>"));
    let navbar = create_navbar();
    assert_eq!(
        navbar,
        "<div id='navbar'><a href='/'><p id='navbar-header'>Thesis notes</p></a></div>"
    );
}

#[test]
fn page_wraps_content() {
    let content = create_content("<p>x</p>".to_string());
    assert_eq!(content, "<div id='content'><p>x</p></div>");
    let page = create_page("<p>x</p>".to_string());
    assert!(page.starts_with("<head>"));
    assert!(page.contains("<body><main><div id='navbar'>"));
    assert!(page.ends_with("<div id='content'><p>x</p></div></main></body>"));
}

#[test]
fn assembled_page_holds_all_parts() {
    let page = assemble_page("proj", "<p>nav</p>", "<p>body</p>", false);
    assert_eq!(
        page,
        "<head><title>proj</title></head><body><main><nav><p>nav</p></nav>\
         <div id='content'><p>body</p></div></main></body>"
    );
    let refreshing = assemble_page("proj", "", "", true);
    assert!(refreshing.contains("<meta http-equiv='refresh' content='1'>"));
}

#[test]
fn compiler_mirrors_source_tree() {
    let mut store = FileStore::new();
    store.add(path(&["root", "a", "c.md"]), Some(b"# C".to_vec()));
    let files = vec![tn::crawler::CrawledFile { path: path(&["root", "a", "c.md"]) }];
    let compiler = Compiler::new(path(&["root"]), path(&["out"]));
    let (pages, err) = compiler.compile(files, &store);
    assert!(err.is_none());
    assert_eq!(pages.len(), 1);
    assert!(pages[0].path.equals(&path(&["out", "a", "c.html"])));
    assert_eq!(pages[0].html, create_page("<h1>C</h1>\n".to_string()));
}

#[test]
fn compiler_stops_at_unreadable_file() {
    let mut store = FileStore::new();
    store.add(path(&["root", "ok.md"]), Some(b"fine".to_vec()));
    store.add(path(&["root", "bad.md"]), None);
    let files = vec![
        tn::crawler::CrawledFile { path: path(&["root", "ok.md"]) },
        tn::crawler::CrawledFile { path: path(&["root", "bad.md"]) },
        tn::crawler::CrawledFile { path: path(&["root", "after.md"]) },
    ];
    let compiler = Compiler::new(path(&["root"]), path(&["out"]));
    let (pages, err) = compiler.compile(files, &store);
    assert_eq!(pages.len(), 1);
    assert!(err.unwrap().equals(&path(&["root", "bad.md"])));
}
