use vstd::prelude::*;

verus! {

use crate::crawler::CrawledFile;
use crate::paths::{SitePath, path_skip, path_with_html};
use crate::render::{html_of, render_markdown, decode_text};
use crate::store::{FileStore, store_text};
use crate::generator::Page;

/// The fixed stylesheet and font links every compiled page's head carries.
pub open spec fn spec_styles() -> Seq<char> {
    "
    <link rel='stylesheet' href='/assets/styling.css'>
    <link rel='preconnect' href='https://fonts.googleapis.com'>
    <link rel='preconnect' href='https://fonts.gstatic.com' crossorigin>
    <link href='https://fonts.googleapis.com/css2?family=Inter:wght@100..900&family=Roboto:ital,wght@0,100;0,300;0,400;0,500;0,700;0,900;1,100;1,300;1,400;1,500;1,700;1,900&display=swap' rel='stylesheet'>
"@
}

pub open spec fn spec_head() -> Seq<char> {
    "<head>"@ + "<title>Thesis notes</title>"@ + spec_styles() + "</head>"@
}

pub open spec fn spec_navbar() -> Seq<char> {
    "<div id='navbar'>"@ + "<a href='/'><p id='navbar-header'>Thesis notes</p></a>"@ + "</div>"@
}

pub open spec fn spec_content(elements: Seq<char>) -> Seq<char> {
    "<div id='content'>"@ + elements + "</div>"@
}

pub open spec fn spec_page_doc(elements: Seq<char>) -> Seq<char> {
    spec_head() + "<body>"@ + "<main>"@ + spec_navbar() + spec_content(elements) + "</main>"@
        + "</body>"@
}

/// The head of a compiled page: fixed title and stylesheet links.
pub fn create_head() -> (r: String)
    ensures
        r@ == spec_head(),
{
    let mut head = String::new();
    head.append("<head>");
    head.append("<title>Thesis notes</title>");
    head.append(
        "
    <link rel='stylesheet' href='/assets/styling.css'>
    <link rel='preconnect' href='https://fonts.googleapis.com'>
    <link rel='preconnect' href='https://fonts.gstatic.com' crossorigin>
    <link href='https://fonts.googleapis.com/css2?family=Inter:wght@100..900&family=Roboto:ital,wght@0,100;0,300;0,400;0,500;0,700;0,900;1,100;1,300;1,400;1,500;1,700;1,900&display=swap' rel='stylesheet'>
",
    );
    head.append("</head>");
    proof {
        assert(head@ =~= spec_head());
    }
    head
}

/// The fixed navigation bar of a compiled page.
pub fn create_navbar() -> (r: String)
    ensures
        r@ == spec_navbar(),
{
    let mut navbar = String::new();
    navbar.append("<div id='navbar'>");
    navbar.append("<a href='/'><p id='navbar-header'>Thesis notes</p></a>");
    navbar.append("</div>");
    proof {
        assert(navbar@ =~= spec_navbar());
    }
    navbar
}

/// The document body wrapped in the page's content container.
pub fn create_content(elements: String) -> (r: String)
    ensures
        r@ == spec_content(elements@),
{
    let mut content = String::new();
    content.append("<div id='content'>");
    content.append(elements.as_str());
    content.append("</div>");
    proof {
        assert(content@ =~= spec_content(elements@));
    }
    content
}

/// One whole compiled page around the rendered document body.
pub fn create_page(elements: String) -> (r: String)
    ensures
        r@ == spec_page_doc(elements@),
{
    let ghost ev = elements@;
    let mut page = String::new();
    let head = create_head();
    let navbar = create_navbar();
    let content = create_content(elements);
    page.append(head.as_str());
    page.append("<body>");
    page.append("<main>");
    page.append(navbar.as_str());
    page.append(content.as_str());
    page.append("</main>");
    page.append("</body>");
    proof {
        assert(page@ =~= spec_page_doc(ev));
    }
    page
}

/// What one batch compilation produces for a list of crawled files: the
/// compiled page of every file up to the first unreadable one, and that
/// file's path when one stops the run.
pub open spec fn spec_compile(
    src: Seq<Seq<char>>,
    dst: Seq<Seq<char>>,
    fs: Seq<Seq<Seq<char>>>,
    ct: Seq<(Seq<Seq<char>>, Option<Seq<u8>>)>,
) -> (Seq<(Seq<Seq<char>>, Seq<char>)>, Option<Seq<Seq<char>>>)
    decreases fs.len(),
{
    if fs.len() == 0 {
        (Seq::empty(), None)
    } else {
        match store_text(ct, fs[0]) {
            None => (Seq::empty(), Some(fs[0])),
            Some(text) => {
                let pg = (
                    path_with_html(dst + path_skip(fs[0], src.len() as int)),
                    spec_page_doc(html_of(text)),
                );
                let rest = spec_compile(src, dst, fs.skip(1), ct);
                (seq![pg] + rest.0, rest.1)
            },
        }
    }
}

/// Batch-compiles a crawled file list into pages mirrored under a fixed
/// output root, with no cache and a fixed title.
pub struct Compiler {
    src: SitePath,
    dst: SitePath,
}

impl Compiler {
    pub closed spec fn src_root(&self) -> Seq<Seq<char>> {
        self.src@
    }

    pub closed spec fn dst_root(&self) -> Seq<Seq<char>> {
        self.dst@
    }

    pub fn new(src: SitePath, dst: SitePath) -> (r: Compiler)
        ensures
            r.src_root() == src@,
            r.dst_root() == dst@,
    {
        Compiler { src, dst }
    }

    /// Compiles every file in order; the first file whose bytes are missing
    /// or not text stops the run and is named in the result.
    pub fn compile(self, files: Vec<CrawledFile>, contents: &FileStore) -> (r: (
        Vec<Page>,
        Option<SitePath>,
    ))
        ensures
            ({
                let sc = spec_compile(
                    self.src_root(),
                    self.dst_root(),
                    crate::crawler::files_view(files@),
                    contents@,
                );
                crate::generator::pages_view(r.0@) == sc.0 && (match r.1 {
                    Some(p) => sc.1 == Some(p@),
                    None => sc.1 is None,
                })
            }),
    {
        let mut pages: Vec<Page> = Vec::new();
        let n = files.len();
        let ghost fsv = crate::crawler::files_view(files@);
        let ghost total = spec_compile(self.src_root(), self.dst_root(), fsv, contents@);
        proof {
            assert(fsv.skip(0) =~~= fsv);
            assert(crate::generator::pages_view(pages@) =~~= Seq::<(Seq<Seq<char>>, Seq<char>)>::empty());
        }
        let src_len = self.src.count();
        for i in 0..n
            invariant
                n == files@.len(),
                src_len == self.src@.len(),
                fsv == crate::crawler::files_view(files@),
                total == spec_compile(self.src_root(), self.dst_root(), fsv, contents@),
                ({
                    let rest = spec_compile(
                        self.src_root(),
                        self.dst_root(),
                        fsv.skip(i as int),
                        contents@,
                    );
                    total.0 == crate::generator::pages_view(pages@) + rest.0 && total.1 == rest.1
                }),
        {
            let ghost rest = fsv.skip(i as int);
            proof {
                assert(rest[0] == fsv[i as int]);
                assert(fsv[i as int] == files@[i as int].path@);
                assert(rest.skip(1) =~~= fsv.skip(i + 1));
            }
            let file = &files[i];
            let found = contents.find(&file.path);
            let text_opt: Option<String> = match found {
                None => None,
                Some(bytes) => decode_text(bytes),
            };
            match text_opt {
                None => {
                    proof {
                        assert(store_text(contents@, fsv[i as int]) is None);
                        assert(total.1 == Some(fsv[i as int]));
                    }
                    return (pages, Some(file.path.copy_path()));
                },
                Some(text) => {
                    let html = render_markdown(text.as_str());
                    let page_html = create_page(html);
                    let rel = file.path.skip_components(src_len);
                    let outp = self.dst.join(&rel).with_html_extension();
                    let ghost bpages = crate::generator::pages_view(pages@);
                    let ghost pgv = (outp@, page_html@);
                    pages.push(Page { path: outp, html: page_html });
                    proof {
                        assert(store_text(contents@, fsv[i as int]) == Some(text@));
                        assert(pgv == (
                            path_with_html(
                                self.dst_root() + path_skip(
                                    fsv[i as int],
                                    self.src_root().len() as int,
                                ),
                            ),
                            spec_page_doc(html_of(text@)),
                        ));
                        assert(crate::generator::pages_view(pages@) =~~= bpages.push(pgv));
                        assert(bpages.push(pgv) =~~= bpages + seq![pgv]);
                        let tail = spec_compile(
                            self.src_root(),
                            self.dst_root(),
                            fsv.skip(i + 1),
                            contents@,
                        );
                        assert((bpages + seq![pgv]) + tail.0 =~~= bpages + (seq![pgv] + tail.0));
                    }
                },
            }
        }
        proof {
            assert(fsv.skip(n as int) =~~= Seq::<Seq<Seq<char>>>::empty());
            assert(crate::generator::pages_view(pages@) + Seq::<(Seq<Seq<char>>, Seq<char>)>::empty()
                =~~= crate::generator::pages_view(pages@));
        }
        (pages, None)
    }
}

} // verus!
