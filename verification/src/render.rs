use vstd::prelude::*;

verus! {

use pulldown_cmark::{Event, LinkType, Options, Tag};

/// Whether the text begins with the `.md` extension marker.
pub open spec fn starts_with_md(s: Seq<char>) -> bool {
    s.len() >= 3 && s[0] == '.' && s[1] == 'm' && s[2] == 'd'
}

/// The text with every occurrence of the `.md` marker replaced by `.html`,
/// scanning left to right without overlap.
pub open spec fn rewrite_links(s: Seq<char>) -> Seq<char>
    decreases s.len(),
{
    if s.len() == 0 {
        Seq::empty()
    } else if starts_with_md(s) {
        seq!['.', 'h', 't', 'm', 'l'] + rewrite_links(s.skip(3))
    } else {
        seq![s[0]] + rewrite_links(s.skip(1))
    }
}

/// Rewrites a link destination so that markdown sources resolve to their
/// compiled pages: every `.md` is replaced by `.html`, anything else is kept.
pub fn rewrite_link_dest(s: &str) -> (r: String)
    ensures
        r@ == rewrite_links(s@),
{
    let n = s.unicode_len();
    let mut out = String::new();
    let mut i: usize = 0;
    proof {
        assert(s@.skip(0) =~= s@);
    }
    while i < n
        invariant
            i <= n,
            n == s@.len(),
            rewrite_links(s@) == out@ + rewrite_links(s@.skip(i as int)),
        decreases n - i,
    {
        let ghost bout = out@;
        let ghost rest = s@.skip(i as int);
        if n - i >= 3 && s.get_char(i) == '.' && s.get_char(i + 1) == 'm' && s.get_char(i + 2)
            == 'd' {
            out.append(".html");
            proof {
                reveal_strlit(".html");
                assert(starts_with_md(rest));
                assert(rest.skip(3) =~= s@.skip(i + 3));
                assert(".html"@ =~= seq!['.', 'h', 't', 'm', 'l']);
                assert(bout + (seq!['.', 'h', 't', 'm', 'l'] + rewrite_links(s@.skip(i + 3)))
                    =~= (bout + seq!['.', 'h', 't', 'm', 'l']) + rewrite_links(s@.skip(i + 3)));
            }
            i += 3;
        } else {
            out.append(s.substring_char(i, i + 1));
            proof {
                assert(!starts_with_md(rest));
                assert(rest[0] == s@[i as int]);
                assert(rest.skip(1) =~= s@.skip(i + 1));
                assert(s@.subrange(i as int, i + 1) =~= seq![s@[i as int]]);
                assert(bout + (seq![s@[i as int]] + rewrite_links(s@.skip(i + 1))) =~= (bout
                    + seq![s@[i as int]]) + rewrite_links(s@.skip(i + 1)));
            }
            i += 1;
        }
    }
    proof {
        assert(s@.skip(n as int) =~= Seq::<char>::empty());
        assert(out@ + Seq::<char>::empty() =~= out@);
    }
    out
}

/// The HTML serialization of the markdown text after the link rewrite: a
/// fixed function of the text alone.
pub uninterp spec fn html_of(s: Seq<char>) -> Seq<char>;

/// Renders one markdown document to an HTML fragment.
///
/// Relies on pulldown_cmark::Parser and pulldown_cmark::html::push_html: the
/// CommonMark parse and its HTML serialization are deterministic functions of
/// the input text. The only transform between them is the inline-link rewrite
/// done by the verified [`rewrite_link_dest`]; destinations of
/// reference-style links and every other event pass through unchanged.
#[verifier::external_body]
pub(crate) fn render_markdown(input: &str) -> (r: String)
    ensures
        r@ == html_of(input@),
{
    let parser = pulldown_cmark::Parser::new_ext(input, Options::empty());
    let transformed = parser.map(|ev| match ev {
        Event::Start(Tag::Link { link_type, dest_url, title, id }) if link_type
            == LinkType::Inline => Event::Start(
            Tag::Link { link_type, dest_url: rewrite_link_dest(&dest_url).into(), title, id },
        ),
        other => other,
    });
    let mut html = String::new();
    pulldown_cmark::html::push_html(&mut html, transformed);
    html
}

/// The decoded text of a byte sequence, when it is valid UTF-8.
pub open spec fn text_of(bytes: Seq<u8>) -> Option<Seq<char>> {
    if vstd::utf8::valid_utf8(bytes) {
        Some(vstd::utf8::decode_utf8(bytes))
    } else {
        None
    }
}

/// Decodes a file's raw bytes into text.
///
/// Relies on core::str::from_utf8: it accepts exactly the valid UTF-8 byte
/// sequences and returns their decoding.
#[verifier::external_body]
pub(crate) fn decode_text(bytes: &Vec<u8>) -> (r: Option<String>)
    ensures
        r matches Some(s) ==> text_of(bytes@) == Some(s@),
        r is None ==> text_of(bytes@) is None,
{
    match core::str::from_utf8(bytes.as_slice()) {
        Ok(s) => Some(s.to_owned()),
        Err(_) => None,
    }
}

/// Rendering is a pure function of the markdown source: any two rendering
/// results for the same text are byte-identical.
pub proof fn lemma_render_deterministic(s: Seq<char>, r1: Seq<char>, r2: Seq<char>)
    requires
        r1 == html_of(s),
        r2 == html_of(s),
    ensures
        r1 == r2,
{
}

} // verus!
