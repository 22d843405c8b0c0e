//! Trusted boundary to the Markdown renderer.
use vstd::prelude::*;

verus! {

/// The markup that rendering a Markdown text yields.  Rendering is a
/// function of the text alone.
pub uninterp spec fn html_of(md: Seq<u8>) -> Seq<u8>;

/// Relies on pulldown_cmark::Parser::new_ext and html::push_html: the
/// rendered markup depends only on the markdown text and the fixed
/// options (tables, strikethrough, task lists); an empty text renders to
/// the empty string.
#[verifier::external_body]
pub fn render_markdown(md: &[u8]) -> (r: Vec<u8>)
    ensures
        r@ == html_of(md@),
        md@.len() == 0 ==> r@.len() == 0,
{
    let text = std::str::from_utf8(md).unwrap_or("");
    let mut options = pulldown_cmark::Options::empty();
    options.insert(pulldown_cmark::Options::ENABLE_TABLES);
    options.insert(pulldown_cmark::Options::ENABLE_STRIKETHROUGH);
    options.insert(pulldown_cmark::Options::ENABLE_TASKLISTS);
    let parser = pulldown_cmark::Parser::new_ext(text, options);
    let mut out = String::new();
    pulldown_cmark::html::push_html(&mut out, parser);
    out.into_bytes()
}

} // verus!
