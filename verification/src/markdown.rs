//! Markdown to HTML, through pulldown-cmark.
use vstd::prelude::*;

verus! {

/// The HTML that pulldown-cmark writes for `md` with the given extensions
/// (tables, strikethrough, YAML-style metadata blocks) switched on.
pub uninterp spec fn cmark_html(
    md: Seq<char>,
    tables: bool,
    strikethrough: bool,
    metadata_blocks: bool,
) -> Seq<char>;

/// `pulldown_cmark::html::push_html` into an empty string, fed by the event
/// iterator that `pulldown_cmark::Parser::new_ext` builds over `md` with the
/// three extension switches set in `pulldown_cmark::Options`.
///
/// Claims only that the HTML is a function of the text and of the three
/// switches (pulldown-cmark reads nothing else).
#[verifier::external_body]
fn push_html_with(md: &str, tables: bool, strikethrough: bool, metadata_blocks: bool) -> (r:
    String)
    ensures
        r@ == cmark_html(md@, tables, strikethrough, metadata_blocks),
{
    let mut options = pulldown_cmark::Options::empty();
    options.set(pulldown_cmark::Options::ENABLE_TABLES, tables);
    options.set(pulldown_cmark::Options::ENABLE_STRIKETHROUGH, strikethrough);
    options.set(pulldown_cmark::Options::ENABLE_YAML_STYLE_METADATA_BLOCKS, metadata_blocks);
    let mut out = String::new();
    pulldown_cmark::html::push_html(&mut out, pulldown_cmark::Parser::new_ext(md, options));
    out
}

/// The HTML of a markdown document, with the options that the viewer and the
/// exporter share: tables, strikethrough, and YAML-style metadata blocks, so
/// that front matter is metadata, not content.
pub open spec fn markdown_html_of(md: Seq<char>) -> Seq<char> {
    cmark_html(md, true, true, true)
}

/// Markdown to body HTML for export, with the viewer's options.
pub fn render_body(md: &str) -> (r: String)
    ensures
        r@ == markdown_html_of(md@),
{
    push_html_with(md, true, true, true)
}

/// Markdown to HTML as the viewer renders it, with the exporter's options.
pub fn render_to_html(content: &str) -> (r: String)
    ensures
        r@ == markdown_html_of(content@),
{
    push_html_with(content, true, true, true)
}

} // verus!
