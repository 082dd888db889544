//! Conversion of markdown to HTML by `pulldown-cmark`.

use vstd::prelude::*;

verus! {

/// The HTML that `pulldown-cmark` gives for a markdown text.
pub uninterp spec fn markdown_html(markdown: Seq<char>) -> Seq<char>;

/// `pulldown_cmark::html::push_html`, on the events that
/// `pulldown_cmark::Parser::new` reads from the text, writes the HTML of the
/// text; it depends on the text alone.
#[verifier::external_body]
pub(crate) fn to_html(markdown: &str) -> (html: String)
    ensures
        html@ == markdown_html(markdown@),
{
    let mut html = String::new();
    pulldown_cmark::html::push_html(&mut html, pulldown_cmark::Parser::new(markdown));
    html
}

} // verus!
