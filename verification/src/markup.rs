//! Markdown pages: their HTML comes from the `markdown` crate.

use vstd::prelude::*;
use vstd::string::*;
use crate::cache::{HTMLFile, HTMLFileView};

verus! {

/// The HTML that the `markdown` crate makes of a Markdown text, with its
/// options for GitHub flavoured Markdown.
pub uninterp spec fn markdown_html(text: Seq<char>) -> Seq<char>;

/// Calls `markdown::to_html_with_options` with `markdown::Options::gfm()`.
///
/// Trusted: the result is a function of the text alone, named
/// `markdown_html`. With these options MDX is switched off, and the crate
/// documents that the call then returns no error.
#[verifier::external_body]
fn markdown_to_html(text: &str) -> (html: String)
    ensures
        html@ == markdown_html(text@),
{
    markdown::to_html_with_options(text, &markdown::Options::gfm()).unwrap()
}

/// A page without dependencies that holds `content`.
pub open spec fn plain_page(content: Seq<char>) -> HTMLFileView {
    HTMLFileView { content, dependencies: Seq::<Seq<char>>::empty() }
}

/// The page that a Markdown file of the text `text` renders to. Markdown
/// files hold no directives, so the page has no dependencies.
pub fn read_markdown_file(text: &str) -> (file: HTMLFile)
    ensures
        file@ == plain_page(markdown_html(text@)),
{
    let file = HTMLFile { content: markdown_to_html(text), dependencies: Vec::new() };
    assert(file@.dependencies =~= Seq::<Seq<char>>::empty());
    file
}

/// The HTML of a Markdown file of the text `text` that is asked for by
/// itself.
pub fn process_markdown_file(text: &str) -> (html: String)
    ensures
        html@ == markdown_html(text@),
{
    markdown_to_html(text)
}

} // verus!
