//! The Markdown-render collaborator.
//!
//! Scripts reach it through the interpreter binding installed by
//! `crate::script::init_lua`; the host side of that binding is here.

use vstd::prelude::*;

verus! {

/// What rendering a Markdown text gives: the HTML on success, the renderer's
/// message on failure. Rendering is a pure function of the text — the options
/// are fixed — so its outcome has a name rather than a page-long statement.
pub uninterp spec fn rendered(s: Seq<char>) -> Result<Seq<char>, Seq<char>>;

/// Converts a Markdown string to an HTML string.
///
/// Relies on markdown::to_html_with_options, with default CommonMark
/// constructs plus frontmatter and math (block and inline) enabled: a pure
/// function of its input, whose outcome is named `rendered`.
#[verifier::external_body]
pub fn md_to_html(markdown_text: &str) -> (r: Result<String, String>)
    ensures
        match (r, rendered(markdown_text@)) {
            (Ok(h), Ok(hs)) => h@ == hs,
            (Err(m), Err(ms)) => m@ == ms,
            _ => false,
        },
{
    let mut constructs = markdown::Constructs::default();
    constructs.frontmatter = true;
    constructs.math_flow = true;
    constructs.math_text = true;
    let mut parse_options = markdown::ParseOptions::default();
    parse_options.constructs = constructs;
    let mut options = markdown::Options::default();
    options.parse = parse_options;
    match markdown::to_html_with_options(markdown_text, &options) {
        Ok(h) => Ok(h),
        Err(e) => Err(e.to_string()),
    }
}

} // verus!
