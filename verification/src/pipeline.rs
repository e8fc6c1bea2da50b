//! Per-document orchestration: the two expansion passes, and the derivation
//! of a document's output path.
//!
//! The caller materializes the output file from the template, reads its text,
//! runs `expand_document` against the original Markdown file's path, writes
//! the result back and reports the diagnostics. All of that I/O stays with
//! the caller; the text work stands here.

use vstd::prelude::*;

use mlua::Lua;

use crate::generator::{expand_generators, generator_resolver};
use crate::scanner::expand_from;
use crate::script::{expand_scripts, script_expands, Diagnostic};

verus! {

/// The last position at or before `i` where `c` stands.
pub open spec fn rfind_at(t: Seq<char>, c: char, i: int) -> Option<int>
    decreases i + 1,
    when i < t.len()
{
    if i < 0 {
        None
    } else if t[i] == c {
        Some(i)
    } else {
        rfind_at(t, c, i - 1)
    }
}

proof fn lemma_rfind_bounds(t: Seq<char>, c: char, i: int)
    requires
        i < t.len(),
    ensures
        match rfind_at(t, c, i) {
            Some(j) => 0 <= j <= i && t[j] == c,
            None => true,
        },
    decreases i + 1,
{
    if i >= 0 && t[i] != c {
        lemma_rfind_bounds(t, c, i - 1);
    }
}

/// Finds the last occurrence of `c` in `text`, if any.
fn last_index_of(text: &str, c: char) -> (r: Option<usize>)
    ensures
        match r {
            Some(j) => rfind_at(text@, c, text@.len() - 1) == Some(j as int),
            None => rfind_at(text@, c, text@.len() - 1) is None,
        },
{
    let len = text.unicode_len();
    let mut i = len;
    while i > 0
        invariant
            0 <= i <= len,
            len == text@.len(),
            rfind_at(text@, c, len - 1) == rfind_at(text@, c, i as int - 1),
        decreases i,
    {
        i = i - 1;
        if text.get_char(i) == c {
            return Some(i);
        }
    }
    None
}

/// Where the file stem of path `p` ends: just before the last `.` of its
/// file name, unless that dot starts the name — a leading-dot name has no
/// extension — or the name has no dot at all, in which case the whole path
/// is kept.
pub open spec fn stem_end(p: Seq<char>) -> int {
    let name_start = match rfind_at(p, '/', p.len() - 1) {
        Some(j) => j + 1,
        None => 0int,
    };
    match rfind_at(p, '.', p.len() - 1) {
        Some(j) => if j > name_start {
            j
        } else {
            p.len() as int
        },
        None => p.len() as int,
    }
}

/// The output path of the document at `p`: same directory, same file stem,
/// with an `.html` extension in place of the old one.
pub open spec fn html_path_of(p: Seq<char>) -> Seq<char> {
    p.subrange(0, stem_end(p)) + ".html"@
}

/// Derives the output path for a Markdown file: the extension is replaced by
/// `.html`, in the same directory.
pub fn html_output_path(md_path: &str) -> (r: String)
    ensures
        r@ == html_path_of(md_path@),
{
    let len = md_path.unicode_len();
    proof {
        lemma_rfind_bounds(md_path@, '/', len - 1);
        lemma_rfind_bounds(md_path@, '.', len - 1);
    }
    let name_start = match last_index_of(md_path, '/') {
        Some(j) => j + 1,
        None => 0,
    };
    let end = match last_index_of(md_path, '.') {
        Some(j) => if j > name_start {
            j
        } else {
            len
        },
        None => len,
    };
    let stem = md_path.substring_char(0, end);
    let mut out = stem.to_owned();
    out.append(".html");
    proof {
        assert(out@ =~= html_path_of(md_path@));
    }
    out
}

/// A path names a Markdown source: it ends in `.md`.
pub open spec fn is_markdown_path(p: Seq<char>) -> bool {
    p.len() >= 3 && p[p.len() - 3] == '.' && p[p.len() - 2] == 'm' && p[p.len() - 1] == 'd'
}

/// Whether a discovered file is eligible for templating: only Markdown
/// sources, recognized by their `.md` extension, are processed.
pub fn is_markdown_file(path: &str) -> (r: bool)
    ensures
        r == is_markdown_path(path@),
{
    let len = path.unicode_len();
    if len < 3 {
        return false;
    }
    path.get_char(len - 3) == '.' && path.get_char(len - 2) == 'm' && path.get_char(len - 1) == 'd'
}

/// Expands one document's text: the generator pass rewrites shorthand
/// macros against the document's own source path, then the script pass
/// evaluates every macro body, fail-soft. Returns the final text and the
/// script diagnostics, in document order.
pub fn expand_document(text: &str, md_file: &str, lua: &Lua) -> (r: (String, Vec<Diagnostic>))
    ensures
        script_expands(expand_from(text@, 0, generator_resolver(md_file@)), 0, r.0@, r.1@),
{
    let pass_one = expand_generators(text, md_file);
    expand_scripts(pass_one.as_str(), lua)
}

} // verus!
