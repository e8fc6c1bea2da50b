//! The generator-shorthand pass.
//!
//! The inner text of a macro, once trimmed, may be the shorthand
//! `markdown content` (render the document the macro belongs to) or
//! `markdown <field>` (look one of its frontmatter fields up). Either is
//! rewritten into a complete script macro bound to the document's source
//! path, to be picked up by the script-evaluation pass; anything else is
//! passed through unchanged, re-wrapped in its markers.

use vstd::prelude::*;

use crate::scanner::{evaluate_macros, expand_from, lemma_expands_via_unique, rewrap};

verus! {

/// The whitespace the shorthand matcher trims: blanks, tabs and line ends.
pub open spec fn is_space(c: char) -> bool {
    c == ' ' || c == '\t' || c == '\n' || c == '\r'
}

/// `s` with its leading whitespace dropped.
pub open spec fn trim_start_spec(s: Seq<char>) -> Seq<char>
    decreases s.len(),
{
    if s.len() > 0 && is_space(s[0]) {
        trim_start_spec(s.drop_first())
    } else {
        s
    }
}

/// `s` with its trailing whitespace dropped.
pub open spec fn trim_end_spec(s: Seq<char>) -> Seq<char>
    decreases s.len(),
{
    if s.len() > 0 && is_space(s.last()) {
        trim_end_spec(s.drop_last())
    } else {
        s
    }
}

/// `s` with leading and trailing whitespace dropped.
pub open spec fn trim_spec(s: Seq<char>) -> Seq<char> {
    trim_end_spec(trim_start_spec(s))
}

fn is_space_char(c: char) -> (r: bool)
    ensures
        r == is_space(c),
{
    c == ' ' || c == '\t' || c == '\n' || c == '\r'
}

/// Drops leading and trailing whitespace, as the shorthand matcher sees it.
fn trim(s: &str) -> (r: &str)
    ensures
        r@ == trim_spec(s@),
{
    let len = s.unicode_len();
    proof {
        assert(s@.subrange(0, len as int) =~= s@);
    }
    let mut start: usize = 0;
    while start < len && is_space_char(s.get_char(start))
        invariant
            0 <= start <= len,
            len == s@.len(),
            trim_start_spec(s@) == trim_start_spec(s@.subrange(start as int, len as int)),
        decreases len - start,
    {
        proof {
            let cur = s@.subrange(start as int, len as int);
            assert(cur.drop_first() =~= s@.subrange(start as int + 1, len as int));
        }
        start = start + 1;
    }
    proof {
        let cur = s@.subrange(start as int, len as int);
        assert(trim_start_spec(cur) == cur);
    }
    let mut end: usize = len;
    while end > start && is_space_char(s.get_char(end - 1))
        invariant
            start <= end <= len,
            len == s@.len(),
            trim_start_spec(s@) == s@.subrange(start as int, len as int),
            trim_end_spec(s@.subrange(start as int, len as int)) == trim_end_spec(
                s@.subrange(start as int, end as int),
            ),
        decreases end,
    {
        proof {
            let cur = s@.subrange(start as int, end as int);
            assert(cur.drop_last() =~= s@.subrange(start as int, end as int - 1));
        }
        end = end - 1;
    }
    proof {
        let cur = s@.subrange(start as int, end as int);
        assert(trim_end_spec(cur) == cur);
    }
    s.substring_char(start, end)
}

/// Character-by-character string equality, as views.
fn str_eq(a: &str, b: &str) -> (r: bool)
    ensures
        r == (a@ == b@),
{
    let alen = a.unicode_len();
    let blen = b.unicode_len();
    if alen != blen {
        return false;
    }
    let mut i: usize = 0;
    while i < alen
        invariant
            0 <= i <= alen,
            alen == a@.len(),
            alen == b@.len(),
            forall|k: int| 0 <= k < i ==> a@[k] == b@[k],
        decreases alen - i,
    {
        if a.get_char(i) != b.get_char(i) {
            return false;
        }
        i = i + 1;
    }
    proof {
        assert(a@ =~= b@);
    }
    true
}

/// Whether `s` begins with `prefix`, as views.
fn str_starts_with(s: &str, prefix: &str) -> (r: bool)
    ensures
        r == (s@.len() >= prefix@.len() && s@.subrange(0, prefix@.len() as int) == prefix@),
{
    let plen = prefix.unicode_len();
    if s.unicode_len() < plen {
        return false;
    }
    let head = s.substring_char(0, plen);
    str_eq(head, prefix)
}

/// The script macro that renders the document at `path`.
pub open spec fn md_content_script(path: Seq<char>) -> Seq<char> {
    "{{ return md_to_html(\""@ + path + "\") }}"@
}

/// The script macro that looks the frontmatter field `field` of the document
/// at `path` up.
pub open spec fn md_field_script(path: Seq<char>, field: Seq<char>) -> Seq<char> {
    "{{ return get_field(\""@ + path + "\", \""@ + field + "\") }}"@
}

/// What the generator pass makes of one macro's inner text, in priority
/// order: the exact shorthand `markdown content` becomes a render of the
/// context document; any other inner text starting with `markdown ` names a
/// frontmatter field of it; anything else is inert and is re-wrapped
/// unchanged.
pub open spec fn generator_expansion(code: Seq<char>, path: Seq<char>) -> Seq<char> {
    let g = trim_spec(code);
    if g == "markdown content"@ {
        md_content_script(path)
    } else if g.len() >= 9 && g.subrange(0, 9) == "markdown "@ {
        md_field_script(path, g.skip(9))
    } else {
        rewrap(code)
    }
}

/// The generator pass's resolver, as a mathematical function of one macro's
/// inner text.
pub open spec fn generator_resolver(path: Seq<char>) -> spec_fn(Seq<char>) -> Seq<char> {
    |code: Seq<char>| generator_expansion(code, path)
}

/// Rewrites one macro's inner text under the generator-shorthand grammar,
/// bound to the document at `md_file`. Never fails: unrecognized shorthand
/// comes back re-wrapped, not as an error.
pub fn evaluate_generator_macro(code: &str, md_file: &str) -> (r: String)
    ensures
        r@ == generator_expansion(code@, md_file@),
{
    let generator = trim(code);
    if str_eq(generator, "markdown content") {
        let mut out = String::from_str("{{ return md_to_html(\"");
        out.append(md_file);
        out.append("\") }}");
        proof {
            assert(out@ =~= md_content_script(md_file@));
        }
        out
    } else if str_starts_with(generator, "markdown ") {
        proof {
            reveal_strlit("markdown ");
        }
        let glen = generator.unicode_len();
        let field = generator.substring_char(9, glen);
        let mut out = String::from_str("{{ return get_field(\"");
        out.append(md_file);
        out.append("\", \"");
        out.append(field);
        out.append("\") }}");
        proof {
            assert(field@ =~= trim_spec(code@).skip(9));
            assert(out@ =~= md_field_script(md_file@, trim_spec(code@).skip(9)));
        }
        out
    } else {
        proof {
            reveal_strlit("markdown ");
        }
        crate::scanner::rewrap_macro(code)
    }
}

/// The generator pass over a whole text: every macro span's inner text is
/// rewritten under the shorthand grammar, bound to the document at
/// `md_file`; the result is exactly the one `expand_from` describes.
pub fn expand_generators(text: &str, md_file: &str) -> (res: String)
    ensures
        res@ == expand_from(text@, 0, generator_resolver(md_file@)),
{
    let resolve = |x: &str| -> (r: String)
        ensures
            r@ == generator_expansion(x@, md_file@),
        { evaluate_generator_macro(x, md_file) };
    let res = evaluate_macros(text, resolve);
    proof {
        lemma_expands_via_unique(
            resolve,
            generator_resolver(md_file@),
            text@,
            0,
            res@,
        );
    }
    res
}

} // verus!
