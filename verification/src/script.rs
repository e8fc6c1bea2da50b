//! The script-evaluation pass and its fail-soft policy.
//!
//! Each macro body is handed verbatim to an embedded Lua interpreter and the
//! text it returns replaces the span. A script error is never fatal: the
//! literal macro text goes back into the output and a diagnostic records the
//! 1-based line of the opening marker, the macro text and the interpreter's
//! message, so the caller can report it and carry on.

use vstd::prelude::*;

use mlua::Lua;

use crate::lines::{get_line_number, line_of};
use crate::scanner::{find_marker_from, lemma_find_marker_spec, rewrap, rewrap_macro};

verus! {

#[verifier::external_type_specification]
#[verifier::external_body]
pub struct ExLua(Lua);

/// Runs `code` as a Lua chunk and coerces its result to a string.
///
/// Relies on mlua's Lua::load and Chunk::eval: the chunk runs against the
/// interpreter's current state, so nothing is promised of which case comes
/// back; a Lua error is returned as its display text.
#[verifier::external_body]
fn lua_eval(lua: &Lua, code: &str) -> (r: Result<String, String>) {
    match lua.load(code).eval::<String>() {
        Ok(x) => Ok(x),
        Err(e) => Err(e.to_string()),
    }
}

/// Binds the Lua global `md_to_html` to the Markdown-render collaborator, so
/// macro scripts may call it by name; rendering failures surface as Lua
/// runtime errors. Returns false when the binding could not be installed.
///
/// Relies on mlua's Lua::create_function and Table::set; the closure handed
/// over only routes a string through this crate's `md_to_html`.
#[verifier::external_body]
pub fn init_lua(lua: &Lua) -> (ok: bool) {
    let host_render = lua.create_function(|_, markdown_text: String| {
        match crate::render::md_to_html(markdown_text.as_str()) {
            Ok(html) => Ok(html),
            Err(e) => Err(mlua::Error::RuntimeError(e)),
        }
    });
    match host_render {
        Ok(f) => lua.globals().set("md_to_html", f).is_ok(),
        Err(_) => false,
    }
}

/// What the fail-soft policy records of one failed macro: where it stood,
/// its literal text, and the interpreter's message.
pub struct Diagnostic {
    /// 1-based line of the macro's opening marker in the pass's input text.
    pub line: usize,
    /// The literal macro text, markers included.
    pub macro_text: String,
    /// The interpreter's error message.
    pub message: String,
}

/// How one macro fared: a replacement string, or the literal macro text to
/// echo back together with a diagnostic.
pub enum ExpansionOutcome {
    Expanded(String),
    Failed(String, Diagnostic),
}

/// Evaluates one macro body against the interpreter. On success the result
/// text stands; on failure the literal macro text is echoed back, with a
/// diagnostic carrying the given line number. Script errors are recovered
/// here, never raised.
pub fn evaluate_lua_macro(code: &str, lua: &Lua, line: usize) -> (r: ExpansionOutcome)
    ensures
        match r {
            ExpansionOutcome::Expanded(_) => true,
            ExpansionOutcome::Failed(text, d) => text@ == rewrap(code@) && d.line == line
                && d.macro_text@ == rewrap(code@),
        },
{
    match lua_eval(lua, code) {
        Ok(x) => ExpansionOutcome::Expanded(x),
        Err(message) => {
            let text = rewrap_macro(code);
            let macro_text = rewrap_macro(code);
            ExpansionOutcome::Failed(text, Diagnostic { line, macro_text, message })
        },
    }
}

/// A diagnostic fits the span `(s, e)` of `t`: it cites the line of the
/// opening marker and the span's literal macro text.
pub open spec fn diag_for(t: Seq<char>, s: int, e: int, d: Diagnostic) -> bool {
    &&& d.line == line_of(t, s)
    &&& d.macro_text@ == rewrap(t.subrange(s + 2, e))
}

/// The script pass over `t` from cursor `c`: holds of `(out, diags)` exactly
/// when each span was either replaced by some interpreter answer, or — on a
/// script error — echoed back verbatim with a fitting diagnostic appended,
/// left to right.
pub open spec fn script_expands(
    t: Seq<char>,
    c: int,
    out: Seq<char>,
    diags: Seq<Diagnostic>,
) -> bool
    decreases t.len() - c,
    when 0 <= c <= t.len()
    via script_expands_decreases
{
    match find_marker_from(t, '{', c) {
        None => out == t.subrange(c, t.len() as int) && diags == Seq::<Diagnostic>::empty(),
        Some(s) => match find_marker_from(t, '}', s + 2) {
            None => out == t.subrange(c, t.len() as int) && diags == Seq::<
                Diagnostic,
            >::empty(),
            Some(e) => {
                ||| exists|rep: String|
                    #![trigger rep@]
                    {
                        &&& s - c + rep@.len() <= out.len()
                        &&& out.subrange(0, s - c) == t.subrange(c, s)
                        &&& out.subrange(s - c, s - c + rep@.len()) == rep@
                        &&& script_expands(t, e + 2, out.skip(s - c + rep@.len()), diags)
                    }
                ||| {
                    let fallback = rewrap(t.subrange(s + 2, e));
                    &&& diags.len() >= 1
                    &&& diag_for(t, s, e, diags[0])
                    &&& s - c + fallback.len() <= out.len()
                    &&& out.subrange(0, s - c) == t.subrange(c, s)
                    &&& out.subrange(s - c, s - c + fallback.len()) == fallback
                    &&& script_expands(
                        t,
                        e + 2,
                        out.skip(s - c + fallback.len()),
                        diags.drop_first(),
                    )
                }
            },
        },
    }
}

#[via_fn]
proof fn script_expands_decreases(t: Seq<char>, c: int, out: Seq<char>, diags: Seq<Diagnostic>) {
    lemma_find_marker_spec(t, '{', c);
    if let Some(s) = find_marker_from(t, '{', c) {
        lemma_find_marker_spec(t, '}', s + 2);
    }
}

/// A script pass that replaced the first span of `t` after `c` with an
/// interpreter answer and expanded the rest is a script pass over the whole
/// suffix, with the same diagnostics.
proof fn lemma_script_step_ok(
    t: Seq<char>,
    c: int,
    s: int,
    e: int,
    rep: String,
    rest: Seq<char>,
    rd: Seq<Diagnostic>,
)
    requires
        0 <= c <= t.len(),
        find_marker_from(t, '{', c) == Some(s),
        find_marker_from(t, '}', s + 2) == Some(e),
        script_expands(t, e + 2, rest, rd),
    ensures
        script_expands(t, c, t.subrange(c, s) + rep@ + rest, rd),
{
    lemma_find_marker_spec(t, '{', c);
    lemma_find_marker_spec(t, '}', s + 2);
    let out = t.subrange(c, s) + rep@ + rest;
    assert(out.subrange(0, s - c) =~= t.subrange(c, s));
    assert(out.subrange(s - c, s - c + rep@.len()) =~= rep@);
    assert(out.skip(s - c + rep@.len()) =~= rest);
}

/// A script pass that echoed the first span of `t` after `c` back verbatim,
/// with a fitting diagnostic, and expanded the rest is a script pass over the
/// whole suffix, with that diagnostic put first.
proof fn lemma_script_step_err(
    t: Seq<char>,
    c: int,
    s: int,
    e: int,
    d: Diagnostic,
    rest: Seq<char>,
    rd: Seq<Diagnostic>,
)
    requires
        0 <= c <= t.len(),
        find_marker_from(t, '{', c) == Some(s),
        find_marker_from(t, '}', s + 2) == Some(e),
        diag_for(t, s, e, d),
        script_expands(t, e + 2, rest, rd),
    ensures
        script_expands(t, c, t.subrange(c, s) + rewrap(t.subrange(s + 2, e)) + rest, seq![d] + rd),
{
    lemma_find_marker_spec(t, '{', c);
    lemma_find_marker_spec(t, '}', s + 2);
    let fallback = rewrap(t.subrange(s + 2, e));
    let out = t.subrange(c, s) + fallback + rest;
    let diags = seq![d] + rd;
    assert(diags[0] == d);
    assert(diags.drop_first() =~= rd);
    assert(out.subrange(0, s - c) =~= t.subrange(c, s));
    assert(out.subrange(s - c, s - c + fallback.len()) =~= fallback);
    assert(out.skip(s - c + fallback.len()) =~= rest);
}

/// Idempotence of no-ops, for the script pass: text without an opening
/// marker can only come back unchanged, with no diagnostics.
pub proof fn lemma_no_macros_script_identity(t: Seq<char>, out: Seq<char>, diags: Seq<Diagnostic>)
    requires
        script_expands(t, 0, out, diags),
        forall|k: int|
            0 <= k && k + 2 <= t.len() ==> !((#[trigger] t[k]) == '{' && t[k + 1] == '{'),
    ensures
        out == t,
        diags == Seq::<Diagnostic>::empty(),
{
    lemma_find_marker_spec(t, '{', 0);
    assert(t.subrange(0, t.len() as int) =~= t);
}

/// Unterminated-marker safety, for the script pass: when the first opening
/// marker is never closed, the text can only come back unchanged, with no
/// diagnostics.
pub proof fn lemma_unterminated_script_identity(
    t: Seq<char>,
    out: Seq<char>,
    diags: Seq<Diagnostic>,
    s: int,
)
    requires
        script_expands(t, 0, out, diags),
        find_marker_from(t, '{', 0) == Some(s),
        find_marker_from(t, '}', s + 2) is None,
    ensures
        out == t,
        diags == Seq::<Diagnostic>::empty(),
{
    assert(t.subrange(0, t.len() as int) =~= t);
}

/// The script-evaluation pass over a whole text, with the fail-soft policy:
/// each macro body is evaluated in document order; a failing one is left
/// verbatim in the output and adds one diagnostic, in the same order.
pub fn expand_scripts(text: &str, lua: &Lua) -> (r: (String, Vec<Diagnostic>))
    ensures
        script_expands(text@, 0, r.0@, r.1@),
{
    let len = text.unicode_len();
    let mut result = String::new();
    let mut diags: Vec<Diagnostic> = Vec::new();
    let mut cursor: usize = 0;
    proof {
        assert(result@ =~= Seq::<char>::empty());
        assert(diags@ =~= Seq::<Diagnostic>::empty());
    }
    loop
        invariant
            cursor <= len,
            len == text@.len(),
            forall|rest: Seq<char>, rd: Seq<Diagnostic>|
                #[trigger] script_expands(text@, cursor as int, rest, rd) ==> script_expands(
                    text@,
                    0,
                    result@ + rest,
                    diags@ + rd,
                ),
        decreases len - cursor,
    {
        let found_open = crate::scanner::find_marker(text, '{', cursor);
        match found_open {
            None => {
                let tail = text.substring_char(cursor, len);
                result.append(tail);
                proof {
                    assert(script_expands(
                        text@,
                        cursor as int,
                        tail@,
                        Seq::<Diagnostic>::empty(),
                    ));
                    assert(diags@ + Seq::<Diagnostic>::empty() =~= diags@);
                }
                return (result, diags);
            },
            Some(s) => {
                proof {
                    lemma_find_marker_spec(text@, '{', cursor as int);
                }
                let found_close = crate::scanner::find_marker(text, '}', s + 2);
                match found_close {
                    None => {
                        let tail = text.substring_char(cursor, len);
                        result.append(tail);
                        proof {
                            assert(script_expands(
                                text@,
                                cursor as int,
                                tail@,
                                Seq::<Diagnostic>::empty(),
                            ));
                            assert(diags@ + Seq::<Diagnostic>::empty() =~= diags@);
                        }
                        return (result, diags);
                    },
                    Some(e) => {
                        proof {
                            lemma_find_marker_spec(text@, '}', s + 2);
                        }
                        let inner = text.substring_char(s + 2, e);
                        let line = get_line_number(text, s);
                        let gap = text.substring_char(cursor, s);
                        let ghost old_result: Seq<char> = result@;
                        let ghost old_diags: Seq<Diagnostic> = diags@;
                        let outcome = evaluate_lua_macro(inner, lua, line);
                        match outcome {
                            ExpansionOutcome::Expanded(rep) => {
                                result.append(gap);
                                result.append(rep.as_str());
                                proof {
                                    let ci = cursor as int;
                                    let si = s as int;
                                    let ei = e as int;
                                    assert forall|rest: Seq<char>, rd: Seq<Diagnostic>|
                                        #[trigger] script_expands(
                                            text@,
                                            ei + 2,
                                            rest,
                                            rd,
                                        ) implies script_expands(
                                        text@,
                                        0,
                                        result@ + rest,
                                        diags@ + rd,
                                    ) by {
                                        let spliced = text@.subrange(ci, si) + rep@ + rest;
                                        lemma_script_step_ok(text@, ci, si, ei, rep, rest, rd);
                                        assert(result@ + rest =~= old_result + spliced);
                                    }
                                }
                                cursor = e + 2;
                            },
                            ExpansionOutcome::Failed(fallback, d) => {
                                result.append(gap);
                                result.append(fallback.as_str());
                                let ghost dg: Diagnostic = d;
                                diags.push(d);
                                proof {
                                    let ci = cursor as int;
                                    let si = s as int;
                                    let ei = e as int;
                                    assert(fallback@ == rewrap(text@.subrange(si + 2, ei)));
                                    assert(diag_for(text@, si, ei, dg));
                                    assert forall|rest: Seq<char>, rd: Seq<Diagnostic>|
                                        #[trigger] script_expands(
                                            text@,
                                            ei + 2,
                                            rest,
                                            rd,
                                        ) implies script_expands(
                                        text@,
                                        0,
                                        result@ + rest,
                                        diags@ + rd,
                                    ) by {
                                        let spliced = text@.subrange(ci, si) + rewrap(
                                            text@.subrange(si + 2, ei),
                                        ) + rest;
                                        lemma_script_step_err(text@, ci, si, ei, dg, rest, rd);
                                        assert(result@ + rest =~= old_result + spliced);
                                        assert(diags@ + rd =~= old_diags + (seq![dg] + rd));
                                    }
                                }
                                cursor = e + 2;
                            },
                        }
                    },
                }
            },
        }
    }
}

} // verus!
