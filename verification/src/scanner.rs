//! Locating macro spans and running one scan-and-replace pass.
//!
//! A macro span is bounded by a literal `{{` and the nearest following `}}`;
//! the first `}}` after a `{{` always closes it, so macros never nest. A pass
//! walks the text left to right, resolves each span's inner text through a
//! callback, and splices the replacement between the untouched gaps. An
//! unterminated opening marker ends the pass with the rest of the text kept
//! verbatim.

use vstd::prelude::*;

verus! {

/// The first position at or after `from` where two consecutive `m`
/// characters stand.
pub open spec fn find_marker_from(t: Seq<char>, m: char, from: int) -> Option<int>
    decreases t.len() - from,
    when 0 <= from
{
    if from + 2 > t.len() {
        None
    } else if t[from] == m && t[from + 1] == m {
        Some(from)
    } else {
        find_marker_from(t, m, from + 1)
    }
}

/// What a `find_marker_from` answer means: a hit is the leftmost marker at
/// or after `from`, and a miss says there is none.
pub proof fn lemma_find_marker_spec(t: Seq<char>, m: char, from: int)
    requires
        0 <= from,
    ensures
        match find_marker_from(t, m, from) {
            Some(j) => from <= j && j + 2 <= t.len() && t[j] == m && t[j + 1] == m && forall|
                k: int,
            |
                from <= k < j ==> !((#[trigger] t[k]) == m && t[k + 1] == m),
            None => forall|k: int|
                from <= k && k + 2 <= t.len() ==> !((#[trigger] t[k]) == m && t[k + 1] == m),
        },
    decreases t.len() - from,
{
    if from + 2 > t.len() {
    } else if t[from] == m && t[from + 1] == m {
    } else {
        lemma_find_marker_spec(t, m, from + 1);
    }
}

/// Finds the first position at or after `from` where the character `m`
/// stands twice in a row, as `str::find` on a two-character needle would.
pub fn find_marker(text: &str, m: char, from: usize) -> (r: Option<usize>)
    requires
        from <= text@.len(),
    ensures
        match r {
            Some(j) => find_marker_from(text@, m, from as int) == Some(j as int),
            None => find_marker_from(text@, m, from as int) is None,
        },
{
    let len = text.unicode_len();
    let mut i = from;
    loop
        invariant
            from <= i <= len,
            len == text@.len(),
            find_marker_from(text@, m, from as int) == find_marker_from(text@, m, i as int),
        decreases len - i,
    {
        if len - i < 2 {
            return None;
        }
        if text.get_char(i) == m && text.get_char(i + 1) == m {
            return Some(i);
        }
        i = i + 1;
    }
}

/// One full pass over `t` from cursor `c` with a resolver `r` given as a
/// mathematical function: each span's inner text is replaced by `r`'s answer,
/// the gaps are kept, and a missing closing marker keeps the rest verbatim.
pub open spec fn expand_from(t: Seq<char>, c: int, r: spec_fn(Seq<char>) -> Seq<char>) -> Seq<char>
    decreases t.len() - c,
    when 0 <= c <= t.len()
    via expand_from_decreases
{
    match find_marker_from(t, '{', c) {
        None => t.subrange(c, t.len() as int),
        Some(s) => match find_marker_from(t, '}', s + 2) {
            None => t.subrange(c, t.len() as int),
            Some(e) => t.subrange(c, s) + r(t.subrange(s + 2, e)) + expand_from(t, e + 2, r),
        },
    }
}

#[via_fn]
proof fn expand_from_decreases(t: Seq<char>, c: int, r: spec_fn(Seq<char>) -> Seq<char>) {
    lemma_find_marker_spec(t, '{', c);
    if let Some(s) = find_marker_from(t, '{', c) {
        lemma_find_marker_spec(t, '}', s + 2);
    }
}

/// One full pass over `t` from cursor `c` with an executable resolver `f`:
/// holds of `out` exactly when `out` can be produced by replacing each span's
/// inner text with an answer `f` allows for it, left to right.
pub open spec fn expands_via<F: Fn(&str) -> String>(
    f: F,
    t: Seq<char>,
    c: int,
    out: Seq<char>,
) -> bool
    decreases t.len() - c,
    when 0 <= c <= t.len()
    via expands_via_decreases::<F>
{
    match find_marker_from(t, '{', c) {
        None => out == t.subrange(c, t.len() as int),
        Some(s) => match find_marker_from(t, '}', s + 2) {
            None => out == t.subrange(c, t.len() as int),
            Some(e) => exists|inner: &str, rep: String|
                #![trigger call_ensures(f, (inner,), rep)]
                {
                    &&& inner@ == t.subrange(s + 2, e)
                    &&& call_ensures(f, (inner,), rep)
                    &&& s - c + rep@.len() <= out.len()
                    &&& out.subrange(0, s - c) == t.subrange(c, s)
                    &&& out.subrange(s - c, s - c + rep@.len()) == rep@
                    &&& expands_via(f, t, e + 2, out.skip(s - c + rep@.len()))
                },
        },
    }
}

#[via_fn]
proof fn expands_via_decreases<F: Fn(&str) -> String>(f: F, t: Seq<char>, c: int, out: Seq<char>) {
    lemma_find_marker_spec(t, '{', c);
    if let Some(s) = find_marker_from(t, '{', c) {
        lemma_find_marker_spec(t, '}', s + 2);
    }
}

/// A pass that resolved the first span of `t` after `c` to `rep` and expanded
/// the rest is a pass over the whole suffix.
proof fn lemma_expands_via_step<F: Fn(&str) -> String>(
    f: F,
    t: Seq<char>,
    c: int,
    s: int,
    e: int,
    inner: &str,
    rep: String,
    rest: Seq<char>,
)
    requires
        0 <= c <= t.len(),
        find_marker_from(t, '{', c) == Some(s),
        find_marker_from(t, '}', s + 2) == Some(e),
        inner@ == t.subrange(s + 2, e),
        call_ensures(f, (inner,), rep),
        expands_via(f, t, e + 2, rest),
    ensures
        expands_via(f, t, c, t.subrange(c, s) + rep@ + rest),
{
    lemma_find_marker_spec(t, '{', c);
    lemma_find_marker_spec(t, '}', s + 2);
    let out = t.subrange(c, s) + rep@ + rest;
    assert(out.subrange(0, s - c) =~= t.subrange(c, s));
    assert(out.subrange(s - c, s - c + rep@.len()) =~= rep@);
    assert(out.skip(s - c + rep@.len()) =~= rest);
}

/// The literal macro text whose inner text is `code`: the markers around it.
pub open spec fn rewrap(code: Seq<char>) -> Seq<char> {
    "{{"@ + code + "}}"@
}

/// Wraps inner text back into a literal macro, markers included.
pub fn rewrap_macro(code: &str) -> (r: String)
    ensures
        r@ == rewrap(code@),
{
    let mut out = String::from_str("{{");
    out.append(code);
    out.append("}}");
    proof {
        assert(out@ =~= rewrap(code@));
    }
    out
}

/// When the resolver is a function — every answer it may give for an inner
/// text is one fixed value — a pass has exactly one possible output, the one
/// `expand_from` describes.
pub proof fn lemma_expands_via_unique<F: Fn(&str) -> String>(
    f: F,
    r: spec_fn(Seq<char>) -> Seq<char>,
    t: Seq<char>,
    c: int,
    out: Seq<char>,
)
    requires
        0 <= c <= t.len(),
        expands_via(f, t, c, out),
        forall|s: &str, o: String| #[trigger] call_ensures(f, (s,), o) ==> o@ == r(s@),
    ensures
        out == expand_from(t, c, r),
    decreases t.len() - c,
{
    lemma_find_marker_spec(t, '{', c);
    match find_marker_from(t, '{', c) {
        None => {},
        Some(s) => {
            lemma_find_marker_spec(t, '}', s + 2);
            match find_marker_from(t, '}', s + 2) {
                None => {},
                Some(e) => {
                    let (inner, rep) = choose|inner: &str, rep: String|
                        #![trigger call_ensures(f, (inner,), rep)]
                        {
                            &&& inner@ == t.subrange(s + 2, e)
                            &&& call_ensures(f, (inner,), rep)
                            &&& s - c + rep@.len() <= out.len()
                            &&& out.subrange(0, s - c) == t.subrange(c, s)
                            &&& out.subrange(s - c, s - c + rep@.len()) == rep@
                            &&& expands_via(f, t, e + 2, out.skip(s - c + rep@.len()))
                        };
                    let rest = out.skip(s - c + rep@.len());
                    lemma_expands_via_unique(f, r, t, e + 2, rest);
                    assert(out =~= out.subrange(0, s - c) + out.subrange(
                        s - c,
                        s - c + rep@.len(),
                    ) + rest);
                },
            }
        },
    }
}

/// Idempotence of no-ops: text without an opening marker comes back from a
/// pass unchanged, whatever the resolver.
pub proof fn lemma_no_macros_identity(t: Seq<char>, r: spec_fn(Seq<char>) -> Seq<char>)
    requires
        forall|k: int|
            0 <= k && k + 2 <= t.len() ==> !((#[trigger] t[k]) == '{' && t[k + 1] == '{'),
    ensures
        expand_from(t, 0, r) == t,
{
    lemma_find_marker_spec(t, '{', 0);
    assert(t.subrange(0, t.len() as int) =~= t);
}

/// Idempotence of no-ops, for an executable resolver: a pass over text
/// without an opening marker can only return it unchanged.
pub proof fn lemma_no_macros_pass_identity<F: Fn(&str) -> String>(
    f: F,
    t: Seq<char>,
    out: Seq<char>,
)
    requires
        expands_via(f, t, 0, out),
        forall|k: int|
            0 <= k && k + 2 <= t.len() ==> !((#[trigger] t[k]) == '{' && t[k + 1] == '{'),
    ensures
        out == t,
{
    lemma_find_marker_spec(t, '{', 0);
    assert(t.subrange(0, t.len() as int) =~= t);
}

/// Unterminated-marker safety: when the first opening marker is never
/// closed, a pass can only return the text unchanged.
pub proof fn lemma_unterminated_pass_identity<F: Fn(&str) -> String>(
    f: F,
    t: Seq<char>,
    out: Seq<char>,
    s: int,
)
    requires
        expands_via(f, t, 0, out),
        find_marker_from(t, '{', 0) == Some(s),
        find_marker_from(t, '}', s + 2) is None,
    ensures
        out == t,
{
    assert(t.subrange(0, t.len() as int) =~= t);
}

/// Ordering: with two sequential well-formed macros and nothing after them,
/// the pass output is the first gap, the first span's replacement, the
/// middle gap, the second span's replacement, then the tail — strictly in
/// document order.
pub proof fn lemma_two_macros_ordering(
    t: Seq<char>,
    r: spec_fn(Seq<char>) -> Seq<char>,
    s1: int,
    e1: int,
    s2: int,
    e2: int,
)
    requires
        find_marker_from(t, '{', 0) == Some(s1),
        find_marker_from(t, '}', s1 + 2) == Some(e1),
        find_marker_from(t, '{', e1 + 2) == Some(s2),
        find_marker_from(t, '}', s2 + 2) == Some(e2),
        find_marker_from(t, '{', e2 + 2) is None,
    ensures
        expand_from(t, 0, r) == t.subrange(0, s1) + r(t.subrange(s1 + 2, e1)) + t.subrange(
            e1 + 2,
            s2,
        ) + r(t.subrange(s2 + 2, e2)) + t.subrange(e2 + 2, t.len() as int),
{
    lemma_find_marker_spec(t, '{', 0);
    lemma_find_marker_spec(t, '}', s1 + 2);
    lemma_find_marker_spec(t, '{', e1 + 2);
    lemma_find_marker_spec(t, '}', s2 + 2);
    assert(expand_from(t, e2 + 2, r) == t.subrange(e2 + 2, t.len() as int));
    assert(expand_from(t, e1 + 2, r) == t.subrange(e1 + 2, s2) + r(t.subrange(s2 + 2, e2))
        + t.subrange(e2 + 2, t.len() as int));
    assert(t.subrange(0, s1) + r(t.subrange(s1 + 2, e1)) + (t.subrange(e1 + 2, s2) + r(
        t.subrange(s2 + 2, e2),
    ) + t.subrange(e2 + 2, t.len() as int)) =~= t.subrange(0, s1) + r(t.subrange(s1 + 2, e1))
        + t.subrange(e1 + 2, s2) + r(t.subrange(s2 + 2, e2)) + t.subrange(
        e2 + 2,
        t.len() as int,
    ));
}

/// Given the text of a file and a resolver, finds each macro span and
/// substitutes the resolver's answer for it. Returns the text of one full
/// pass; an unterminated opening marker leaves the rest of the text
/// untouched.
pub fn evaluate_macros<F: Fn(&str) -> String>(text: &str, callback: F) -> (res: String)
    requires
        forall|s: &str| #[trigger] call_requires(callback, (s,)),
    ensures
        expands_via(callback, text@, 0, res@),
{
    let len = text.unicode_len();
    let mut result = String::new();
    let mut cursor: usize = 0;
    proof {
        assert(result@ =~= Seq::<char>::empty());
    }
    loop
        invariant
            cursor <= len,
            len == text@.len(),
            forall|s: &str| #[trigger] call_requires(callback, (s,)),
            forall|rest: Seq<char>|
                expands_via(callback, text@, cursor as int, rest) ==> expands_via(
                    callback,
                    text@,
                    0,
                    #[trigger] (result@ + rest),
                ),
        decreases len - cursor,
    {
        let found_open = find_marker(text, '{', cursor);
        match found_open {
            None => {
                let tail = text.substring_char(cursor, len);
                result.append(tail);
                proof {
                    assert(expands_via(callback, text@, cursor as int, tail@));
                }
                return result;
            },
            Some(s) => {
                proof {
                    lemma_find_marker_spec(text@, '{', cursor as int);
                }
                let found_close = find_marker(text, '}', s + 2);
                match found_close {
                    None => {
                        let tail = text.substring_char(cursor, len);
                        result.append(tail);
                        proof {
                            assert(expands_via(callback, text@, cursor as int, tail@));
                        }
                        return result;
                    },
                    Some(e) => {
                        proof {
                            lemma_find_marker_spec(text@, '}', s + 2);
                        }
                        let inner = text.substring_char(s + 2, e);
                        let rep = callback(inner);
                        let gap = text.substring_char(cursor, s);
                        let ghost old_result: Seq<char> = result@;
                        result.append(gap);
                        result.append(rep.as_str());
                        proof {
                            assert forall|rest: Seq<char>|
                                expands_via(
                                    callback,
                                    text@,
                                    (e + 2) as int,
                                    rest,
                                ) implies expands_via(
                                callback,
                                text@,
                                0,
                                #[trigger] (result@ + rest),
                            ) by {
                                let ci = cursor as int;
                                let si = s as int;
                                let ei = e as int;
                                let spliced = text@.subrange(ci, si) + rep@ + rest;
                                lemma_expands_via_step(callback, text@, ci, si, ei, inner, rep, rest);
                                assert(result@ + rest =~= old_result + spliced);
                            }
                        }
                        cursor = e + 2;
                    },
                }
            },
        }
    }
}

} // verus!
