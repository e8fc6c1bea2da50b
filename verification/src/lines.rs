//! Mapping character offsets to 1-based line numbers, for diagnostics.

use vstd::prelude::*;

verus! {

/// Number of newline characters among the first `end` characters of `t`.
pub open spec fn newlines_up_to(t: Seq<char>, end: int) -> int
    decreases end,
{
    if end <= 0 {
        0
    } else if end > t.len() {
        newlines_up_to(t, t.len() as int)
    } else {
        newlines_up_to(t, end - 1) + if t[end - 1] == '\n' {
            1int
        } else {
            0int
        }
    }
}

/// The 1-based line number of the character at offset `off`: one more than
/// the number of newlines strictly before `off`. Offsets past the end of the
/// text count every newline in it.
pub open spec fn line_of(t: Seq<char>, off: int) -> int {
    1 + newlines_up_to(t, off)
}

/// Given the offset of a character, finds the 1-based line number: one more
/// than the number of newlines strictly before that offset. O(n).
pub fn get_line_number(text: &str, char_idx: usize) -> (line: usize)
    requires
        char_idx < usize::MAX,
    ensures
        line == line_of(text@, char_idx as int),
{
    let len = text.unicode_len();
    let stop = if char_idx < len {
        char_idx
    } else {
        len
    };
    proof {
        if char_idx >= len {
            assert(newlines_up_to(text@, char_idx as int) == newlines_up_to(
                text@,
                text@.len() as int,
            ));
        }
    }
    let mut count: usize = 0;
    let mut i: usize = 0;
    while i < stop
        invariant
            0 <= i <= stop <= text@.len(),
            count == newlines_up_to(text@, i as int),
            count <= i,
        decreases stop - i,
    {
        if text.get_char(i) == '\n' {
            count = count + 1;
        }
        i = i + 1;
    }
    count + 1
}

/// Offset 0 always lies on line 1.
pub proof fn lemma_line_of_start(t: Seq<char>)
    ensures
        line_of(t, 0) == 1,
{
}

/// An offset immediately after the n-th newline of the text lies on line
/// n + 1.
pub proof fn lemma_line_after_nth_newline(t: Seq<char>, off: int, n: int)
    requires
        0 < off <= t.len(),
        t[off - 1] == '\n',
        newlines_up_to(t, off) == n,
    ensures
        line_of(t, off) == n + 1,
{
}

} // verus!
