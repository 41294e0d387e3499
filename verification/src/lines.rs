//! Line structure of a byte text: where lines end, where the next one
//! begins, and which line-break sequence (`\n`, `\r\n`, or `\r`) separates
//! them. Line breaks are never normalized; the engine records the exact
//! bytes it finds.

use vstd::prelude::*;

verus! {

/// Carriage-return byte.
pub const CR: u8 = 13;

/// Line-feed byte.
pub const LF: u8 = 10;

/// True when the byte starts a line break.
pub open spec fn is_break_byte(b: u8) -> bool {
    b == CR || b == LF
}

/// End of the line that starts at `i`: the first break byte at or after
/// `i`, or the end of the text if the last line is unterminated.
pub open spec fn line_end_from(s: Seq<u8>, i: int) -> int
    decreases s.len() - i,
{
    if i < 0 || i >= s.len() {
        s.len() as int
    } else if is_break_byte(s[i]) {
        i
    } else {
        line_end_from(s, i + 1)
    }
}

/// Start of the line after the one starting at `i`: just past the break
/// that ends it, where `\r\n` counts as a single break.
pub open spec fn next_line_start(s: Seq<u8>, i: int) -> int {
    let e = line_end_from(s, i);
    if e >= s.len() {
        s.len() as int
    } else if s[e] == CR && e + 1 < s.len() && s[e + 1] == LF {
        e + 2
    } else {
        e + 1
    }
}

/// True when `j` begins a line: at the very start of the text, or just past
/// a break (a line feed, or a carriage return not followed by a line feed).
pub open spec fn is_line_start(s: Seq<u8>, j: int) -> bool {
    0 <= j < s.len() && (j == 0 || s[j - 1] == LF || (s[j - 1] == CR && s[j] != LF))
}

/// The break bytes immediately before position `c`, which must lie just
/// past a break: two bytes for `\r\n`, one for a lone `\r` or `\n`.
pub open spec fn break_before(s: Seq<u8>, c: int) -> Seq<u8> {
    if c >= 2 && s[c - 2] == CR && s[c - 1] == LF {
        s.subrange(c - 2, c)
    } else {
        s.subrange(c - 1, c)
    }
}

/// A line's end lies between its start and the end of the text, no break
/// byte occurs before it, and (unless the line is unterminated) a break
/// byte stands at it.
pub proof fn lemma_line_end_bounds(s: Seq<u8>, i: int)
    requires
        0 <= i <= s.len(),
    ensures
        i <= line_end_from(s, i) <= s.len(),
        forall|k: int| i <= k < line_end_from(s, i) ==> !is_break_byte(s[k]),
        line_end_from(s, i) < s.len() ==> is_break_byte(s[line_end_from(s, i)]),
    decreases s.len() - i,
{
    if i < s.len() && !is_break_byte(s[i]) {
        lemma_line_end_bounds(s, i + 1);
    }
}

/// A region with no break bytes that is ended by a break byte (or by the
/// end of the text) is exactly one line.
pub proof fn lemma_line_end_value(s: Seq<u8>, i: int, e: int)
    requires
        0 <= i <= e <= s.len(),
        forall|k: int| i <= k < e ==> !is_break_byte(s[k]),
        e < s.len() ==> is_break_byte(s[e]),
    ensures
        line_end_from(s, i) == e,
    decreases e - i,
{
    if i < e {
        lemma_line_end_value(s, i + 1, e);
    }
}

/// Two texts that agree on a line and on the break that ends it place the
/// end of that line at the same position.
pub proof fn lemma_line_end_agree(s1: Seq<u8>, s2: Seq<u8>, j: int, m: int)
    requires
        0 <= j <= m,
        m <= s1.len(),
        m <= s2.len(),
        forall|k: int| j <= k < m ==> s1[k] == s2[k],
        line_end_from(s1, j) < m,
    ensures
        line_end_from(s2, j) == line_end_from(s1, j),
{
    lemma_line_end_bounds(s1, j);
    lemma_line_end_value(s2, j, line_end_from(s1, j));
}

/// Following a line forward from one of its starts lands on another line
/// start (or on the end of the text), strictly further on.
pub proof fn lemma_next_is_line_start(s: Seq<u8>, j: int)
    requires
        is_line_start(s, j),
    ensures
        j < next_line_start(s, j) <= s.len(),
        next_line_start(s, j) < s.len() ==> is_line_start(s, next_line_start(s, j)),
{
    lemma_line_end_bounds(s, j);
}

/// A scan that steps to the next line never jumps past a line start.
pub proof fn lemma_next_le_line_start(s: Seq<u8>, j: int, c: int)
    requires
        0 <= j < c,
        is_line_start(s, c),
        c <= s.len(),
    ensures
        next_line_start(s, j) <= c,
{
    lemma_line_end_bounds(s, j);
    let e = line_end_from(s, j);
    if e < s.len() {
        // c is a line start, so a break byte stands just before it; no break
        // byte lies in [j, e), hence c - 1 >= e and c >= e + 1.
        assert(is_break_byte(s[c - 1]));
        if s[e] == CR && e + 1 < s.len() && s[e + 1] == LF {
            // The break at e is `\r\n`; c cannot start between its bytes.
            assert(c != e + 1);
        }
    }
}

/// Scan forward from `i` to the end of the current line.
pub fn line_end(s: &Vec<u8>, i: usize) -> (e: usize)
    requires
        i <= s@.len(),
    ensures
        e == line_end_from(s@, i as int),
        i <= e <= s@.len(),
{
    proof {
        lemma_line_end_bounds(s@, i as int);
    }
    let mut j = i;
    while j < s.len()
        invariant
            i <= j <= s@.len(),
            line_end_from(s@, i as int) == line_end_from(s@, j as int),
        decreases s@.len() - j,
    {
        if s[j] == CR || s[j] == LF {
            return j;
        }
        j = j + 1;
    }
    j
}

/// Scan forward from `i` to the start of the following line.
pub fn next_start(s: &Vec<u8>, i: usize) -> (n: usize)
    requires
        i <= s@.len(),
    ensures
        n == next_line_start(s@, i as int),
        i <= n <= s@.len(),
        i < s@.len() ==> i < n,
{
    let e = line_end(s, i);
    if e >= s.len() {
        s.len()
    } else if s[e] == CR && e + 1 < s.len() && s[e + 1] == LF {
        e + 2
    } else {
        e + 1
    }
}

/// Append `src[a..b]` to `out`.
pub fn push_range(out: &mut Vec<u8>, src: &Vec<u8>, a: usize, b: usize)
    requires
        a <= b <= src@.len(),
    ensures
        final(out)@ == old(out)@ + src@.subrange(a as int, b as int),
{
    let mut k = a;
    while k < b
        invariant
            a <= k <= b <= src@.len(),
            out@ == old(out)@ + src@.subrange(a as int, k as int),
        decreases b - k,
    {
        out.push(src[k]);
        proof {
            assert(src@.subrange(a as int, (k + 1) as int) =~= src@.subrange(a as int, k as int)
                + seq![src@[k as int]]);
        }
        k = k + 1;
    }
}

} // verus!
