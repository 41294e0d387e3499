//! Code-block augmentation: every fenced block whose opening fence is
//! tagged `rust` or `rs` (ignoring ASCII case) gains a fixed marker line
//! immediately before its closing fence, written with the same line-break
//! bytes that end the block's last body line.
//!
//! A block is an opening fence line (exactly three backticks followed by
//! the tag), one or more body lines, and the first following line that is
//! exactly three backticks. A pair of fences with no body lines between
//! them is left untouched, as is an opening fence that no closing fence
//! line ever follows. Insertion is blind to prior content: a block that
//! already ends with the marker line gains it again.

use vstd::prelude::*;

use crate::lines::{
    break_before, lemma_line_end_bounds, line_end, line_end_from, next_line_start, next_start,
    push_range, CR, LF,
};

verus! {

/// Backtick byte.
pub const BACKTICK: u8 = 96;

/// ASCII lower-casing of a single byte.
pub open spec fn lower(b: u8) -> u8 {
    if 65 <= b && b <= 90 {
        (b + 32) as u8
    } else {
        b
    }
}

/// The marker line inserted before each matched closing fence:
/// `# Ok::<(), Box<dyn std::error::Error>>(())`.
pub open spec fn marker() -> Seq<u8> {
    seq![
        35, 32, 79, 107, 58, 58, 60, 40, 41, 44, 32, 66, 111, 120, 60,
        100, 121, 110, 32, 115, 116, 100, 58, 58, 101, 114, 114, 111, 114, 58,
        58, 69, 114, 114, 111, 114, 62, 62, 40, 40, 41, 41,
    ]
}

/// The three backticks of a closing fence line.
pub open spec fn fence() -> Seq<u8> {
    seq![BACKTICK, BACKTICK, BACKTICK]
}

/// True when a line's bytes read exactly ```` ```rust ```` or ```` ```rs ````,
/// ignoring ASCII case in the tag.
pub open spec fn open_fence_content(c: Seq<u8>) -> bool {
    (c.len() == 7 && c[0] == BACKTICK && c[1] == BACKTICK && c[2] == BACKTICK && lower(c[3])
        == 114 && lower(c[4]) == 117 && lower(c[5]) == 115 && lower(c[6]) == 116) || (c.len()
        == 5 && c[0] == BACKTICK && c[1] == BACKTICK && c[2] == BACKTICK && lower(c[3]) == 114
        && lower(c[4]) == 115)
}

/// True when the line starting at `i` is an opening fence.
pub open spec fn open_fence_at(s: Seq<u8>, i: int) -> bool {
    0 <= i <= s.len() && open_fence_content(s.subrange(i, line_end_from(s, i)))
}

/// True when the line starting at `i` is a closing fence: exactly three
/// backticks and nothing else.
pub open spec fn close_fence_at(s: Seq<u8>, i: int) -> bool {
    0 <= i && i + 3 <= s.len() && line_end_from(s, i) == i + 3 && s[i] == BACKTICK && s[i + 1]
        == BACKTICK && s[i + 2] == BACKTICK
}

/// Line start of the first closing fence at or after `i`, if any.
pub open spec fn find_close_from(s: Seq<u8>, i: int) -> Option<int>
    decreases s.len() - i,
    via find_close_from_dec
{
    if i < 0 || i >= s.len() {
        None
    } else if close_fence_at(s, i) {
        Some(i)
    } else {
        find_close_from(s, next_line_start(s, i))
    }
}

#[via_fn]
proof fn find_close_from_dec(s: Seq<u8>, i: int) {
    if 0 <= i && i < s.len() {
        lemma_line_end_bounds(s, i);
    }
}

/// A found closing fence lies at or after the scan start and fits in the
/// text.
pub proof fn lemma_find_close_props(s: Seq<u8>, i: int)
    requires
        0 <= i,
    ensures
        find_close_from(s, i) matches Some(c) ==> i <= c && c + 3 <= s.len() && close_fence_at(
            s,
            c,
        ),
    decreases s.len() - i,
{
    if i < s.len() && !close_fence_at(s, i) {
        lemma_line_end_bounds(s, i);
        lemma_find_close_props(s, next_line_start(s, i));
    }
}

/// Augmented form of the text from line start `i` on: lines are copied
/// until an opening fence is found; if a closing fence follows with at
/// least one body line between, the text up to the closing fence is copied,
/// then the marker and a copy of the break that precedes the closing fence,
/// then the closing fence line; scanning resumes after it.
pub open spec fn aug_from(s: Seq<u8>, i: int) -> Seq<u8>
    decreases s.len() - i,
    via aug_from_dec
{
    if i < 0 || i >= s.len() {
        Seq::empty()
    } else {
        let ns = next_line_start(s, i);
        if open_fence_at(s, i) {
            match find_close_from(s, ns) {
                Some(c) => {
                    let after = next_line_start(s, c);
                    if c > ns {
                        s.subrange(i, c) + marker() + break_before(s, c) + s.subrange(c, after)
                            + aug_from(s, after)
                    } else {
                        s.subrange(i, after) + aug_from(s, after)
                    }
                },
                None => s.subrange(i, s.len() as int),
            }
        } else {
            s.subrange(i, ns) + aug_from(s, ns)
        }
    }
}

#[via_fn]
proof fn aug_from_dec(s: Seq<u8>, i: int) {
    if 0 <= i && i < s.len() {
        lemma_line_end_bounds(s, i);
        let ns = next_line_start(s, i);
        if open_fence_at(s, i) {
            lemma_find_close_props(s, ns);
            if let Some(c) = find_close_from(s, ns) {
                lemma_line_end_bounds(s, c);
            }
        }
    }
}

/// The whole text with every matched block augmented.
pub open spec fn augmented(s: Seq<u8>) -> Seq<u8> {
    aug_from(s, 0)
}

/// ASCII lower-casing of a single byte.
fn lower_byte(b: u8) -> (r: u8)
    ensures
        r == lower(b),
{
    if 65 <= b && b <= 90 {
        b + 32
    } else {
        b
    }
}

/// Decide whether the line starting at `i` is an opening fence.
fn is_open_fence(s: &Vec<u8>, i: usize) -> (r: bool)
    requires
        i <= s@.len(),
    ensures
        r == open_fence_at(s@, i as int),
{
    let e = line_end(s, i);
    proof {
        lemma_line_end_bounds(s@, i as int);
        let content = s@.subrange(i as int, e as int);
        assert(forall|k: int| 0 <= k < content.len() ==> content[k] == s@[i + k]);
    }
    let n = e - i;
    if n == 7 {
        s[i] == BACKTICK && s[i + 1] == BACKTICK && s[i + 2] == BACKTICK && lower_byte(s[i + 3])
            == 114 && lower_byte(s[i + 4]) == 117 && lower_byte(s[i + 5]) == 115 && lower_byte(
            s[i + 6],
        ) == 116
    } else if n == 5 {
        s[i] == BACKTICK && s[i + 1] == BACKTICK && s[i + 2] == BACKTICK && lower_byte(s[i + 3])
            == 114 && lower_byte(s[i + 4]) == 115
    } else {
        false
    }
}

/// Scan forward from line start `i` for the first closing fence line.
fn find_close(s: &Vec<u8>, i: usize) -> (r: Option<usize>)
    requires
        i <= s@.len(),
    ensures
        match r {
            Some(c) => find_close_from(s@, i as int) == Some(c as int) && i <= c && c + 3
                <= s@.len(),
            None => find_close_from(s@, i as int) is None,
        },
{
    let mut j = i;
    while j < s.len()
        invariant
            i <= j <= s@.len(),
            find_close_from(s@, i as int) == find_close_from(s@, j as int),
        decreases s@.len() - j,
    {
        let e = line_end(s, j);
        proof {
            lemma_line_end_bounds(s@, j as int);
        }
        if e - j == 3 && s[j] == BACKTICK && s[j + 1] == BACKTICK && s[j + 2] == BACKTICK {
            proof {
                assert(close_fence_at(s@, j as int));
            }
            return Some(j);
        }
        proof {
            assert(!close_fence_at(s@, j as int));
        }
        let n = next_start(s, j);
        j = n;
    }
    None
}

/// Append the marker line's bytes to `out`.
fn push_marker(out: &mut Vec<u8>)
    ensures
        final(out)@ == old(out)@ + marker(),
{
    out.push(35);
    out.push(32);
    out.push(79);
    out.push(107);
    out.push(58);
    out.push(58);
    out.push(60);
    out.push(40);
    out.push(41);
    out.push(44);
    out.push(32);
    out.push(66);
    out.push(111);
    out.push(120);
    out.push(60);
    out.push(100);
    out.push(121);
    out.push(110);
    out.push(32);
    out.push(115);
    out.push(116);
    out.push(100);
    out.push(58);
    out.push(58);
    out.push(101);
    out.push(114);
    out.push(114);
    out.push(111);
    out.push(114);
    out.push(58);
    out.push(58);
    out.push(69);
    out.push(114);
    out.push(114);
    out.push(111);
    out.push(114);
    out.push(62);
    out.push(62);
    out.push(40);
    out.push(40);
    out.push(41);
    out.push(41);
    proof {
        assert(out@ =~= old(out)@ + marker());
    }
}

/// Insert the marker line before the closing fence of every fenced block
/// tagged `rust` or `rs`, preserving each block's own line-break style and
/// leaving everything else byte-for-byte unchanged.
pub fn augment_code_blocks(doc: &Vec<u8>) -> (out: Vec<u8>)
    ensures
        out@ == augmented(doc@),
{
    let mut out: Vec<u8> = Vec::new();
    let mut i: usize = 0;
    proof {
        assert(Seq::<u8>::empty() + aug_from(doc@, 0) =~= aug_from(doc@, 0));
    }
    while i < doc.len()
        invariant
            i <= doc@.len(),
            out@ + aug_from(doc@, i as int) == aug_from(doc@, 0),
        decreases doc@.len() - i,
    {
        let ghost prev = out@;
        let ns = next_start(doc, i);
        if is_open_fence(doc, i) {
            match find_close(doc, ns) {
                Some(c) => {
                    let after = next_start(doc, c);
                    if c > ns {
                        push_range(&mut out, doc, i, c);
                        push_marker(&mut out);
                        if c >= 2 && doc[c - 2] == CR && doc[c - 1] == LF {
                            out.push(CR);
                            out.push(LF);
                            proof {
                                assert(break_before(doc@, c as int) =~= seq![CR, LF]);
                            }
                        } else {
                            out.push(doc[c - 1]);
                            proof {
                                assert(break_before(doc@, c as int) =~= seq![doc@[c - 1]]);
                            }
                        }
                        push_range(&mut out, doc, c, after);
                        proof {
                            assert(out@ =~= prev + (doc@.subrange(i as int, c as int) + marker()
                                + break_before(doc@, c as int) + doc@.subrange(
                                c as int,
                                after as int,
                            )));
                            assert(out@ + aug_from(doc@, after as int) =~= prev + aug_from(
                                doc@,
                                i as int,
                            ));
                        }
                        i = after;
                    } else {
                        push_range(&mut out, doc, i, after);
                        proof {
                            assert(out@ + aug_from(doc@, after as int) =~= prev + aug_from(
                                doc@,
                                i as int,
                            ));
                        }
                        i = after;
                    }
                },
                None => {
                    push_range(&mut out, doc, i, doc.len());
                    proof {
                        assert(out@ + aug_from(doc@, doc@.len() as int) =~= prev + aug_from(
                            doc@,
                            i as int,
                        ));
                    }
                    i = doc.len();
                },
            }
        } else {
            push_range(&mut out, doc, i, ns);
            proof {
                assert(out@ + aug_from(doc@, ns as int) =~= prev + aug_from(doc@, i as int));
            }
            i = ns;
        }
    }
    proof {
        assert(out@ + aug_from(doc@, i as int) =~= out@);
    }
    out
}

} // verus!
