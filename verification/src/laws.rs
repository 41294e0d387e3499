//! Laws of the augmenter, stated over whole documents: untagged or
//! foreign-tagged text passes through unchanged, an empty-bodied fence pair
//! is skipped, and a single fenced block gains the marker line — written
//! with the block's own line-break bytes — once per application, so that
//! augmenting twice inserts it twice.

use vstd::prelude::*;

use crate::augment::{
    aug_from, augmented, close_fence_at, fence, find_close_from, marker, open_fence_at,
    open_fence_content, BACKTICK,
};
use crate::lines::{
    break_before, is_break_byte, is_line_start, lemma_line_end_agree, lemma_line_end_bounds,
    lemma_line_end_value, lemma_next_is_line_start, lemma_next_le_line_start, line_end_from,
    next_line_start, CR, LF,
};

verus! {

/// True when `lb` is one of the three line-break sequences.
pub open spec fn is_break_seq(lb: Seq<u8>) -> bool {
    lb == seq![LF] || lb == seq![CR] || lb == seq![CR, LF]
}

/// True when no line start within `[lo, hi)` of `s` begins a closing
/// fence line.
pub open spec fn no_close_fence_inside(s: Seq<u8>, lo: int, hi: int) -> bool {
    forall|j: int| lo <= j < hi && is_line_start(s, j) ==> !close_fence_at(s, j)
}

/// The marker line holds no break byte and no backtick.
proof fn lemma_marker_bytes()
    ensures
        marker().len() == 42,
        forall|k: int|
            0 <= k < marker().len() ==> !is_break_byte(#[trigger] marker()[k]) && marker()[k]
                != BACKTICK,
{
}

/// A text in which no line is an opening fence — blocks tagged with an
/// unrelated language, untagged fences, plain prose — is left byte-for-byte
/// unchanged by augmentation.
pub proof fn lemma_augment_no_fence(s: Seq<u8>)
    requires
        forall|j: int| is_line_start(s, j) ==> !open_fence_at(s, j),
    ensures
        augmented(s) == s,
{
    if s.len() == 0 {
        assert(augmented(s) =~= s);
    } else {
        lemma_aug_from_no_fence(s, 0);
        assert(s.subrange(0, s.len() as int) =~= s);
    }
}

proof fn lemma_aug_from_no_fence(s: Seq<u8>, i: int)
    requires
        forall|j: int| is_line_start(s, j) ==> !open_fence_at(s, j),
        is_line_start(s, i) || i == s.len(),
    ensures
        aug_from(s, i) == s.subrange(i, s.len() as int),
    decreases s.len() - i,
{
    if i >= s.len() {
        assert(aug_from(s, i) =~= s.subrange(i, s.len() as int));
    } else {
        assert(!open_fence_at(s, i));
        let ns = next_line_start(s, i);
        lemma_next_is_line_start(s, i);
        lemma_aug_from_no_fence(s, ns);
        assert(s.subrange(i, ns) + s.subrange(ns, s.len() as int) =~= s.subrange(
            i,
            s.len() as int,
        ));
    }
}

/// A pair of fences with no body lines between them is left byte-for-byte
/// unchanged by augmentation.
pub proof fn lemma_augment_empty_block(o: Seq<u8>, lb: Seq<u8>)
    requires
        open_fence_content(o),
        forall|k: int| 0 <= k < o.len() ==> !is_break_byte(o[k]),
        is_break_seq(lb),
    ensures
        augmented(o + lb + fence()) == o + lb + fence(),
{
    let d = o + lb + fence();
    let ol = o.len() as int;
    let bl = lb.len() as int;
    assert(d.len() == ol + bl + 3);
    assert(forall|k: int| 0 <= k < ol ==> d[k] == o[k]);
    assert(forall|k: int| 0 <= k < bl ==> d[ol + k] == lb[k]);
    assert(d[ol + bl] == BACKTICK && d[ol + bl + 1] == BACKTICK && d[ol + bl + 2] == BACKTICK);
    assert(is_break_byte(d[ol]));
    lemma_line_end_value(d, 0, ol);
    assert(open_fence_at(d, 0)) by {
        assert(d.subrange(0, ol) =~= o);
    }
    let ns = next_line_start(d, 0);
    assert(ns == ol + bl);
    lemma_line_end_value(d, ns, d.len() as int);
    assert(close_fence_at(d, ns));
    assert(find_close_from(d, ns) == Some(ns));
    let after = next_line_start(d, ns);
    assert(after == d.len());
    assert(aug_from(d, after) =~= Seq::<u8>::empty());
    assert(aug_from(d, 0) =~= d.subrange(0, after) + aug_from(d, after));
    assert(augmented(d) =~= d);
}

/// When no line start between `j` and `c` begins a closing fence and `c`
/// does, the scan from `j` finds `c`.
proof fn lemma_find_close_reaches(s: Seq<u8>, j: int, c: int)
    requires
        is_line_start(s, j),
        j <= c,
        is_line_start(s, c),
        close_fence_at(s, c),
        forall|j2: int| j <= j2 < c && is_line_start(s, j2) ==> !close_fence_at(s, j2),
    ensures
        find_close_from(s, j) == Some(c),
    decreases c - j,
{
    if j < c {
        assert(!close_fence_at(s, j));
        lemma_next_is_line_start(s, j);
        lemma_next_le_line_start(s, j, c);
        lemma_find_close_reaches(s, next_line_start(s, j), c);
    }
}

/// Augmenting a document that is exactly one fenced block inserts the
/// marker line between the last body line and the closing fence, written
/// with the block's own line-break bytes, and changes nothing else. The
/// body may span several lines, none of which may read as a closing fence,
/// and the break bytes may not straddle the body's edges (a `\r` opening
/// break before a body that starts with `\n`, or a body that ends with
/// `\r` before a `\n` closing break, would merge into one `\r\n` break).
pub proof fn lemma_augment_single_block(o: Seq<u8>, lb: Seq<u8>, body: Seq<u8>)
    requires
        open_fence_content(o),
        forall|k: int| 0 <= k < o.len() ==> !is_break_byte(o[k]),
        is_break_seq(lb),
        body.len() > 0,
        lb == seq![CR] ==> body[0] != LF,
        body[body.len() - 1] == CR ==> lb != seq![LF],
        no_close_fence_inside(
            o + lb + body + lb + fence(),
            o.len() + lb.len() as int,
            o.len() + lb.len() + body.len() as int,
        ),
    ensures
        augmented(o + lb + body + lb + fence()) == o + lb + body + lb + marker() + lb + fence(),
{
    let d = o + lb + body + lb + fence();
    let ol = o.len() as int;
    let bl = lb.len() as int;
    let bs = ol + bl;
    let be = bs + body.len();
    let c = be + bl;
    assert(d.len() == c + 3);
    assert(forall|k: int| 0 <= k < ol ==> d[k] == o[k]);
    assert(forall|k: int| 0 <= k < bl ==> d[ol + k] == lb[k]);
    assert(forall|k: int| 0 <= k < body.len() ==> d[bs + k] == body[k]);
    assert(forall|k: int| 0 <= k < bl ==> d[be + k] == lb[k]);
    assert(d[c] == BACKTICK && d[c + 1] == BACKTICK && d[c + 2] == BACKTICK);
    // The opening fence line ends where the first break begins.
    assert(is_break_byte(d[ol]));
    lemma_line_end_value(d, 0, ol);
    assert(open_fence_at(d, 0)) by {
        assert(d.subrange(0, ol) =~= o);
    }
    let ns = next_line_start(d, 0);
    assert(ns == bs);
    // The closing fence line.
    lemma_line_end_value(d, c, c + 3);
    assert(close_fence_at(d, c));
    assert(is_line_start(d, c));
    assert(is_line_start(d, bs));
    // No line start before the closing fence is itself a closing fence:
    // body lines by hypothesis, and the break bytes before `c` are no
    // backticks.
    assert forall|j2: int| bs <= j2 < c && is_line_start(d, j2) implies !close_fence_at(
        d,
        j2,
    ) by {
        if be <= j2 < c {
            assert(d[j2] == lb[j2 - be]);
            assert(is_break_byte(d[j2]));
        }
    }
    lemma_find_close_reaches(d, bs, c);
    let after = next_line_start(d, c);
    assert(after == d.len());
    assert(c > ns);
    // The break written before the marker is the block's own.
    assert(break_before(d, c) == lb) by {
        if lb == seq![CR, LF] {
            assert(d[c - 2] == CR && d[c - 1] == LF);
            assert(d.subrange(c - 2, c) =~= lb);
        } else if lb == seq![LF] {
            assert(d[c - 2] == body[body.len() - 1]);
            assert(d.subrange(c - 1, c) =~= lb);
        } else {
            assert(d[c - 1] == CR);
            assert(d.subrange(c - 1, c) =~= lb);
        }
    }
    assert(aug_from(d, after) =~= Seq::<u8>::empty());
    assert(d.subrange(0, c) =~= o + lb + body + lb);
    assert(d.subrange(c, after) =~= fence());
    assert(aug_from(d, 0) =~= o + lb + body + lb + marker() + lb + fence());
}

/// Augmentation is not idempotent, by design: augmenting a single fenced
/// block a second time inserts the marker line a second time, since the
/// once-augmented block is again a block with a non-empty body and
/// insertion is blind to prior content.
pub proof fn lemma_augment_twice_single_block(o: Seq<u8>, lb: Seq<u8>, body: Seq<u8>)
    requires
        open_fence_content(o),
        forall|k: int| 0 <= k < o.len() ==> !is_break_byte(o[k]),
        is_break_seq(lb),
        body.len() > 0,
        lb == seq![CR] ==> body[0] != LF,
        body[body.len() - 1] == CR ==> lb != seq![LF],
        no_close_fence_inside(
            o + lb + body + lb + fence(),
            o.len() + lb.len() as int,
            o.len() + lb.len() + body.len() as int,
        ),
    ensures
        augmented(augmented(o + lb + body + lb + fence())) == o + lb + body + lb + marker() + lb
            + marker() + lb + fence(),
{
    lemma_augment_single_block(o, lb, body);
    lemma_marker_bytes();
    let body2 = body + lb + marker();
    let d = o + lb + body + lb + fence();
    let d2 = o + lb + body2 + lb + fence();
    assert(augmented(d) =~= d2);
    let ol = o.len() as int;
    let bl = lb.len() as int;
    let bs = ol + bl;
    let be = bs + body.len();
    let c = be + bl;
    let be2 = bs + body2.len();
    assert(be2 == c + 42);
    assert(forall|k: int| 0 <= k < body.len() ==> body2[k] == body[k]);
    assert(forall|k: int| 0 <= k < bl ==> body2[body.len() + k] == lb[k]);
    assert(forall|k: int| 0 <= k < 42 ==> body2[body.len() + bl + k] == marker()[k]);
    assert(forall|k: int| 0 <= k < c ==> d2[k] == d[k]);
    assert(forall|k: int| 0 <= k < 42 ==> d2[c + k] == marker()[k]);
    assert(is_break_byte(d[be]));
    // The new body keeps the old one's first byte, ends with the marker,
    // and still holds no closing fence line.
    assert(body2[0] == body[0]);
    assert(body2[body2.len() - 1] == marker()[41]);
    assert forall|j2: int| bs <= j2 < be2 && is_line_start(d2, j2) implies !close_fence_at(
        d2,
        j2,
    ) by {
        if j2 < be {
            assert(is_line_start(d, j2));
            assert(!close_fence_at(d, j2));
            if close_fence_at(d2, j2) {
                lemma_line_end_bounds(d, j2);
                let e = line_end_from(d, j2);
                assert(e <= be);
                lemma_line_end_agree(d, d2, j2, c);
                assert(close_fence_at(d, j2));
                assert(false);
            }
        } else if j2 < c {
            assert(d2[j2] == lb[j2 - be]);
            assert(is_break_byte(d2[j2]));
        } else if j2 == c {
            assert(d2[j2] == marker()[0]);
        } else {
            assert(d2[j2 - 1] == marker()[j2 - 1 - c]);
            assert(!is_break_byte(d2[j2 - 1]));
            assert(!is_line_start(d2, j2));
        }
    }
    lemma_augment_single_block(o, lb, body2);
    assert(o + lb + body2 + lb + marker() + lb + fence() =~= o + lb + body + lb + marker() + lb
        + marker() + lb + fence());
}

} // verus!
