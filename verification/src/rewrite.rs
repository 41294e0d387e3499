//! Literal substring substitution: every non-overlapping occurrence of a
//! target string is replaced by a replacement string, scanning left to
//! right. There are no pattern semantics of any kind and matching is
//! case-sensitive. An empty target is a no-op; validating against it is the
//! caller's responsibility.

use vstd::prelude::*;

use crate::lines::push_range;

verus! {

/// True when `t` occurs in `s` at offset `i`.
pub open spec fn occurs_at(s: Seq<u8>, t: Seq<u8>, i: int) -> bool {
    0 <= i && i + t.len() <= s.len() && s.subrange(i, i + t.len() as int) == t
}

/// True when `t` occurs somewhere in `s`.
pub open spec fn occurs(s: Seq<u8>, t: Seq<u8>) -> bool {
    exists|i: int| occurs_at(s, t, i)
}

/// The text with every non-overlapping occurrence of `t` replaced by `r`,
/// found left to right: at each position, either the target matches and is
/// consumed whole, or one byte is copied. An empty target changes nothing.
pub open spec fn replaced(s: Seq<u8>, t: Seq<u8>, r: Seq<u8>) -> Seq<u8>
    decreases s.len(),
{
    if t.len() == 0 || s.len() < t.len() {
        s
    } else if s.subrange(0, t.len() as int) == t {
        r + replaced(s.subrange(t.len() as int, s.len() as int), t, r)
    } else {
        seq![s[0]] + replaced(s.subrange(1, s.len() as int), t, r)
    }
}

/// Compare `s[i..i + t.len()]` with `t`.
fn match_here(s: &Vec<u8>, t: &Vec<u8>, i: usize) -> (m: bool)
    requires
        i <= s@.len(),
    ensures
        m == occurs_at(s@, t@, i as int),
{
    if t.len() > s.len() - i {
        return false;
    }
    let mut k: usize = 0;
    while k < t.len()
        invariant
            0 <= k <= t@.len(),
            i + t@.len() <= s@.len(),
            i + t@.len() <= usize::MAX,
            forall|m: int| 0 <= m < k ==> s@[i + m] == t@[m],
        decreases t@.len() - k,
    {
        if s[i + k] != t[k] {
            proof {
                assert(s@.subrange(i as int, i + t@.len())[k as int] == s@[i + k]);
            }
            return false;
        }
        k = k + 1;
    }
    proof {
        assert(s@.subrange(i as int, i + t@.len()) =~= t@);
    }
    true
}

/// Replace every non-overlapping occurrence of `target` in `doc` by
/// `replacement`, scanning left to right. An empty target leaves the
/// document unchanged.
pub fn rewrite_links(doc: &Vec<u8>, target: &Vec<u8>, replacement: &Vec<u8>) -> (out: Vec<u8>)
    ensures
        out@ == replaced(doc@, target@, replacement@),
{
    let mut out: Vec<u8> = Vec::new();
    if target.len() == 0 {
        push_range(&mut out, doc, 0, doc.len());
        proof {
            assert(out@ =~= doc@);
        }
        return out;
    }
    let mut i: usize = 0;
    proof {
        assert(doc@.subrange(0, doc@.len() as int) =~= doc@);
        assert(Seq::<u8>::empty() + replaced(doc@, target@, replacement@) =~= replaced(
            doc@,
            target@,
            replacement@,
        ));
    }
    while i < doc.len()
        invariant
            i <= doc@.len(),
            target@.len() >= 1,
            out@ + replaced(doc@.subrange(i as int, doc@.len() as int), target@, replacement@)
                == replaced(doc@, target@, replacement@),
        decreases doc@.len() - i,
    {
        let ghost suffix = doc@.subrange(i as int, doc@.len() as int);
        if match_here(doc, target, i) {
            push_range(&mut out, replacement, 0, replacement.len());
            proof {
                assert(replacement@.subrange(0, replacement@.len() as int) =~= replacement@);
                assert(suffix.subrange(0, target@.len() as int) =~= doc@.subrange(
                    i as int,
                    i + target@.len(),
                ));
                assert(suffix.subrange(target@.len() as int, suffix.len() as int) =~= doc@.subrange(
                    i + target@.len(),
                    doc@.len() as int,
                ));
                assert(out@ + replaced(
                    doc@.subrange(i + target@.len(), doc@.len() as int),
                    target@,
                    replacement@,
                ) =~= replaced(doc@, target@, replacement@));
            }
            i = i + target.len();
        } else {
            out.push(doc[i]);
            proof {
                assert(suffix.subrange(1, suffix.len() as int) =~= doc@.subrange(
                    i + 1,
                    doc@.len() as int,
                ));
                if i + target@.len() <= doc@.len() {
                    assert(suffix.subrange(0, target@.len() as int) =~= doc@.subrange(
                        i as int,
                        i + target@.len(),
                    ));
                }
                assert(suffix =~= seq![doc@[i as int]] + suffix.subrange(1, suffix.len() as int));
                assert(out@ + replaced(
                    doc@.subrange(i + 1, doc@.len() as int),
                    target@,
                    replacement@,
                ) =~= replaced(doc@, target@, replacement@));
            }
            i = i + 1;
        }
    }
    proof {
        assert(doc@.subrange(i as int, doc@.len() as int) =~= Seq::<u8>::empty());
        assert(out@ =~= replaced(doc@, target@, replacement@));
    }
    out
}

/// When the target never occurs in a text, replacement leaves the text
/// unchanged.
pub proof fn lemma_replaced_absent(s: Seq<u8>, t: Seq<u8>, r: Seq<u8>)
    requires
        !occurs(s, t),
    ensures
        replaced(s, t, r) == s,
    decreases s.len(),
{
    if t.len() == 0 || s.len() < t.len() {
    } else if s.subrange(0, t.len() as int) == t {
        assert(occurs_at(s, t, 0));
        assert(false);
    } else {
        let rest = s.subrange(1, s.len() as int);
        assert forall|j: int| !occurs_at(rest, t, j) by {
            if occurs_at(rest, t, j) {
                assert(rest.subrange(j, j + t.len() as int) =~= s.subrange(j + 1, j + 1
                    + t.len()));
                assert(occurs_at(s, t, j + 1));
            }
        }
        lemma_replaced_absent(rest, t, r);
        assert(seq![s[0]] + rest =~= s);
    }
}

/// Applying the rewrite twice gives the same text as applying it once.
/// The law holds whenever the target does not survive the first pass: in
/// particular the replacement must not contain the target, but a new
/// occurrence can also arise at the seam between a replacement and the text
/// around it, so the absence of the target from the once-rewritten text is
/// what the law rests on.
pub proof fn lemma_rewrite_idempotent(s: Seq<u8>, t: Seq<u8>, r: Seq<u8>)
    requires
        !occurs(r, t),
        !occurs(replaced(s, t, r), t),
    ensures
        replaced(replaced(s, t, r), t, r) == replaced(s, t, r),
{
    lemma_replaced_absent(replaced(s, t, r), t, r);
}

} // verus!
