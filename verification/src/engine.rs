//! The composed engine: augment fenced code blocks first, then rewrite
//! links. The order matters only in that the substitution also sees the
//! inserted marker lines; the marker holds no URL, so in practice the two
//! rewrites are independent.

use vstd::prelude::*;

use crate::augment::{augment_code_blocks, augmented};
use crate::rewrite::{replaced, rewrite_links};

verus! {

/// The fully transformed document: fenced `rust`/`rs` blocks augmented
/// with the marker line, then every occurrence of `t` replaced by `r`.
pub open spec fn transformed(s: Seq<u8>, t: Seq<u8>, r: Seq<u8>) -> Seq<u8> {
    replaced(augmented(s), t, r)
}

/// Run the whole engine over a document: insert the marker line into every
/// fenced `rust`/`rs` block, then replace every occurrence of `target` by
/// `replacement`. Total and pure: no input is rejected, and the same input
/// always yields the same output.
pub fn transform(doc: &Vec<u8>, target: &Vec<u8>, replacement: &Vec<u8>) -> (out: Vec<u8>)
    ensures
        out@ == transformed(doc@, target@, replacement@),
{
    let augmented_doc = augment_code_blocks(doc);
    rewrite_links(&augmented_doc, target, replacement)
}

} // verus!
