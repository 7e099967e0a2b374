//! Byte vectors turned into boxed slices.

use vstd::prelude::*;

verus! {

/// `Vec::into_boxed_slice`: the same bytes, in a box.
#[verifier::external_body]
pub(crate) fn into_boxed_slice(v: Vec<u8>) -> (b: Box<[u8]>)
    ensures
        b@ == v@,
{
    v.into_boxed_slice()
}

} // verus!
