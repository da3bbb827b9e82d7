//! Buffers that hold one value in every byte.

use vstd::prelude::*;

verus! {

/// The buffer of `len` bytes that are all `value`.
pub open spec fn uniform(len: nat, value: u8) -> Seq<u8> {
    Seq::new(len, |i: int| value)
}

/// A vector of `len` bytes that are all `value`.
pub fn filled(value: u8, len: usize) -> (out: Vec<u8>)
    ensures
        out@ == uniform(len as nat, value),
{
    let mut out: Vec<u8> = Vec::new();
    while out.len() < len
        invariant
            out@.len() <= len,
            forall|i: int| 0 <= i < out@.len() ==> out@[i] == value,
        decreases len - out@.len(),
    {
        out.push(value);
    }
    assert(out@ =~= uniform(len as nat, value));
    out
}

} // verus!
