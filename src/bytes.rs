//! Big-endian integer decoding over byte sequences.
use vstd::prelude::*;

verus! {

/// The unsigned 32-bit big-endian integer stored in `s` at byte offset `p`.
pub open spec fn be32(s: Seq<u8>, p: int) -> u32 {
    (s[p] as int * 0x100_0000 + s[p + 1] as int * 0x1_0000 + s[p + 2] as int * 0x100
        + s[p + 3] as int) as u32
}

/// Reads the big-endian 32-bit integer at offset `p` of `data`.
pub fn read_be32(data: &[u8], p: usize) -> (r: u32)
    requires
        p + 4 <= data@.len(),
    ensures
        r == be32(data@, p as int),
{
    let b0 = data[p] as u32;
    let b1 = data[p + 1] as u32;
    let b2 = data[p + 2] as u32;
    let b3 = data[p + 3] as u32;
    b0 * 0x100_0000 + b1 * 0x1_0000 + b2 * 0x100 + b3
}

} // verus!
