//! The canonical byte encoding of numeric fields: fixed-width big-endian
//! bytes, most significant byte first. The encoding is purely an input to the
//! digest; it is never parsed back.

use vstd::prelude::*;

verus! {

/// The `len` big-endian bytes of `n`: the last byte is `n % 256`, the bytes
/// before it encode `n / 256`. Values too large for `len` bytes lose their
/// high bytes.
pub open spec fn spec_be_bytes(n: int, len: nat) -> Seq<u8>
    decreases len,
{
    if len == 0 {
        Seq::empty()
    } else {
        spec_be_bytes(n / 256, (len - 1) as nat).push((n % 256) as u8)
    }
}

/// The big-endian 4-byte encoding of a block index.
pub open spec fn spec_u32_be(n: u32) -> Seq<u8> {
    spec_be_bytes(n as int, 4)
}

/// The big-endian 8-byte encoding of an output value or nonce.
pub open spec fn spec_u64_be(n: u64) -> Seq<u8> {
    spec_be_bytes(n as int, 8)
}

/// The big-endian 16-byte encoding of a timestamp or difficulty.
pub open spec fn spec_u128_be(n: u128) -> Seq<u8> {
    spec_be_bytes(n as int, 16)
}

fn be_bytes(n: u128, len: usize) -> (r: Vec<u8>)
    ensures
        r@ == spec_be_bytes(n as int, len as nat),
        r@.len() == len,
    decreases len,
{
    if len == 0 {
        Vec::new()
    } else {
        let mut r = be_bytes(n / 256, len - 1);
        r.push((n % 256) as u8);
        r
    }
}

/// The 4 big-endian bytes of a block index.
pub fn u32_bytes(n: u32) -> (r: Vec<u8>)
    ensures
        r@ == spec_u32_be(n),
{
    be_bytes(n as u128, 4)
}

/// The 8 big-endian bytes of an output value or nonce.
pub fn u64_bytes(n: u64) -> (r: Vec<u8>)
    ensures
        r@ == spec_u64_be(n),
{
    be_bytes(n as u128, 8)
}

/// The 16 big-endian bytes of a timestamp or difficulty.
pub fn u128_bytes(n: u128) -> (r: Vec<u8>)
    ensures
        r@ == spec_u128_be(n),
{
    be_bytes(n as u128, 16)
}

} // verus!
