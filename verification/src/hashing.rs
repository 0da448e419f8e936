//! Hashing and SCALE encoding used by the games.
use vstd::prelude::*;

verus! {

/// The Keccak-256 digest of `data`.
pub uninterp spec fn keccak_256_of(data: Seq<u8>) -> Seq<u8>;

/// `sp_io::hashing::keccak_256`: the 32-byte Keccak-256 digest of `data`,
/// a function of `data` alone (named, not restated).
#[verifier::external_body]
pub(crate) fn keccak_256(data: &[u8]) -> (r: [u8; 32])
    ensures
        r@ == keccak_256_of(data@),
{
    sp_io::hashing::keccak_256(data)
}

/// Byte `i` (least significant first) of `n`.
pub open spec fn le_byte(n: u64, i: int) -> u8 {
    ((n >> ((8 * i) as u64)) & 0xffu64) as u8
}

/// The eight little-endian bytes of `n`.
pub open spec fn le_bytes(n: u64) -> Seq<u8> {
    Seq::new(8, |i: int| le_byte(n, i))
}

/// `parity_scale_codec::Encode::encode` on a `u64`: SCALE writes a `u64` as
/// its eight little-endian bytes.
#[verifier::external_body]
pub(crate) fn encode_u64(n: u64) -> (r: Vec<u8>)
    ensures
        r@ == le_bytes(n),
{
    parity_scale_codec::Encode::encode(&n)
}

} // verus!
