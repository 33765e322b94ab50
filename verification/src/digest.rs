//! The content digest: MurmurHash3 x64 128 over all bytes of a file.

use fasthash::murmur3::Hasher128_x64;
use vstd::prelude::*;

verus! {

#[verifier::external_type_specification]
#[verifier::external_body]
pub struct ExHasher128X64(Hasher128_x64);

/// The bytes written to a hasher so far, in the order written.
pub uninterp spec fn hasher_bytes(h: Hasher128_x64) -> Seq<u8>;

/// Whether the hasher was made with a seed of its own. A hasher made
/// without one hashes with the default seed.
pub uninterp spec fn hasher_seeded(h: Hasher128_x64) -> bool;

/// The MurmurHash3 x64 128 value of a byte string, with the default seed.
pub uninterp spec fn murmur3_x64_128(data: Seq<u8>) -> u128;

/// The longest byte string that the hash function takes: its length is
/// passed on as a signed 32-bit number.
pub const DIGEST_LIMIT: usize = 2147483647;

/// Calls `Hasher128_x64::default`: a hasher without a seed, to which nothing
/// has been written.
#[verifier::external_body]
pub(crate) fn hasher_new() -> (h: Hasher128_x64)
    ensures
        hasher_bytes(h) == Seq::<u8>::empty(),
        !hasher_seeded(h),
{
    Hasher128_x64::default()
}

/// Calls `Hasher::write` of `Hasher128_x64`, which appends the bytes to
/// those it holds and leaves the seed alone.
#[verifier::external_body]
pub(crate) fn hasher_write(h: &mut Hasher128_x64, bytes: &[u8])
    ensures
        hasher_bytes(*final(h)) == hasher_bytes(*old(h)) + bytes@,
        hasher_seeded(*final(h)) == hasher_seeded(*old(h)),
{
    std::hash::Hasher::write(h, bytes)
}

/// Calls `BufHasher::len` of `Hasher128_x64`: the number of bytes written.
#[verifier::external_body]
pub(crate) fn hasher_len(h: &Hasher128_x64) -> (r: usize)
    ensures
        r == hasher_bytes(*h).len(),
{
    fasthash::BufHasher::len(h)
}

/// Calls `HasherExt::finish_ext` of `Hasher128_x64`, which hashes all bytes
/// written, with the default seed where the hasher has none of its own.
#[verifier::external_body]
pub(crate) fn hasher_finish(h: &Hasher128_x64) -> (r: u128)
    requires
        hasher_bytes(*h).len() <= DIGEST_LIMIT,
        !hasher_seeded(*h),
    ensures
        r == murmur3_x64_128(hasher_bytes(*h)),
{
    fasthash::HasherExt::finish_ext(h)
}

} // verus!
