//! Small, stable hashing helpers.

use vstd::prelude::*;

verus! {

/// The FNV-1a 64-bit offset basis.
pub const FNV_OFFSET: u64 = 0xcbf2_9ce4_8422_2325;

/// The FNV-1a 64-bit prime.
pub const FNV_PRIME: u64 = 0x0000_0100_0000_01b3;

/// One FNV-1a round: fold a byte in, then multiply (mod 2^64).
pub open spec fn fnv_step(h: u64, b: u8) -> u64 {
    (h ^ (b as u64)).wrapping_mul(FNV_PRIME)
}

/// FNV-1a (64-bit) of a byte sequence: every byte folded in, first to last,
/// starting from the offset basis.
pub open spec fn fnv_hash(bytes: Seq<u8>) -> u64 {
    bytes.fold_left(FNV_OFFSET, |h: u64, b: u8| fnv_step(h, b))
}

/// FNV-1a (64-bit). A fast, stable, non-cryptographic hash — used for
/// deterministic digests and RNG-free "pick one" rotations. Stable across
/// builds, so values hashed here can be compared/asserted in tests.
pub fn fnv1a(bytes: &[u8]) -> (h: u64)
    ensures
        h == fnv_hash(bytes@),
{
    let mut h: u64 = FNV_OFFSET;
    let mut i: usize = 0;
    while i < bytes.len()
        invariant
            i <= bytes@.len(),
            h == fnv_hash(bytes@.take(i as int)),
        decreases bytes@.len() - i,
    {
        proof {
            assert(bytes@.take(i + 1).drop_last() =~= bytes@.take(i as int));
        }
        h = h ^ (bytes[i] as u64);
        h = h.wrapping_mul(FNV_PRIME);
        i += 1;
    }
    proof {
        assert(bytes@.take(bytes@.len() as int) =~= bytes@);
    }
    h
}

/// Hashing more bytes extends the hash of the prefix: the digest of `a + b`
/// is the digest of `a` carried on through `b`, so a hash can be computed
/// incrementally.
pub proof fn law_fnv_is_incremental(a: Seq<u8>, b: Seq<u8>)
    ensures
        fnv_hash(a + b) == b.fold_left(fnv_hash(a), |h: u64, x: u8| fnv_step(h, x)),
    decreases b.len(),
{
    if b.len() > 0 {
        law_fnv_is_incremental(a, b.drop_last());
        assert((a + b).drop_last() =~= a + b.drop_last());
    } else {
        assert(a + b =~= a);
    }
}

} // verus!
