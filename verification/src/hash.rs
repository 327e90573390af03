//! A stable, non-cryptographic 64-bit hash, used to derive a deterministic
//! baseline file name from a scanned root path.

use vstd::prelude::*;

verus! {

/// FNV-style offset basis.
pub const HASH_BASIS: u64 = 0xcbf29ce484222325;

/// FNV-style multiplicative prime.
pub const HASH_PRIME: u64 = 0x100000001b3;

/// One mixing step: fold a byte in, then multiply modulo `2^64`.
pub open spec fn hash64_step(h: u64, b: u8) -> u64 {
    vstd::wrapping::u64_specs::wrapping_mul(h ^ (b as u64), 0x100000001b3u64)
}

/// The hash of a byte string, folded left to right from the basis.
pub open spec fn hash64(s: Seq<u8>) -> u64
    decreases s.len(),
{
    if s.len() == 0 {
        0xcbf29ce484222325u64
    } else {
        hash64_step(hash64(s.drop_last()), s.last())
    }
}

/// Stable non-cryptographic hash of `data`: xor-then-multiply over each byte.
/// Deterministic across runs and machines; used only for file naming.
pub fn md5_simple(data: &Vec<u8>) -> (r: u64)
    ensures
        r == hash64(data@),
{
    let mut hash: u64 = 0xcbf29ce484222325;
    let mut i: usize = 0;
    while i < data.len()
        invariant
            i <= data@.len(),
            hash == hash64(data@.take(i as int)),
        decreases data@.len() - i,
    {
        proof {
            assert(data@.take((i + 1) as int).drop_last() =~= data@.take(i as int));
            assert(data@.take((i + 1) as int).last() == data@[i as int]);
        }
        hash = (hash ^ (data[i] as u64)).wrapping_mul(0x100000001b3);
        i = i + 1;
    }
    proof {
        assert(data@.take(data@.len() as int) =~= data@);
    }
    hash
}

} // verus!
