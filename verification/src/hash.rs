//! Stable 64-bit file hash.
//!
//! Log sites are keyed at build time by `(file hash, line)`.  The hash is
//! FNV-1a over the UTF-8 bytes of the source file path: deterministic, cheap,
//! and independent of the process.  Collisions are tolerable because the
//! registry checks real `(file, line)` uniqueness; the hash is a defensive
//! signature only.

use vstd::prelude::*;
use vstd::string::StringSliceAdditionalSpecFns;

verus! {

/// FNV-1a 64-bit offset basis.
pub const FNV_OFFSET_BASIS: u64 = 0xcbf29ce484222325;

/// FNV-1a 64-bit prime.
pub const FNV_PRIME: u64 = 0x100000001b3;

/// The FNV-1a hash of a byte sequence: starting from the offset basis, each
/// byte in turn is xor-ed into the state, which is then multiplied by the
/// FNV prime with wrap-around on 64 bits.
pub open spec fn spec_fnv1a_hash(bytes: Seq<u8>) -> u64
    decreases bytes.len(),
{
    if bytes.len() == 0 {
        FNV_OFFSET_BASIS
    } else {
        vstd::wrapping::u64_specs::wrapping_mul(
            spec_fnv1a_hash(bytes.drop_last()) ^ (bytes.last() as u64),
            FNV_PRIME,
        )
    }
}

/// Hash of a source file path, usable as the stable per-file witness of a
/// log site.
pub fn const_fnv1a_hash(filename: &str) -> (h: u64)
    ensures
        h == spec_fnv1a_hash(filename.spec_bytes()),
{
    let bytes: &[u8] = filename.as_bytes();
    let mut hash: u64 = FNV_OFFSET_BASIS;
    let mut i: usize = 0;
    while i < bytes.len()
        invariant
            i <= bytes@.len(),
            hash == spec_fnv1a_hash(bytes@.subrange(0, i as int)),
            bytes@ == filename.spec_bytes(),
        decreases bytes@.len() - i,
    {
        hash = (hash ^ (bytes[i] as u64)).wrapping_mul(FNV_PRIME);
        i = i + 1;
        proof {
            let prefix = bytes@.subrange(0, i as int);
            assert(prefix.drop_last() =~= bytes@.subrange(0, i - 1));
        }
    }
    proof {
        assert(bytes@.subrange(0, bytes@.len() as int) =~= bytes@);
    }
    hash
}

} // verus!
