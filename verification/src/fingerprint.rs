//! Content fingerprints of watched files: a deterministic FNV-1a hash of the
//! bytes, and the rule that decides whether a file changed between two reads.

use vstd::prelude::*;

verus! {

/// FNV-1a 64-bit offset basis.
pub const FNV_OFFSET_BASIS: u64 = 0xcbf29ce484222325;

/// FNV-1a 64-bit prime.
pub const FNV_PRIME: u64 = 0x100000001b3;

/// One FNV-1a round: xor the byte in, then multiply by the prime modulo 2^64.
pub open spec fn fnv1a_step(hash: u64, byte: u8) -> u64 {
    vstd::wrapping::u64_specs::wrapping_mul(hash ^ (byte as u64), FNV_PRIME)
}

/// FNV-1a 64-bit hash of a byte sequence, folded from the left.
pub open spec fn fnv1a(bytes: Seq<u8>) -> u64
    decreases bytes.len(),
{
    if bytes.len() == 0 {
        FNV_OFFSET_BASIS
    } else {
        fnv1a_step(fnv1a(bytes.drop_last()), bytes.last())
    }
}

/// Hashes file content with FNV-1a 64-bit, so that the same bytes give the
/// same fingerprint in every process.
pub fn hash_content_deterministic(bytes: &[u8]) -> (hash: u64)
    ensures
        hash == fnv1a(bytes@),
{
    let mut hash: u64 = FNV_OFFSET_BASIS;
    let mut i: usize = 0;
    while i < bytes.len()
        invariant
            i <= bytes.len(),
            hash == fnv1a(bytes@.take(i as int)),
        decreases bytes.len() - i,
    {
        let byte: u8 = bytes[i];
        proof {
            assert(bytes@.take(i + 1).drop_last() =~= bytes@.take(i as int));
        }
        hash = (hash ^ (byte as u64)).wrapping_mul(FNV_PRIME);
        i = i + 1;
    }
    proof {
        assert(bytes@.take(i as int) =~= bytes@);
    }
    hash
}

/// What is known of a file at one read: its modification time (nanoseconds
/// from the Unix epoch, negative before it), its length and its content hash.
#[derive(Clone, Copy, Debug, PartialEq, Eq, Structural)]
pub struct FileFingerprint {
    pub modified_ns: i128,
    pub len: u64,
    pub content_hash: u64,
}

/// A file counts as changed when it can be read now and its fingerprint
/// differs from the previous one (or there was none). A file that cannot be
/// read now never counts as changed.
pub open spec fn spec_fingerprint_changed(previous: Option<FileFingerprint>, current: Option<FileFingerprint>) -> bool {
    match current {
        Some(c) => previous != Some(c),
        None => false,
    }
}

/// Decides whether a watched file changed between two reads.
pub fn file_fingerprint_changed(previous: Option<FileFingerprint>, current: Option<FileFingerprint>) -> (changed: bool)
    ensures
        changed == spec_fingerprint_changed(previous, current),
{
    match current {
        Some(c) => match previous {
            Some(p) => p != c,
            None => true,
        },
        None => false,
    }
}

} // verus!
