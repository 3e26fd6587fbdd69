//! Numbers for devices that no usbmuxd daemon has numbered.
use vstd::prelude::*;
use vstd::utf8::encode_utf8;

verus! {

pub const FNV_OFFSET_BASIS: u32 = 0x811c_9dc5;

pub const FNV_PRIME: u32 = 0x0100_0193;

/// The bit that marks a made-up device number.
pub const SYNTHETIC_BIT: u32 = 0x8000_0000;

/// The 32 bit FNV-1a hash of some bytes.
pub open spec fn fnv1a(bytes: Seq<u8>) -> u32
    decreases bytes.len(),
{
    if bytes.len() == 0 {
        FNV_OFFSET_BASIS
    } else {
        (fnv1a(bytes.drop_last()) ^ bytes.last() as u32).wrapping_mul(FNV_PRIME)
    }
}

/// The hash with the marking bit set; the one such number that is all ones
/// becomes the marking bit alone.
pub open spec fn synthetic_id(bytes: Seq<u8>) -> u32 {
    let marked = fnv1a(bytes) | SYNTHETIC_BIT;
    if marked == u32::MAX {
        SYNTHETIC_BIT
    } else {
        marked
    }
}

/// The number of a device with this pairing identity.
pub fn synthetic_device_id(pairing_identity: &str) -> (r: u32)
    ensures
        r == synthetic_id(encode_utf8(pairing_identity@)),
{
    let bytes = pairing_identity.as_bytes();
    let mut hash: u32 = FNV_OFFSET_BASIS;
    let mut i: usize = 0;
    while i < bytes.len()
        invariant
            i <= bytes.len(),
            hash == fnv1a(bytes@.take(i as int)),
        decreases bytes.len() - i,
    {
        hash = hash ^ (bytes[i] as u32);
        hash = hash.wrapping_mul(FNV_PRIME);
        assert(bytes@.take(i + 1).drop_last() =~= bytes@.take(i as int));
        i += 1;
    }
    assert(bytes@.take(i as int) =~= bytes@);
    hash = hash | SYNTHETIC_BIT;
    if hash == u32::MAX {
        hash = SYNTHETIC_BIT;
    }
    hash
}

/// A made-up device number always has its marking bit set and is neither zero
/// nor all ones.
pub proof fn lemma_synthetic_id_range(bytes: Seq<u8>)
    ensures
        synthetic_id(bytes) & SYNTHETIC_BIT == SYNTHETIC_BIT,
        synthetic_id(bytes) >= SYNTHETIC_BIT,
        synthetic_id(bytes) != 0,
        synthetic_id(bytes) != u32::MAX,
{
    let hash = fnv1a(bytes);
    assert((hash | 0x8000_0000) & 0x8000_0000 == 0x8000_0000) by (bit_vector);
    assert(hash | 0x8000_0000 >= 0x8000_0000) by (bit_vector);
    assert(0x8000_0000u32 & 0x8000_0000u32 == 0x8000_0000u32) by (bit_vector);
}

/// The hash of nothing is the offset basis, and each further byte is mixed in by
/// an exclusive or and a product with the prime, to thirty-two bits.
pub proof fn lemma_hash_takes_bytes_in_turn(bytes: Seq<u8>, next: u8)
    ensures
        fnv1a(Seq::empty()) == 2166136261,
        fnv1a(bytes.push(next)) == ((fnv1a(bytes) ^ (next as u32)) * 16777619) % 0x1_0000_0000,
{
    assert(bytes.push(next).drop_last() =~= bytes);
}

/// A made-up device number has the lower thirty-one bits of the hash, except for the
/// one hash whose lower bits are all ones, which gives the marking bit alone.
pub proof fn lemma_synthetic_id_keeps_the_hash(bytes: Seq<u8>)
    ensures
        fnv1a(bytes) % 0x8000_0000 != 0x7fff_ffff ==> synthetic_id(bytes) == 0x8000_0000 + fnv1a(
            bytes,
        ) % 0x8000_0000,
        fnv1a(bytes) % 0x8000_0000 == 0x7fff_ffff ==> synthetic_id(bytes) == 0x8000_0000,
{
    let hash = fnv1a(bytes);
    assert(hash | 0x8000_0000 == 0x8000_0000 + hash % 0x8000_0000) by (bit_vector);
}

} // verus!
