//! The difficulty test applied to a candidate hash.

use vstd::prelude::*;

verus! {

/// The first four bytes of `hash`, read as a big-endian unsigned integer.
pub open spec fn hash_prefix(hash: Seq<u8>) -> u32
    recommends
        hash.len() >= 4,
{
    (hash[0] as int * 0x100_0000 + hash[1] as int * 0x1_0000 + hash[2] as int * 0x100
        + hash[3] as int) as u32
}

/// A hash meets the difficulty `mask` when it has at least four bytes and
/// every bit set in its big-endian prefix is also set in `mask`.
pub open spec fn meets_difficulty(hash: Seq<u8>, mask: u32) -> bool {
    hash.len() >= 4 && hash_prefix(hash) & !mask == 0
}

/// Decides whether `hash` satisfies the difficulty mask.
pub fn hash_structure_good(hash: &[u8], difficulty_mask: u32) -> (good: bool)
    ensures
        good == meets_difficulty(hash@, difficulty_mask),
{
    if hash.len() < 4 {
        return false;
    }
    let b0 = hash[0];
    let b1 = hash[1];
    let b2 = hash[2];
    let b3 = hash[3];
    let prefix: u32 = ((b0 as u32) << 24u32) | ((b1 as u32) << 16u32) | ((b2 as u32) << 8u32)
        | (b3 as u32);
    assert(prefix == (b0 as int * 0x100_0000 + b1 as int * 0x1_0000 + b2 as int * 0x100
        + b3 as int) as u32) by (bit_vector)
        requires
            prefix == ((b0 as u32) << 24u32) | ((b1 as u32) << 16u32) | ((b2 as u32) << 8u32)
                | (b3 as u32),
    ;
    (prefix & !difficulty_mask) == 0
}

/// Widening the difficulty mask never rejects a hash that was accepted:
/// if every bit of `narrow` is set in `wide`, a hash that meets `narrow`
/// also meets `wide`.
pub proof fn lemma_wider_mask_accepts_more(hash: Seq<u8>, narrow: u32, wide: u32)
    requires
        narrow & !wide == 0,
        meets_difficulty(hash, narrow),
    ensures
        meets_difficulty(hash, wide),
{
    let p = hash_prefix(hash);
    assert(p & !wide == 0) by (bit_vector)
        requires
            p & !narrow == 0,
            narrow & !wide == 0,
    ;
}

/// Only the first four bytes of a hash take part in the difficulty test.
pub proof fn lemma_only_prefix_matters(h1: Seq<u8>, h2: Seq<u8>, mask: u32)
    requires
        h1.len() >= 4,
        h2.len() >= 4,
        h1.subrange(0, 4) == h2.subrange(0, 4),
    ensures
        meets_difficulty(h1, mask) == meets_difficulty(h2, mask),
{
    assert(h1[0] == h1.subrange(0, 4)[0]);
    assert(h1[1] == h1.subrange(0, 4)[1]);
    assert(h1[2] == h1.subrange(0, 4)[2]);
    assert(h1[3] == h1.subrange(0, 4)[3]);
}

/// A mask of the `k` low bits accepts exactly the hashes whose prefix is
/// below `2^k`, that is, whose first `32 - k` bits are zero.
pub proof fn lemma_low_bits_mask_is_threshold(hash: Seq<u8>, k: u32)
    requires
        hash.len() >= 4,
        k < 32,
    ensures
        meets_difficulty(hash, ((1u32 << k) - 1) as u32) <==> hash_prefix(hash) < (1u32 << k),
{
    let p = hash_prefix(hash);
    assert((p & !(((1u32 << k) - 1) as u32) == 0) <==> p < (1u32 << k)) by (bit_vector)
        requires
            k < 32,
    ;
}

/// The full mask accepts every hash of at least four bytes, and the empty
/// mask accepts exactly the hashes whose first four bytes are zero.
pub proof fn lemma_extreme_masks(hash: Seq<u8>)
    requires
        hash.len() >= 4,
    ensures
        meets_difficulty(hash, u32::MAX),
        meets_difficulty(hash, 0) <==> (hash[0] == 0 && hash[1] == 0 && hash[2] == 0 && hash[3]
            == 0),
{
    let p = hash_prefix(hash);
    assert(p & !0xffff_ffffu32 == 0) by (bit_vector);
    assert((p & !0u32 == 0) <==> p == 0) by (bit_vector);
}

/// The prefix is the first four bytes, most significant first: shifting and
/// masking it gives back each byte.
pub proof fn lemma_prefix_is_first_four_bytes(hash: Seq<u8>)
    requires
        hash.len() >= 4,
    ensures
        (hash_prefix(hash) >> 24u32) == hash[0] as u32,
        (hash_prefix(hash) >> 16u32) & 0xffu32 == hash[1] as u32,
        (hash_prefix(hash) >> 8u32) & 0xffu32 == hash[2] as u32,
        hash_prefix(hash) & 0xffu32 == hash[3] as u32,
{
    let p = hash_prefix(hash);
    let b0 = hash[0];
    let b1 = hash[1];
    let b2 = hash[2];
    let b3 = hash[3];
    assert((p >> 24u32) == b0 as u32 && (p >> 16u32) & 0xffu32 == b1 as u32 && (p >> 8u32) & 0xffu32
        == b2 as u32 && p & 0xffu32 == b3 as u32) by (bit_vector)
        requires
            p == (b0 as int * 0x100_0000 + b1 as int * 0x1_0000 + b2 as int * 0x100
                + b3 as int) as u32,
    ;
}

/// A hash shorter than four bytes meets no difficulty at all.
pub proof fn lemma_short_hash_never_meets(hash: Seq<u8>, mask: u32)
    requires
        hash.len() < 4,
    ensures
        !meets_difficulty(hash, mask),
{
}

/// A hash whose prefix has a bit set where the mask has it clear does not
/// meet the difficulty, whatever the other bits are.
pub proof fn lemma_stray_bit_rejects(hash: Seq<u8>, mask: u32, b: u32)
    requires
        b < 32,
        (hash_prefix(hash) >> b) & 1u32 == 1u32,
        (mask >> b) & 1u32 == 0u32,
    ensures
        !meets_difficulty(hash, mask),
{
    let p = hash_prefix(hash);
    assert(p & !mask != 0u32) by (bit_vector)
        requires
            b < 32,
            (p >> b) & 1u32 == 1u32,
            (mask >> b) & 1u32 == 0u32,
    ;
}

/// A hash of at least four bytes meets the difficulty exactly when adding
/// the bits of its prefix to the mask leaves the mask unchanged.
pub proof fn lemma_meets_iff_prefix_inside_mask(hash: Seq<u8>, mask: u32)
    requires
        hash.len() >= 4,
    ensures
        meets_difficulty(hash, mask) <==> (hash_prefix(hash) | mask) == mask,
        meets_difficulty(hash, mask) <==> (hash_prefix(hash) & mask) == hash_prefix(hash),
{
    let p = hash_prefix(hash);
    assert((p & !mask == 0u32) <==> (p | mask) == mask) by (bit_vector);
    assert((p & !mask == 0u32) <==> (p & mask) == p) by (bit_vector);
}

} // verus!
