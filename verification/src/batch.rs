//! Host-side layout of the buffers exchanged with a GPU for a batch of
//! hashes.

use vstd::prelude::*;
use vstd::arithmetic::mul::{lemma_mul_inequality, lemma_mul_is_distributive_add_other_way};
use crate::challenge::{preimage, preimage_spec};
use crate::hex::write_nonce_to_bytes;

verus! {

/// Size in bytes of one AshMaize digest.
pub const HASH_SIZE: usize = 64;

/// Size in bytes of one AshMaize VM instruction.
pub const INSTR_SIZE: usize = 20;

/// Number of characters of the hexadecimal nonce at the start of a preimage.
pub const NONCE_HEX_LEN: usize = 16;

/// Default number of GPU threads per block.
pub const THREADS_PER_BLOCK: u32 = 256;

/// The preimages of the `count` consecutive nonces starting at `start_nonce`.
pub fn batch_preimages(start_nonce: u64, count: usize, suffix: &[u8]) -> (salts: Vec<Vec<u8>>)
    requires
        count == 0 || start_nonce + (count - 1) <= u64::MAX,
    ensures
        salts.len() == count,
        forall|i: int|
            0 <= i < count ==> (#[trigger] salts@[i])@ == preimage_spec(
                (start_nonce + i) as u64,
                suffix@,
            ),
{
    let mut salts: Vec<Vec<u8>> = Vec::new();
    let mut i: usize = 0;
    while i < count
        invariant
            i <= count,
            count == 0 || start_nonce + (count - 1) <= u64::MAX,
            salts.len() == i,
            forall|k: int|
                0 <= k < i ==> (#[trigger] salts@[k])@ == preimage_spec(
                    (start_nonce + k) as u64,
                    suffix@,
                ),
        decreases count - i,
    {
        salts.push(preimage(start_nonce + i as u64, suffix));
        i = i + 1;
    }
    salts
}

/// The length of the longest salt, 0 when there is none.
pub fn max_salt_len(salts: &Vec<Vec<u8>>) -> (width: usize)
    ensures
        forall|i: int| 0 <= i < salts.len() ==> (#[trigger] salts@[i])@.len() <= width,
        salts.len() == 0 ==> width == 0,
        salts.len() > 0 ==> exists|i: int| 0 <= i < salts.len() && (#[trigger] salts@[i])@.len() == width,
{
    let mut width: usize = 0;
    let mut i: usize = 0;
    while i < salts.len()
        invariant
            i <= salts.len(),
            forall|k: int| 0 <= k < i ==> (#[trigger] salts@[k])@.len() <= width,
            i == 0 ==> width == 0,
            i > 0 ==> exists|k: int| 0 <= k < i && (#[trigger] salts@[k])@.len() == width,
        decreases salts.len() - i,
    {
        let len = salts[i].len();
        if len > width {
            width = len;
        }
        assert(salts@[i as int]@.len() == len);
        i = i + 1;
    }
    width
}

/// The bytes at `offset .. offset + len` of `s`.
pub open spec fn window(s: Seq<u8>, offset: int, len: int) -> Seq<u8> {
    s.subrange(offset, offset + len)
}

/// `salt` padded with zero bytes up to `width`.
pub open spec fn padded(salt: Seq<u8>, width: nat) -> Seq<u8> {
    salt + Seq::new((width - salt.len()) as nat, |j: int| 0u8)
}

/// Padding keeps the salt as it is and fills the rest of the slot with
/// zero bytes.
pub proof fn lemma_padded_layout(salt: Seq<u8>, width: nat)
    requires
        salt.len() <= width,
    ensures
        padded(salt, width).len() == width,
        padded(salt, width).subrange(0, salt.len() as int) == salt,
        forall|j: int| salt.len() <= j < width ==> #[trigger] padded(salt, width)[j] == 0u8,
{
    assert(padded(salt, width).subrange(0, salt.len() as int) =~= salt);
}

/// Packs the salts one after the other into slots of `width` bytes, each
/// salt padded with zeros, where `width` is the length of the longest salt.
pub fn pack_salts(salts: &Vec<Vec<u8>>) -> (packed: (Vec<u8>, usize))
    requires
        forall|i: int| 0 <= i < salts.len() ==> salts.len() * (#[trigger] salts@[i])@.len() <= usize::MAX,
    ensures
        forall|i: int| 0 <= i < salts.len() ==> (#[trigger] salts@[i])@.len() <= packed.1,
        salts.len() == 0 ==> packed.1 == 0,
        salts.len() > 0 ==> exists|i: int|
            0 <= i < salts.len() && (#[trigger] salts@[i])@.len() == packed.1,
        packed.0@.len() == salts.len() * packed.1,
        forall|i: int|
            0 <= i < salts.len() ==> #[trigger] window(packed.0@, i * packed.1, packed.1 as int)
                == padded(salts@[i]@, packed.1 as nat),
{
    let width = max_salt_len(salts);
    assert(salts.len() * width <= usize::MAX) by {
        if salts.len() > 0 {
            let w = choose|k: int| 0 <= k < salts.len() && (#[trigger] salts@[k])@.len() == width;
            assert(salts.len() * salts@[w]@.len() <= usize::MAX);
        }
    }
    let mut out: Vec<u8> = Vec::new();
    let mut i: usize = 0;
    while i < salts.len()
        invariant
            i <= salts.len(),
            forall|k: int| 0 <= k < salts.len() ==> (#[trigger] salts@[k])@.len() <= width,
            salts.len() * width <= usize::MAX,
            out@.len() == i * width,
            forall|k: int|
                0 <= k < i ==> #[trigger] window(out@, k * width, width as int) == padded(
                    salts@[k]@,
                    width as nat,
                ),
        decreases salts.len() - i,
    {
        let ghost before = out@;
        let salt = &salts[i];
        let mut j: usize = 0;
        while j < salt.len()
            invariant
                j <= salt.len(),
                salt@ == salts@[i as int]@,
                out@ == before + salt@.subrange(0, j as int),
            decreases salt.len() - j,
        {
            out.push(salt[j]);
            j = j + 1;
            assert(out@ =~= before + salt@.subrange(0, j as int));
        }
        let mut p: usize = salt.len();
        assert(salt@.subrange(0, salt.len() as int) =~= salt@);
        while p < width
            invariant
                salt.len() <= p <= width,
                salt@ == salts@[i as int]@,
                out@ == before + padded(salt@, p as nat),
            decreases width - p,
        {
            out.push(0u8);
            p = p + 1;
            assert(out@ =~= before + padded(salt@, p as nat));
        }
        proof {
            lemma_mul_is_distributive_add_other_way(width as int, i as int, 1);
            assert forall|k: int| 0 <= k < i + 1 implies #[trigger] window(
                out@,
                k * width,
                width as int,
            ) == padded(salts@[k]@, width as nat) by {
                if k < i {
                    lemma_mul_inequality(k + 1, i as int, width as int);
                    lemma_mul_is_distributive_add_other_way(width as int, k, 1);
                    assert(window(out@, k * width, width as int) =~= window(
                        before,
                        k * width,
                        width as int,
                    ));
                } else {
                    assert(window(out@, k * width, width as int) =~= padded(
                        salt@,
                        width as nat,
                    ));
                }
            }
        }
        i = i + 1;
    }
    (out, width)
}

/// Number of blocks of `threads_per_block` threads needed to give every one
/// of `num_hashes` hashes its own thread: `ceil(num_hashes / threads_per_block)`.
pub fn num_blocks(num_hashes: u32, threads_per_block: u32) -> (blocks: u32)
    requires
        threads_per_block > 0,
        num_hashes + threads_per_block <= u32::MAX,
    ensures
        blocks == (num_hashes + threads_per_block - 1) / (threads_per_block as int),
        blocks * threads_per_block >= num_hashes,
        blocks == 0 || (blocks - 1) * threads_per_block < num_hashes,
{
    let blocks = (num_hashes + threads_per_block - 1) / threads_per_block;
    assert(blocks * threads_per_block >= num_hashes && (blocks == 0 || (blocks - 1)
        * threads_per_block < num_hashes)) by (nonlinear_arith)
        requires
            threads_per_block > 0,
            blocks == (num_hashes + threads_per_block - 1) / (threads_per_block as int),
    ;
    blocks
}

/// Cuts the first `count * 64` bytes copied back from the device into
/// `count` digests.
pub fn split_results(results_host: &Vec<u8>, count: usize) -> (hashes: Vec<[u8; 64]>)
    requires
        count * HASH_SIZE <= results_host.len(),
    ensures
        hashes.len() == count,
        forall|i: int|
            0 <= i < count ==> (#[trigger] hashes@[i])@ == window(
                results_host@,
                i * HASH_SIZE,
                HASH_SIZE as int,
            ),
{
    let mut hashes: Vec<[u8; 64]> = Vec::new();
    let mut i: usize = 0;
    while i < count
        invariant
            i <= count,
            count * HASH_SIZE <= results_host.len(),
            hashes.len() == i,
            forall|k: int|
                0 <= k < i ==> (#[trigger] hashes@[k])@ == window(
                    results_host@,
                    k * HASH_SIZE,
                    HASH_SIZE as int,
                ),
        decreases count - i,
    {
        proof {
            lemma_mul_inequality(i + 1, count as int, HASH_SIZE as int);
            lemma_mul_is_distributive_add_other_way(HASH_SIZE as int, i as int, 1);
        }
        let start: usize = i * HASH_SIZE;
        let mut digest = [0u8; 64];
        let mut j: usize = 0;
        while j < HASH_SIZE
            invariant
                j <= HASH_SIZE,
                start + HASH_SIZE <= results_host.len(),
                forall|k: int| 0 <= k < j ==> digest@[k] == results_host@[start + k],
            decreases HASH_SIZE - j,
        {
            digest[j] = results_host[start + j];
            j = j + 1;
        }
        assert(digest@ =~= window(results_host@, start as int, HASH_SIZE as int));
        hashes.push(digest);
        i = i + 1;
    }
    hashes
}

/// The number of nonces actually hashed when `batch_size` are asked of a
/// device whose buffers hold `max_batch_size`.
pub fn actual_batch_size(batch_size: usize, max_batch_size: usize) -> (n: usize)
    ensures
        n == if batch_size < max_batch_size {
            batch_size
        } else {
            max_batch_size
        },
{
    if batch_size < max_batch_size {
        batch_size
    } else {
        max_batch_size
    }
}

/// The sizes of the buffers kept on a device that hashes batches of
/// preimages sharing one suffix.
#[derive(Clone, Copy, PartialEq, Eq, Structural, Debug)]
pub struct BatchLayout {
    /// Most nonces per batch.
    pub max_batch_size: usize,
    /// Bytes of one preimage slot: the 16 nonce digits and the suffix.
    pub max_salt_len: usize,
    /// Bytes of one VM program.
    pub program_size: usize,
    /// Bytes of the preimage buffer.
    pub salts_len: usize,
    /// Bytes of the program-seed buffer.
    pub seeds_len: usize,
    /// Bytes of the program buffer.
    pub programs_len: usize,
    /// Bytes of the result buffer.
    pub results_len: usize,
}

/// Whether `layout` is the one for a suffix of `suffix_len` bytes, batches of
/// up to `max_batch_size` nonces and programs of `nb_instrs` instructions.
pub open spec fn layout_for(layout: BatchLayout, suffix_len: nat, max_batch_size: nat, nb_instrs: nat) -> bool {
    &&& layout.max_batch_size == max_batch_size
    &&& layout.max_salt_len == NONCE_HEX_LEN + suffix_len
    &&& layout.program_size == nb_instrs * INSTR_SIZE
    &&& layout.salts_len == max_batch_size * layout.max_salt_len
    &&& layout.seeds_len == max_batch_size * HASH_SIZE
    &&& layout.programs_len == max_batch_size * layout.program_size
    &&& layout.results_len == max_batch_size * HASH_SIZE
}

/// Computes the buffer sizes for a suffix of `suffix_len` bytes, batches of
/// up to `max_batch_size` nonces and programs of `nb_instrs` instructions.
pub fn batch_layout(suffix_len: usize, max_batch_size: usize, nb_instrs: u32) -> (layout: BatchLayout)
    requires
        NONCE_HEX_LEN + suffix_len <= usize::MAX,
        nb_instrs * INSTR_SIZE <= usize::MAX,
        max_batch_size * (NONCE_HEX_LEN + suffix_len) <= usize::MAX,
        max_batch_size * HASH_SIZE <= usize::MAX,
        max_batch_size * (nb_instrs * INSTR_SIZE) <= usize::MAX,
    ensures
        layout_for(layout, suffix_len as nat, max_batch_size as nat, nb_instrs as nat),
{
    let max_salt_len = NONCE_HEX_LEN + suffix_len;
    let program_size = nb_instrs as usize * INSTR_SIZE;
    BatchLayout {
        max_batch_size,
        max_salt_len,
        program_size,
        salts_len: max_batch_size * max_salt_len,
        seeds_len: max_batch_size * HASH_SIZE,
        programs_len: max_batch_size * program_size,
        results_len: max_batch_size * HASH_SIZE,
    }
}

/// Copies `src` into `buf` at `pos`, leaving every other byte alone.
pub fn copy_into(buf: &mut Vec<u8>, pos: usize, src: &[u8])
    requires
        pos + src.len() <= old(buf).len(),
    ensures
        final(buf)@ == old(buf)@.subrange(0, pos as int) + src@ + old(buf)@.subrange(
            pos + src.len(),
            old(buf)@.len() as int,
        ),
{
    let ghost before = buf@;
    let mut j: usize = 0;
    while j < src.len()
        invariant
            j <= src.len(),
            pos + src.len() <= before.len(),
            buf@.len() == before.len(),
            pos + src.len() <= buf.len(),
            forall|k: int|
                0 <= k < before.len() && !(pos <= k < pos + j) ==> #[trigger] buf@[k] == before[k],
            forall|k: int| 0 <= k < j ==> buf@[pos + k] == src@[k],
        decreases src.len() - j,
    {
        buf.set(pos + j, src[j]);
        j = j + 1;
    }
    assert(buf@ =~= before.subrange(0, pos as int) + src@ + before.subrange(
        pos + src.len(),
        before.len() as int,
    ));
}

/// Writes the preimages of the `count` nonces from `start_nonce` on into the
/// slots of `max_salt_len` bytes at the front of `salt_bytes`: slot `i` gets
/// the 16 hexadecimal digits of `start_nonce + i` followed by `suffix`.
/// The bytes after the last slot are left alone.
pub fn fill_salt_batch(
    salt_bytes: &mut Vec<u8>,
    suffix: &[u8],
    max_salt_len: usize,
    start_nonce: u64,
    count: usize,
)
    requires
        max_salt_len == NONCE_HEX_LEN + suffix.len(),
        count * max_salt_len <= old(salt_bytes).len(),
        count == 0 || start_nonce + (count - 1) <= u64::MAX,
    ensures
        final(salt_bytes)@.len() == old(salt_bytes)@.len(),
        forall|i: int|
            0 <= i < count ==> #[trigger] window(final(salt_bytes)@, i * max_salt_len, max_salt_len as int)
                == preimage_spec((start_nonce + i) as u64, suffix@),
        forall|k: int|
            count * max_salt_len <= k < old(salt_bytes)@.len() ==> #[trigger] final(salt_bytes)@[k]
                == old(salt_bytes)@[k],
{
    let ghost original = salt_bytes@;
    let m = max_salt_len;
    let mut i: usize = 0;
    while i < count
        invariant
            i <= count,
            m == max_salt_len,
            max_salt_len == NONCE_HEX_LEN + suffix.len(),
            count * m <= original.len(),
            count * m <= salt_bytes.len(),
            count == 0 || start_nonce + (count - 1) <= u64::MAX,
            salt_bytes@.len() == original.len(),
            forall|k: int|
                0 <= k < i ==> #[trigger] window(salt_bytes@, k * m, m as int) == preimage_spec(
                    (start_nonce + k) as u64,
                    suffix@,
                ),
            forall|k: int| i * m <= k < original.len() ==> #[trigger] salt_bytes@[k] == original[k],
        decreases count - i,
    {
        proof {
            lemma_mul_inequality(i + 1, count as int, m as int);
            lemma_mul_is_distributive_add_other_way(m as int, i as int, 1);
        }
        let ghost before = salt_bytes@;
        let salt_start: usize = i * m;
        let nonce: u64 = start_nonce + i as u64;
        write_nonce_to_bytes(salt_bytes, nonce, salt_start);
        copy_into(salt_bytes, salt_start + NONCE_HEX_LEN, suffix);
        proof {
            assert(window(salt_bytes@, salt_start as int, m as int) =~= preimage_spec(nonce, suffix@));
            assert forall|k: int| 0 <= k < i + 1 implies #[trigger] window(salt_bytes@, k * m, m as int)
                == preimage_spec((start_nonce + k) as u64, suffix@) by {
                if k < i {
                    lemma_mul_inequality(k + 1, i as int, m as int);
                    lemma_mul_is_distributive_add_other_way(m as int, k, 1);
                    assert(window(salt_bytes@, k * m, m as int) =~= window(before, k * m, m as int));
                }
            }
        }
        i = i + 1;
    }
}

/// The two ways of preparing a batch for the device feed it the same bytes:
/// packing the preimages of consecutive nonces (each padded to the longest)
/// gives slots of `16 + suffix.len()` bytes, and every slot holds exactly the
/// preimage that the pre-allocated buffer gets for that nonce.
pub proof fn lemma_packed_batch_matches_slots(
    salts: Seq<Seq<u8>>,
    start_nonce: u64,
    suffix: Seq<u8>,
    width: nat,
)
    requires
        salts.len() > 0,
        start_nonce + (salts.len() - 1) <= u64::MAX,
        forall|i: int|
            0 <= i < salts.len() ==> #[trigger] salts[i] == preimage_spec(
                (start_nonce + i) as u64,
                suffix,
            ),
        exists|i: int| 0 <= i < salts.len() && (#[trigger] salts[i]).len() == width,
    ensures
        width == NONCE_HEX_LEN + suffix.len(),
        forall|i: int|
            0 <= i < salts.len() ==> #[trigger] padded(salts[i], width) == preimage_spec(
                (start_nonce + i) as u64,
                suffix,
            ),
{
    let w = choose|i: int| 0 <= i < salts.len() && (#[trigger] salts[i]).len() == width;
    assert(salts[w].len() == NONCE_HEX_LEN + suffix.len());
    assert forall|i: int| 0 <= i < salts.len() implies #[trigger] padded(salts[i], width)
        == preimage_spec((start_nonce + i) as u64, suffix) by {
        assert(padded(salts[i], width) =~= salts[i]);
    }
}

} // verus!
