//! What a challenge asks to be hashed: the ROM to build and the preimages.

use vstd::prelude::*;
use crate::hex::{nonce_hex, write_nonce_to_bytes};
use vstd::string::StringSliceAdditionalSpecFns;

verus! {

/// One mebibyte.
pub const MB: usize = 1024 * 1024;

/// One gibibyte.
pub const GB: usize = 1024 * MB;

/// Number of loops of the AshMaize VM used by the solver.
pub const NB_LOOPS: u32 = 8;

/// Number of instructions per AshMaize VM program used by the solver.
pub const NB_INSTRS: u32 = 256;

/// The parameters of an AshMaize ROM built with two-step generation.
pub struct RomConfig {
    /// The key the ROM is generated from.
    pub key: Vec<u8>,
    /// Size of the pre-ROM of the two-step generation, in bytes.
    pub pre_size: usize,
    /// Number of mixing rounds of the two-step generation.
    pub mixing_numbers: usize,
    /// Size of the ROM, in bytes.
    pub size: usize,
}

/// The ROM a challenge is solved against: keyed by the `no_pre_mine` value
/// as text, with a 16 MiB pre-ROM, 4 mixing rounds and a size of 1 GiB.
pub fn init_rom(no_pre_mine_hex: &str) -> (config: RomConfig)
    ensures
        config.key@ == no_pre_mine_hex.spec_bytes(),
        config.pre_size == 16 * MB,
        config.mixing_numbers == 4,
        config.size == GB,
{
    let bytes = no_pre_mine_hex.as_bytes();
    let mut key: Vec<u8> = Vec::new();
    append_bytes(&mut key, bytes);
    assert(key@ =~= bytes@);
    RomConfig { key, pre_size: 16 * MB, mixing_numbers: 4, size: GB }
}

/// Appends `bytes` to `out`.
pub fn append_bytes(out: &mut Vec<u8>, bytes: &[u8])
    ensures
        final(out)@ == old(out)@ + bytes@,
{
    let ghost start = out@;
    let mut i: usize = 0;
    while i < bytes.len()
        invariant
            i <= bytes.len(),
            out@ == start + bytes@.subrange(0, i as int),
        decreases bytes.len() - i,
    {
        out.push(bytes[i]);
        i = i + 1;
        assert(out@ =~= start + bytes@.subrange(0, i as int));
    }
    assert(bytes@.subrange(0, bytes.len() as int) =~= bytes@);
}

/// The text that follows the nonce in every preimage of a challenge: the
/// six challenge fields, concatenated in this order.
pub fn challenge_suffix(
    address: &[u8],
    challenge_id: &[u8],
    difficulty: &[u8],
    no_pre_mine: &[u8],
    latest_submission: &[u8],
    no_pre_mine_hour: &[u8],
) -> (suffix: Vec<u8>)
    ensures
        suffix@ == address@ + challenge_id@ + difficulty@ + no_pre_mine@ + latest_submission@
            + no_pre_mine_hour@,
{
    let mut suffix: Vec<u8> = Vec::new();
    append_bytes(&mut suffix, address);
    append_bytes(&mut suffix, challenge_id);
    append_bytes(&mut suffix, difficulty);
    append_bytes(&mut suffix, no_pre_mine);
    append_bytes(&mut suffix, latest_submission);
    append_bytes(&mut suffix, no_pre_mine_hour);
    assert(suffix@ =~= address@ + challenge_id@ + difficulty@ + no_pre_mine@
        + latest_submission@ + no_pre_mine_hour@);
    suffix
}

/// The preimage hashed for `nonce`: its 16 lowercase hexadecimal digits
/// followed by the challenge suffix.
pub open spec fn preimage_spec(nonce: u64, suffix: Seq<u8>) -> Seq<u8> {
    nonce_hex(nonce) + suffix
}

/// Builds the preimage of `nonce`, the bytes of `format!("{:016x}{}", nonce, suffix)`.
pub fn preimage(nonce: u64, suffix: &[u8]) -> (bytes: Vec<u8>)
    ensures
        bytes@ == preimage_spec(nonce, suffix@),
        bytes@.len() == 16 + suffix@.len(),
        bytes@.subrange(0, 16) == nonce_hex(nonce),
        bytes@.subrange(16, bytes@.len() as int) == suffix@,
{
    let mut bytes: Vec<u8> = vec![0u8; 16];
    write_nonce_to_bytes(&mut bytes, nonce, 0);
    assert(bytes@ =~= nonce_hex(nonce));
    append_bytes(&mut bytes, suffix);
    proof {
        lemma_preimage_layout(nonce, suffix@);
    }
    bytes
}

/// Every preimage is the 16 nonce digits followed by the whole suffix,
/// unchanged, whatever its length.
pub proof fn lemma_preimage_layout(nonce: u64, suffix: Seq<u8>)
    ensures
        preimage_spec(nonce, suffix).len() == 16 + suffix.len(),
        preimage_spec(nonce, suffix).subrange(0, 16) == nonce_hex(nonce),
        preimage_spec(nonce, suffix).subrange(16, 16 + suffix.len() as int) == suffix,
        forall|j: int| 0 <= j < suffix.len() ==> preimage_spec(nonce, suffix)[16 + j] == #[trigger] suffix[j],
{
    let p = preimage_spec(nonce, suffix);
    assert(p.subrange(0, 16) =~= nonce_hex(nonce));
    assert(p.subrange(16, 16 + suffix.len() as int) =~= suffix);
}

/// Preimages of the same nonce with different suffixes differ, and so do
/// preimages of different nonces: a preimage determines both its nonce and
/// its suffix.
pub proof fn lemma_preimage_injective(n1: u64, s1: Seq<u8>, n2: u64, s2: Seq<u8>)
    requires
        preimage_spec(n1, s1) == preimage_spec(n2, s2),
    ensures
        n1 == n2,
        s1 == s2,
{
    lemma_preimage_layout(n1, s1);
    lemma_preimage_layout(n2, s2);
    crate::hex::lemma_nonce_hex_injective(n1, n2);
}

} // verus!
