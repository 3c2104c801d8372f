//! Verified core of an AshMaize proof-of-work nonce solver.
//!
//! The solver looks for a 64-bit nonce such that the AshMaize hash of the
//! preimage `hex16(nonce) ++ suffix` has a 32-bit big-endian prefix whose set
//! bits all lie inside a difficulty mask.  This crate holds the parts of that
//! search that are pure computation: the difficulty test, the preimage
//! encoding, the parsing of hexadecimal inputs, the way the nonce space is
//! split between CPU threads and GPUs, and the host-side layout of GPU
//! batches.  Hashing itself and the device driver calls are performed by the
//! caller, which hands their results back to the functions here.

use vstd::prelude::*;

pub mod difficulty;
pub mod hex;
pub mod challenge;
pub mod schedule;
pub mod batch;

verus! {

} // verus!
