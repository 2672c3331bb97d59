//! Proofs that an execution-layer block header belongs to Ethereum's
//! canonical chain history.
//!
//! The crate pairs an execution block header with one of three Merkle-proof
//! variants (one per chain era) inside a binary envelope, and builds the two
//! post-merge proof variants from already-hashed beacon-chain data.

use vstd::prelude::*;

pub mod builders;
pub mod byteseq;
pub mod envelope;
pub mod hashing;
pub mod header;
pub mod merkle;
pub mod rlp;
pub mod variants;

verus! {

/// Timestamp of the last proof-of-work block; headers at or before this
/// moment are proven against the pre-merge header accumulator.
pub const MERGE_TIMESTAMP: u64 = 1663224162;

/// Timestamp of the last pre-Shanghai block; headers at or before this
/// moment (and after the merge) are proven against `historical_roots`.
pub const SHANGHAI_TIMESTAMP: u64 = 1681338455;

/// First block number of the London fork; headers from this number on
/// carry a base fee.
pub const LONDON_BLOCK_NUMBER: u64 = 12965000;

/// Number of slots committed to by one historical batch or summary.
pub const SLOTS_PER_HISTORICAL_ROOT: u64 = 8192;

/// Why a byte string was rejected by one of the decoders.
#[derive(Clone, Copy, Debug, PartialEq, Eq, Structural)]
pub enum DecodeError {
    /// Fewer bytes than the encoding announces.
    Truncated,
    /// A length or integer written in a form the encoders never produce.
    NonCanonical,
    /// A list where a byte string was expected, or the reverse.
    TypeMismatch,
    /// A field payload whose size does not fit the field.
    FieldLength,
    /// Well-formed items followed by spurious bytes.
    TrailingBytes,
    /// An envelope offset table that does not describe two items.
    OffsetInvalid,
    /// A proof blob whose size does not match the era's proof shape.
    ProofLength,
    /// An execution branch with more hashes than any era uses.
    BranchTooLong,
}

} // verus!
