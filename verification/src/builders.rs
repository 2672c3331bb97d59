//! Builders for the two post-merge proof variants.
//!
//! A builder consumes already-hashed beacon-chain data owned by the caller
//! and composes two independently computed Merkle branches: the beacon-block
//! branch for leaf `slot % 8192` within the caller's historical data, and
//! the execution branch, which is the payload-to-body branch extended by the
//! body-root-to-block-root branch, in that order.
//!
//! Builders never fail. They do not check that the supplied data belongs to
//! the period containing `slot`: inconsistent data yields a structurally
//! valid proof that downstream cryptographic verification rejects.

use vstd::prelude::*;
use crate::SLOTS_PER_HISTORICAL_ROOT;
use crate::byteseq::{copy_bytes, copy_hashes, hashes_view};
use crate::merkle::{
    all_hashes32, build_merkle_proof_for_index, compute_merkle_root, is_pow2, log2,
    merkle_branch, merkle_root_of,
};
use crate::variants::{
    wf_roots_v, wf_summaries_v, BlockProofHistoricalRoots, BlockProofHistoricalSummaries,
};

verus! {

proof fn lemma_8192_pow2()
    ensures
        is_pow2(8192),
        log2(8192) == 13,
{
    reveal_with_fuel(is_pow2, 15);
    reveal_with_fuel(log2, 15);
}

/// Body of a Bellatrix-era beacon block, already hashed down to what the
/// builders read.
pub struct BeaconBlockBodyBellatrix {
    /// Branch tying the execution payload's block hash to the body root:
    /// eight hashes.
    pub execution_block_hash_proof: Vec<Vec<u8>>,
}

/// A Bellatrix-era beacon block, already hashed down to what the builders
/// read.
pub struct BeaconBlockBellatrix {
    /// The block's body.
    pub body: BeaconBlockBodyBellatrix,
    /// Branch tying the body root to the block root: three hashes.
    pub body_root_proof: Vec<Vec<u8>>,
    /// The block's hash tree root.
    pub root: Vec<u8>,
}

/// Body of a Capella-era beacon block, already hashed down to what the
/// builders read.
pub struct BeaconBlockBodyCapella {
    /// Branch tying the execution payload's block hash to the body root.
    pub execution_block_hash_proof: Vec<Vec<u8>>,
}

/// A Capella-era beacon block, already hashed down to what the builders
/// read.
pub struct BeaconBlockCapella {
    /// The block's body.
    pub body: BeaconBlockBodyCapella,
    /// Branch tying the body root to the block root.
    pub body_root_proof: Vec<Vec<u8>>,
    /// The block's hash tree root.
    pub root: Vec<u8>,
}

/// One period of beacon-chain history: the block and state roots of 8192
/// consecutive slots.
pub struct HistoricalBatch {
    /// One block root per slot of the period.
    pub block_roots: Vec<Vec<u8>>,
    /// One state root per slot of the period.
    pub state_roots: Vec<Vec<u8>>,
}

/// The part of a Capella-era beacon state the builders read.
pub struct BeaconStateCapella {
    /// One block root per slot of the period.
    pub block_roots: Vec<Vec<u8>>,
}

impl BeaconBlockBodyBellatrix {
    /// Eight 32-byte hashes.
    pub open spec fn wf(&self) -> bool {
        self.execution_block_hash_proof@.len() == 8 && all_hashes32(
            self.execution_block_hash_proof@,
        )
    }

    /// The branch tying the execution payload's block hash to the body
    /// root.
    pub fn build_execution_block_hash_proof(&self) -> (r: Vec<Vec<u8>>)
        ensures
            hashes_view(r@) == hashes_view(self.execution_block_hash_proof@),
            r@.len() == self.execution_block_hash_proof@.len(),
    {
        copy_hashes(&self.execution_block_hash_proof)
    }
}

impl BeaconBlockBellatrix {
    /// The branches have the Bellatrix tree's widths and every hash is 32
    /// bytes.
    pub open spec fn wf(&self) -> bool {
        &&& self.body.wf()
        &&& self.body_root_proof@.len() == 3
        &&& all_hashes32(self.body_root_proof@)
        &&& self.root@.len() == 32
    }

    /// The branch tying the body root to the block root.
    pub fn build_body_root_proof(&self) -> (r: Vec<Vec<u8>>)
        ensures
            hashes_view(r@) == hashes_view(self.body_root_proof@),
            r@.len() == self.body_root_proof@.len(),
    {
        copy_hashes(&self.body_root_proof)
    }

    /// The block's hash tree root.
    pub fn tree_hash_root(&self) -> (r: Vec<u8>)
        ensures
            r@ == self.root@,
    {
        copy_bytes(&self.root)
    }
}

impl BeaconBlockBodyCapella {
    /// 32-byte hashes; together with the body-root branch at most twelve.
    pub open spec fn wf(&self) -> bool {
        all_hashes32(self.execution_block_hash_proof@)
    }

    /// The branch tying the execution payload's block hash to the body
    /// root.
    pub fn build_execution_block_hash_proof(&self) -> (r: Vec<Vec<u8>>)
        ensures
            hashes_view(r@) == hashes_view(self.execution_block_hash_proof@),
            r@.len() == self.execution_block_hash_proof@.len(),
    {
        copy_hashes(&self.execution_block_hash_proof)
    }
}

impl BeaconBlockCapella {
    /// Every hash is 32 bytes and the two execution-branch parts together
    /// hold at most twelve.
    pub open spec fn wf(&self) -> bool {
        &&& self.body.wf()
        &&& all_hashes32(self.body_root_proof@)
        &&& self.body.execution_block_hash_proof@.len() + self.body_root_proof@.len() <= 12
        &&& self.root@.len() == 32
    }

    /// The branch tying the body root to the block root.
    pub fn build_body_root_proof(&self) -> (r: Vec<Vec<u8>>)
        ensures
            hashes_view(r@) == hashes_view(self.body_root_proof@),
            r@.len() == self.body_root_proof@.len(),
    {
        copy_hashes(&self.body_root_proof)
    }

    /// The block's hash tree root.
    pub fn tree_hash_root(&self) -> (r: Vec<u8>)
        ensures
            r@ == self.root@,
    {
        copy_bytes(&self.root)
    }
}

impl HistoricalBatch {
    /// 8192 roots of each kind, every one 32 bytes.
    pub open spec fn wf(&self) -> bool {
        &&& self.block_roots@.len() == 8192
        &&& all_hashes32(self.block_roots@)
        &&& self.state_roots@.len() == 8192
        &&& all_hashes32(self.state_roots@)
    }

    /// The branch proving the block root at `index` within this batch: the
    /// sibling path through `block_roots` extended with the root of
    /// `state_roots` — fourteen hashes.
    pub fn build_block_root_proof(&self, index: usize) -> (r: Vec<Vec<u8>>)
        requires
            self.wf(),
            index < 8192,
        ensures
            hashes_view(r@) == merkle_branch(hashes_view(self.block_roots@), index as int).push(
                merkle_root_of(hashes_view(self.state_roots@)),
            ),
            r@.len() == 14,
            all_hashes32(r@),
    {
        proof {
            lemma_8192_pow2();
        }
        let mut branch = build_merkle_proof_for_index(&self.block_roots, index);
        let state_root = compute_merkle_root(&self.state_roots);
        branch.push(state_root);
        proof {
            assert(hashes_view(branch@) =~= merkle_branch(
                hashes_view(self.block_roots@),
                index as int,
            ).push(merkle_root_of(hashes_view(self.state_roots@))));
        }
        branch
    }
}

impl BeaconStateCapella {
    /// 8192 roots, every one 32 bytes.
    pub open spec fn wf(&self) -> bool {
        self.block_roots@.len() == 8192 && all_hashes32(self.block_roots@)
    }

    /// The branch proving the block root at `index` within this period's
    /// summary: the sibling path through `block_roots` — thirteen hashes.
    pub fn build_block_root_proof(&self, index: usize) -> (r: Vec<Vec<u8>>)
        requires
            self.wf(),
            index < 8192,
        ensures
            hashes_view(r@) == merkle_branch(hashes_view(self.block_roots@), index as int),
            r@.len() == 13,
            all_hashes32(r@),
    {
        proof {
            lemma_8192_pow2();
        }
        build_merkle_proof_for_index(&self.block_roots, index)
    }
}

/// Build the proof anchoring `beacon_block`'s execution block hash into
/// `historical_roots`, for the beacon block at `slot`.
///
/// The beacon-block branch targets leaf `slot % 8192` of the batch; the
/// execution branch is the payload-to-body branch followed by the
/// body-root-to-block-root branch, in that order.
pub fn build_historical_roots_proof(
    slot: u64,
    historical_batch: &HistoricalBatch,
    beacon_block: BeaconBlockBellatrix,
) -> (r: BlockProofHistoricalRoots)
    requires
        historical_batch.wf(),
        beacon_block.wf(),
    ensures
        hashes_view(r.beacon_block_proof@) == merkle_branch(
            hashes_view(historical_batch.block_roots@),
            (slot % 8192) as int,
        ).push(merkle_root_of(hashes_view(historical_batch.state_roots@))),
        r.beacon_block_root@ == beacon_block.root@,
        hashes_view(r.execution_block_proof@) == hashes_view(
            beacon_block.body.execution_block_hash_proof@,
        ) + hashes_view(beacon_block.body_root_proof@),
        r.slot == slot,
        wf_roots_v(r@),
{
    let index = (slot % SLOTS_PER_HISTORICAL_ROOT) as usize;
    let beacon_block_proof = historical_batch.build_block_root_proof(index);

    // execution block proof
    let mut execution_block_hash_proof = beacon_block.body.build_execution_block_hash_proof();
    let mut body_root_proof = beacon_block.build_body_root_proof();
    execution_block_hash_proof.append(&mut body_root_proof);

    let r = BlockProofHistoricalRoots {
        beacon_block_proof,
        beacon_block_root: beacon_block.tree_hash_root(),
        execution_block_proof: execution_block_hash_proof,
        slot,
    };
    proof {
        assert(hashes_view(r.execution_block_proof@) =~= hashes_view(
            beacon_block.body.execution_block_hash_proof@,
        ) + hashes_view(beacon_block.body_root_proof@));
    }
    r
}

/// Build the proof anchoring `beacon_block`'s execution block hash into
/// `historical_summaries`, from a hashed Capella beacon-state view.
///
/// The beacon-block branch targets leaf `slot % 8192` of the period; the
/// execution branch is composed as in the pre-Capella builder.
pub fn build_historical_summaries_proof(
    slot: u64,
    capella_state: &BeaconStateCapella,
    beacon_block: BeaconBlockCapella,
) -> (r: BlockProofHistoricalSummaries)
    requires
        capella_state.wf(),
        beacon_block.wf(),
    ensures
        hashes_view(r.beacon_block_proof@) == merkle_branch(
            hashes_view(capella_state.block_roots@),
            (slot % 8192) as int,
        ),
        r.beacon_block_root@ == beacon_block.root@,
        hashes_view(r.execution_block_proof@) == hashes_view(
            beacon_block.body.execution_block_hash_proof@,
        ) + hashes_view(beacon_block.body_root_proof@),
        r.slot == slot,
        wf_summaries_v(r@),
{
    // beacon block proof
    let index = (slot % SLOTS_PER_HISTORICAL_ROOT) as usize;
    let beacon_block_proof = capella_state.build_block_root_proof(index);

    // execution block proof
    let mut execution_block_hash_proof = beacon_block.body.build_execution_block_hash_proof();
    let mut body_root_proof = beacon_block.build_body_root_proof();
    execution_block_hash_proof.append(&mut body_root_proof);

    let r = BlockProofHistoricalSummaries {
        beacon_block_proof,
        beacon_block_root: beacon_block.tree_hash_root(),
        execution_block_proof: execution_block_hash_proof,
        slot,
    };
    proof {
        assert(hashes_view(r.execution_block_proof@) =~= hashes_view(
            beacon_block.body.execution_block_hash_proof@,
        ) + hashes_view(beacon_block.body_root_proof@));
    }
    r
}

/// Build the proof anchoring `beacon_block`'s execution block hash into
/// `historical_roots`, consuming the historical batch.
pub fn build_block_proof_historical_roots(
    slot: u64,
    historical_batch: HistoricalBatch,
    beacon_block: BeaconBlockBellatrix,
) -> (r: BlockProofHistoricalRoots)
    requires
        historical_batch.wf(),
        beacon_block.wf(),
    ensures
        hashes_view(r.beacon_block_proof@) == merkle_branch(
            hashes_view(historical_batch.block_roots@),
            (slot % 8192) as int,
        ).push(merkle_root_of(hashes_view(historical_batch.state_roots@))),
        r.beacon_block_root@ == beacon_block.root@,
        hashes_view(r.execution_block_proof@) == hashes_view(
            beacon_block.body.execution_block_hash_proof@,
        ) + hashes_view(beacon_block.body_root_proof@),
        r.slot == slot,
        wf_roots_v(r@),
{
    build_historical_roots_proof(slot, &historical_batch, beacon_block)
}

/// Build the proof anchoring `beacon_block`'s execution block hash into
/// `historical_summaries`, from the raw per-slot block roots of a Capella
/// beacon state.
///
/// Each block root is a 32-byte leaf already equal to its own hash tree
/// root, so the roots themselves are the Merkle leaves.
pub fn build_block_proof_historical_summaries(
    slot: u64,
    block_roots: Vec<Vec<u8>>,
    beacon_block: BeaconBlockCapella,
) -> (r: BlockProofHistoricalSummaries)
    requires
        block_roots@.len() == 8192,
        all_hashes32(block_roots@),
        beacon_block.wf(),
    ensures
        hashes_view(r.beacon_block_proof@) == merkle_branch(
            hashes_view(block_roots@),
            (slot % 8192) as int,
        ),
        r.beacon_block_root@ == beacon_block.root@,
        hashes_view(r.execution_block_proof@) == hashes_view(
            beacon_block.body.execution_block_hash_proof@,
        ) + hashes_view(beacon_block.body_root_proof@),
        r.slot == slot,
        wf_summaries_v(r@),
{
    proof {
        lemma_8192_pow2();
    }
    // beacon block proof
    let slot_index = (slot % SLOTS_PER_HISTORICAL_ROOT) as usize;
    let block_root_proof = build_merkle_proof_for_index(&block_roots, slot_index);

    // execution block proof
    let mut execution_block_hash_proof = beacon_block.body.build_execution_block_hash_proof();
    let mut body_root_proof = beacon_block.build_body_root_proof();
    execution_block_hash_proof.append(&mut body_root_proof);

    let r = BlockProofHistoricalSummaries {
        beacon_block_proof: block_root_proof,
        beacon_block_root: beacon_block.tree_hash_root(),
        execution_block_proof: execution_block_hash_proof,
        slot,
    };
    proof {
        assert(hashes_view(r.execution_block_proof@) =~= hashes_view(
            beacon_block.body.execution_block_hash_proof@,
        ) + hashes_view(beacon_block.body_root_proof@));
    }
    r
}

} // verus!
