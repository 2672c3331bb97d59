use header_with_proof::builders::{
    build_block_proof_historical_roots, build_block_proof_historical_summaries,
    build_historical_roots_proof, build_historical_summaries_proof, BeaconBlockBellatrix,
    BeaconBlockBodyBellatrix, BeaconBlockBodyCapella, BeaconBlockCapella, BeaconStateCapella,
    HistoricalBatch,
};
use header_with_proof::merkle::{build_merkle_proof_for_index, compute_merkle_root};

fn hash32(x: u8) -> Vec<u8> {
    vec![x; 32]
}

fn hashes(n: usize, seed: u8) -> Vec<Vec<u8>> {
    (0..n).map(|i| vec![seed.wrapping_add(i as u8); 32]).collect()
}

fn root_at(i: usize) -> Vec<u8> {
    let mut v = vec![0u8; 32];
    v[0] = (i % 256) as u8;
    v[1] = (i / 256) as u8;
    v
}

fn roots_8192() -> Vec<Vec<u8>> {
    (0..8192).map(root_at).collect()
}

fn bellatrix_block() -> BeaconBlockBellatrix {
    BeaconBlockBellatrix {
        body: BeaconBlockBodyBellatrix { execution_block_hash_proof: hashes(8, 0x20) },
        body_root_proof: hashes(3, 0x40),
        root: hash32(0x99),
    }
}

fn capella_block() -> BeaconBlockCapella {
    BeaconBlockCapella {
        body: BeaconBlockBodyCapella { execution_block_hash_proof: hashes(8, 0x20) },
        body_root_proof: hashes(3, 0x40),
        root: hash32(0x77),
    }
}

#[test]
fn merkle_branch_of_two_leaves() {
    let leaves = vec![hash32(0xaa), hash32(0xbb)];
    assert_eq!(build_merkle_proof_for_index(&leaves, 0), vec![hash32(0xbb)]);
    assert_eq!(build_merkle_proof_for_index(&leaves, 1), vec![hash32(0xaa)]);
}

#[test]
fn merkle_branch_of_four_leaves() {
    let leaves = vec![hash32(0xaa), hash32(0xbb), hash32(0xcc), hash32(0xdd)];
    let branch = build_merkle_proof_for_index(&leaves, 2);
    let left_pair_root = compute_merkle_root(&vec![hash32(0xaa), hash32(0xbb)]);
    assert_eq!(branch, vec![hash32(0xdd), left_pair_root]);
}

#[test]
fn merkle_root_of_zero_pair() {
    let root = compute_merkle_root(&vec![vec![0u8; 32], vec![0u8; 32]]);
    assert_eq!(
        hex::encode(&root),
        "f5a5fd42d16a20302798ef6ed309979b43003d2320d9f0e8ea9831a92759fb4b"
    );
}

#[test]
fn historical_roots_proof_targets_slot_index() {
    // slot 4702208 is a multiple of 8192, so the branch targets leaf 0 and
    // its first sibling is the root of slot 1
    let batch = HistoricalBatch {
        block_roots: roots_8192(),
        state_roots: vec![vec![0u8; 32]; 8192],
    };
    let state_roots_root = compute_merkle_root(&batch.state_roots);
    let proof = build_block_proof_historical_roots(4702208, batch, bellatrix_block());

    assert_eq!(proof.slot, 4702208);
    assert_eq!(proof.beacon_block_proof.len(), 14);
    assert_eq!(proof.beacon_block_proof[0], root_at(1));
    assert_eq!(proof.beacon_block_proof[13], state_roots_root);
    assert_eq!(proof.beacon_block_root, hash32(0x99));

    // the execution branch is the payload branch followed by the body
    // branch, in that order
    let mut expected = hashes(8, 0x20);
    expected.extend(hashes(3, 0x40));
    assert_eq!(proof.execution_block_proof, expected);
    assert_eq!(proof.execution_block_proof.len(), 11);
}

#[test]
fn historical_roots_builders_agree() {
    let batch = HistoricalBatch {
        block_roots: roots_8192(),
        state_roots: vec![vec![0u8; 32]; 8192],
    };
    let by_reference = build_historical_roots_proof(4702471, &batch, bellatrix_block());
    let by_value = build_block_proof_historical_roots(4702471, batch, bellatrix_block());
    assert_eq!(by_reference, by_value);
}

#[test]
fn historical_summaries_proof_targets_slot_index() {
    // slot 6209538 is 2 past a period boundary: leaf 2, first sibling the
    // root of slot 3
    let state = BeaconStateCapella { block_roots: roots_8192() };
    let proof = build_historical_summaries_proof(6209538, &state, capella_block());

    assert_eq!(proof.slot, 6209538);
    assert_eq!(proof.beacon_block_proof.len(), 13);
    assert_eq!(proof.beacon_block_proof[0], root_at(3));
    assert_eq!(proof.beacon_block_root, hash32(0x77));

    let mut expected = hashes(8, 0x20);
    expected.extend(hashes(3, 0x40));
    assert_eq!(proof.execution_block_proof, expected);
    assert!(proof.execution_block_proof.len() <= 12);
}

#[test]
fn summaries_builders_agree_on_raw_roots() {
    let state = BeaconStateCapella { block_roots: roots_8192() };
    let from_state = build_historical_summaries_proof(6209538, &state, capella_block());
    let from_roots = build_block_proof_historical_summaries(6209538, roots_8192(), capella_block());
    assert_eq!(from_state, from_roots);
}
