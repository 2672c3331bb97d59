use header_with_proof::envelope::{era_of_timestamp, HeaderWithProof, ProofEra};
use header_with_proof::header::Header;
use header_with_proof::variants::{
    BlockHeaderProof, BlockProofHistoricalRoots, BlockProofHistoricalSummaries,
};
use header_with_proof::{DecodeError, MERGE_TIMESTAMP, SHANGHAI_TIMESTAMP};

fn hash32(x: u8) -> Vec<u8> {
    vec![x; 32]
}

fn hashes(n: usize, seed: u8) -> Vec<Vec<u8>> {
    (0..n).map(|i| vec![seed.wrapping_add(i as u8); 32]).collect()
}

fn u256_of(x: u64) -> Vec<u8> {
    let mut v = vec![0u8; 32];
    v[24..32].copy_from_slice(&x.to_be_bytes());
    v
}

fn base_header(number: u64, timestamp: u64, base_fee_per_gas: Option<Vec<u8>>) -> Header {
    Header {
        parent_hash: hash32(1),
        uncles_hash: hash32(2),
        author: vec![3; 20],
        state_root: hash32(4),
        transactions_root: hash32(5),
        receipts_root: hash32(6),
        log_bloom: vec![0; 256],
        difficulty: u256_of(0x123456),
        number,
        gas_limit: u256_of(30_000_000),
        gas_used: u256_of(21_000),
        timestamp,
        extra_data: vec![0xde, 0xad, 0xbe, 0xef],
        mix_hash: Some(hash32(7)),
        nonce: Some(0x1234_5678_9abc_def0),
        base_fee_per_gas,
    }
}

#[test]
fn era_dispatch_boundaries() {
    assert_eq!(era_of_timestamp(0), ProofEra::PreMerge);
    assert_eq!(era_of_timestamp(MERGE_TIMESTAMP), ProofEra::PreMerge);
    assert_eq!(era_of_timestamp(MERGE_TIMESTAMP + 1), ProofEra::MergeToCapella);
    assert_eq!(era_of_timestamp(SHANGHAI_TIMESTAMP), ProofEra::MergeToCapella);
    assert_eq!(era_of_timestamp(SHANGHAI_TIMESTAMP + 1), ProofEra::CapellaOnward);
    assert_eq!(era_of_timestamp(u64::MAX), ProofEra::CapellaOnward);
}

#[test]
fn decode_encode_pre_merge_block() {
    let hwp = HeaderWithProof {
        header: base_header(1000010, 1455404053, None),
        proof: BlockHeaderProof::HistoricalHashes(hashes(15, 0x10)),
    };
    let bytes = hwp.as_ssz_bytes();
    let decoded = HeaderWithProof::from_ssz_bytes(&bytes).unwrap();
    assert_eq!(decoded.header.number, 1000010);
    match &decoded.proof {
        BlockHeaderProof::HistoricalHashes(p) => assert_eq!(p.len(), 15),
        _ => panic!("expected a pre-merge proof"),
    }
    assert_eq!(decoded, hwp);
    assert_eq!(decoded.as_ssz_bytes(), bytes);
}

#[test]
fn decode_encode_roots_era_block() {
    let hwp = HeaderWithProof {
        header: base_header(15539558, 1663251635, Some(u256_of(20_000_000_000))),
        proof: BlockHeaderProof::HistoricalRoots(BlockProofHistoricalRoots {
            beacon_block_proof: hashes(14, 0x30),
            beacon_block_root: hash32(0x77),
            execution_block_proof: hashes(11, 0x50),
            slot: 4702208,
        }),
    };
    let bytes = hwp.as_ssz_bytes();
    let decoded = HeaderWithProof::from_ssz_bytes(&bytes).unwrap();
    match &decoded.proof {
        BlockHeaderProof::HistoricalRoots(p) => {
            assert_eq!(p.beacon_block_proof.len(), 14);
            assert_eq!(p.execution_block_proof.len(), 11);
            assert_eq!(p.slot, 4702208);
        },
        _ => panic!("expected a historical-roots proof"),
    }
    assert_eq!(decoded, hwp);
    assert_eq!(decoded.as_ssz_bytes(), bytes);
}

#[test]
fn decode_encode_post_capella_block() {
    let hwp = HeaderWithProof {
        header: base_header(17034870, 1681338479, Some(u256_of(30_000_000_000))),
        proof: BlockHeaderProof::HistoricalSummaries(BlockProofHistoricalSummaries {
            beacon_block_proof: hashes(13, 0x60),
            beacon_block_root: hash32(0x88),
            execution_block_proof: hashes(11, 0x70),
            slot: 6209538,
        }),
    };
    let bytes = hwp.as_ssz_bytes();
    let decoded = HeaderWithProof::from_ssz_bytes(&bytes).unwrap();
    assert_eq!(decoded.header.number, 17034870);
    match &decoded.proof {
        BlockHeaderProof::HistoricalSummaries(p) => {
            assert!(p.execution_block_proof.len() <= 12);
            assert_eq!(p.execution_block_proof.len(), 11);
        },
        _ => panic!("expected a historical-summaries proof"),
    }
    assert_eq!(decoded, hwp);
    assert_eq!(decoded.as_ssz_bytes(), bytes);
}

#[test]
fn proof_encoding_sizes() {
    let acc = BlockHeaderProof::HistoricalHashes(hashes(15, 0));
    assert_eq!(acc.ssz_bytes_len(), 480);
    let mut buf: Vec<u8> = Vec::new();
    acc.ssz_append(&mut buf);
    assert_eq!(buf.len(), 480);

    let roots = BlockHeaderProof::HistoricalRoots(BlockProofHistoricalRoots {
        beacon_block_proof: hashes(14, 0),
        beacon_block_root: hash32(1),
        execution_block_proof: hashes(11, 0),
        slot: 1,
    });
    assert_eq!(roots.ssz_bytes_len(), 840);

    let summaries = BlockHeaderProof::HistoricalSummaries(BlockProofHistoricalSummaries {
        beacon_block_proof: hashes(13, 0),
        beacon_block_root: hash32(1),
        execution_block_proof: hashes(12, 0),
        slot: 1,
    });
    assert_eq!(summaries.ssz_bytes_len(), 460 + 32 * 12);
    let mut buf2: Vec<u8> = Vec::new();
    summaries.ssz_append(&mut buf2);
    assert_eq!(buf2.len(), 460 + 32 * 12);
}

#[test]
fn envelope_too_short_is_rejected() {
    assert_eq!(
        HeaderWithProof::from_ssz_bytes(&[0, 0, 0]),
        Err(DecodeError::OffsetInvalid)
    );
}

#[test]
fn envelope_bad_first_offset_is_rejected() {
    let hwp = HeaderWithProof {
        header: base_header(1000010, 1455404053, None),
        proof: BlockHeaderProof::HistoricalHashes(hashes(15, 0x10)),
    };
    let mut bytes = hwp.as_ssz_bytes();
    bytes[0] = 9;
    assert_eq!(
        HeaderWithProof::from_ssz_bytes(&bytes),
        Err(DecodeError::OffsetInvalid)
    );
}

#[test]
fn accumulator_blob_of_wrong_size_is_rejected() {
    let hwp = HeaderWithProof {
        header: base_header(1000010, 1455404053, None),
        proof: BlockHeaderProof::HistoricalHashes(hashes(15, 0x10)),
    };
    let mut bytes = hwp.as_ssz_bytes();
    // drop the final proof byte: the blob is no longer exactly 480 bytes
    bytes.pop();
    assert_eq!(
        HeaderWithProof::from_ssz_bytes(&bytes),
        Err(DecodeError::ProofLength)
    );
}

#[test]
fn overlong_execution_branch_is_rejected() {
    let hwp = HeaderWithProof {
        header: base_header(17034870, 1681338479, Some(u256_of(1))),
        proof: BlockHeaderProof::HistoricalSummaries(BlockProofHistoricalSummaries {
            beacon_block_proof: hashes(13, 0x60),
            beacon_block_root: hash32(0x88),
            execution_block_proof: hashes(13, 0x70),
            slot: 6209538,
        }),
    };
    let bytes = hwp.as_ssz_bytes();
    assert_eq!(
        HeaderWithProof::from_ssz_bytes(&bytes),
        Err(DecodeError::BranchTooLong)
    );
}

#[test]
fn header_error_propagates_from_envelope() {
    let hwp = HeaderWithProof {
        header: base_header(1000010, 1455404053, None),
        proof: BlockHeaderProof::HistoricalHashes(hashes(15, 0x10)),
    };
    let mut bytes = hwp.as_ssz_bytes();
    // corrupt the first byte of the header item: no longer a list
    bytes[8] = 0x00;
    assert_eq!(
        HeaderWithProof::from_ssz_bytes(&bytes),
        Err(DecodeError::TypeMismatch)
    );
}
