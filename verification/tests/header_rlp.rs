use header_with_proof::hashing::keccak256;
use header_with_proof::header::Header;
use header_with_proof::DecodeError;

#[test]
fn decode_and_encode_header() {
    let header_rlp = hex::decode("f901f9a0d405da4e66f1445d455195229624e133f5baafe72b5cf7b3c36c12c8146e98b7a01dcc4de8dec75d7aab85b567b6ccd41ad312451b948a7413f0a142fd40d49347948888f1f195afa192cfee860698584c030f4c9db1a05fb2b4bfdef7b314451cb138a534d225c922fc0e5fbe25e451142732c3e25c25a088d2ec6b9860aae1a2c3b299f72b6a5d70d7f7ba4722c78f2c49ba96273c2158a007c6fdfa8eea7e86b81f5b0fc0f78f90cc19f4aa60d323151e0cac660199e9a1b90100000000000000000000000000000000000000000000000000000000000000000000000000000000000000000000000000000000000000000000000000000000000000000000000000000000000000000000000000000000000000000000000000000000000000000000000000000000000000000000000000000000000000000000000000000000000000000000000000000000000000000000000000000000000000000000000000000000000000000000000000000000000000000000000000000000000000000000000000000000000000000000000000000000000000000000000000000000000000000000000000000000000000000000000000000000008302008003832fefba82524d84568e932a80a0a0349d8c3df71f1a48a9df7d03fd5f14aeee7d91332c009ecaff0a71ead405bd88ab4e252a7e8c2a23").unwrap();

    let header: Header = Header::decode_rlp(&header_rlp, u64::MAX).expect("error decoding header");
    let encoded_header = header.rlp();

    assert_eq!(header_rlp, encoded_header);
}

#[test]
fn decode_and_encode_header_after_1559() {
    let header_rlp = hex::decode("f901faa0d405da4e66f1445d455195229624e133f5baafe72b5cf7b3c36c12c8146e98b7a01dcc4de8dec75d7aab85b567b6ccd41ad312451b948a7413f0a142fd40d49347948888f1f195afa192cfee860698584c030f4c9db1a05fb2b4bfdef7b314451cb138a534d225c922fc0e5fbe25e451142732c3e25c25a088d2ec6b9860aae1a2c3b299f72b6a5d70d7f7ba4722c78f2c49ba96273c2158a007c6fdfa8eea7e86b81f5b0fc0f78f90cc19f4aa60d323151e0cac660199e9a1b90100000000000000000000000000000000000000000000000000000000000000000000000000000000000000000000000000000000000000000000000000000000000000000000000000000000000000000000000000000000000000000000000000000000000000000000000000000000000000000000000000000000000000000000000000000000000000000000000000000000000000000000000000000000000000000000000000000000000000000000000000000000000000000000000000000000000000000000000000000000000000000000000000000000000000000000000000000000000000000000000000000000000000000000000000000000008302008011832fefba82524d84568e932a80a0a0349d8c3df71f1a48a9df7d03fd5f14aeee7d91332c009ecaff0a71ead405bd88ab4e252a7e8c2a2364").unwrap();

    let header: Header = Header::decode_rlp(&header_rlp, u64::default()).expect("error decoding header");
    let encoded_header = header.rlp();

    assert_eq!(header_rlp, encoded_header);
}

#[test]
fn decoded_header_fields() {
    let header_rlp = hex::decode("f901f9a0d405da4e66f1445d455195229624e133f5baafe72b5cf7b3c36c12c8146e98b7a01dcc4de8dec75d7aab85b567b6ccd41ad312451b948a7413f0a142fd40d49347948888f1f195afa192cfee860698584c030f4c9db1a05fb2b4bfdef7b314451cb138a534d225c922fc0e5fbe25e451142732c3e25c25a088d2ec6b9860aae1a2c3b299f72b6a5d70d7f7ba4722c78f2c49ba96273c2158a007c6fdfa8eea7e86b81f5b0fc0f78f90cc19f4aa60d323151e0cac660199e9a1b90100000000000000000000000000000000000000000000000000000000000000000000000000000000000000000000000000000000000000000000000000000000000000000000000000000000000000000000000000000000000000000000000000000000000000000000000000000000000000000000000000000000000000000000000000000000000000000000000000000000000000000000000000000000000000000000000000000000000000000000000000000000000000000000000000000000000000000000000000000000000000000000000000000000000000000000000000000000000000000000000000000000000000000000000000000000008302008003832fefba82524d84568e932a80a0a0349d8c3df71f1a48a9df7d03fd5f14aeee7d91332c009ecaff0a71ead405bd88ab4e252a7e8c2a23").unwrap();

    let header: Header = Header::decode_rlp(&header_rlp, u64::MAX).unwrap();
    assert_eq!(header.number, 3);
    assert_eq!(header.timestamp, 0x568e932a);
    assert!(header.mix_hash.is_some());
    assert!(header.nonce.is_some());
    assert!(header.base_fee_per_gas.is_none());
    // difficulty 0x020080, left-padded to 32 big-endian bytes
    let mut expected_difficulty = vec![0u8; 32];
    expected_difficulty[29] = 0x02;
    expected_difficulty[30] = 0x00;
    expected_difficulty[31] = 0x80;
    assert_eq!(header.difficulty, expected_difficulty);
}

#[test]
fn header_hash_matches_encoding() {
    let header_rlp = hex::decode("f901f9a0d405da4e66f1445d455195229624e133f5baafe72b5cf7b3c36c12c8146e98b7a01dcc4de8dec75d7aab85b567b6ccd41ad312451b948a7413f0a142fd40d49347948888f1f195afa192cfee860698584c030f4c9db1a05fb2b4bfdef7b314451cb138a534d225c922fc0e5fbe25e451142732c3e25c25a088d2ec6b9860aae1a2c3b299f72b6a5d70d7f7ba4722c78f2c49ba96273c2158a007c6fdfa8eea7e86b81f5b0fc0f78f90cc19f4aa60d323151e0cac660199e9a1b90100000000000000000000000000000000000000000000000000000000000000000000000000000000000000000000000000000000000000000000000000000000000000000000000000000000000000000000000000000000000000000000000000000000000000000000000000000000000000000000000000000000000000000000000000000000000000000000000000000000000000000000000000000000000000000000000000000000000000000000000000000000000000000000000000000000000000000000000000000000000000000000000000000000000000000000000000000000000000000000000000000000000000000000000000000000008302008003832fefba82524d84568e932a80a0a0349d8c3df71f1a48a9df7d03fd5f14aeee7d91332c009ecaff0a71ead405bd88ab4e252a7e8c2a23").unwrap();

    let header: Header = Header::decode_rlp(&header_rlp, u64::MAX).unwrap();
    let hash = header.hash();
    assert_eq!(hash.len(), 32);
    assert_eq!(hash, keccak256(&header.rlp()));
}

#[test]
fn keccak_of_empty_input() {
    let digest = keccak256(&[]);
    assert_eq!(
        hex::encode(&digest),
        "c5d2460186f7233c927e7db2dcc703c0e500b653ca82273b7bfad8045d85a470"
    );
}

#[test]
fn decode_rejects_empty_input() {
    assert_eq!(Header::decode_rlp(&[], u64::MAX), Err(DecodeError::Truncated));
}

#[test]
fn decode_rejects_trailing_byte() {
    let mut header_rlp = hex::decode("f901f9a0d405da4e66f1445d455195229624e133f5baafe72b5cf7b3c36c12c8146e98b7a01dcc4de8dec75d7aab85b567b6ccd41ad312451b948a7413f0a142fd40d49347948888f1f195afa192cfee860698584c030f4c9db1a05fb2b4bfdef7b314451cb138a534d225c922fc0e5fbe25e451142732c3e25c25a088d2ec6b9860aae1a2c3b299f72b6a5d70d7f7ba4722c78f2c49ba96273c2158a007c6fdfa8eea7e86b81f5b0fc0f78f90cc19f4aa60d323151e0cac660199e9a1b90100000000000000000000000000000000000000000000000000000000000000000000000000000000000000000000000000000000000000000000000000000000000000000000000000000000000000000000000000000000000000000000000000000000000000000000000000000000000000000000000000000000000000000000000000000000000000000000000000000000000000000000000000000000000000000000000000000000000000000000000000000000000000000000000000000000000000000000000000000000000000000000000000000000000000000000000000000000000000000000000000000000000000000000000000000000008302008003832fefba82524d84568e932a80a0a0349d8c3df71f1a48a9df7d03fd5f14aeee7d91332c009ecaff0a71ead405bd88ab4e252a7e8c2a23").unwrap();
    header_rlp.push(0x00);
    assert_eq!(
        Header::decode_rlp(&header_rlp, u64::MAX),
        Err(DecodeError::TrailingBytes)
    );
}

#[test]
fn decode_rejects_wrong_field_width() {
    // a header whose parent hash is 31 bytes encodes fine but must not decode
    let bad = Header {
        parent_hash: vec![1; 31],
        uncles_hash: vec![2; 32],
        author: vec![3; 20],
        state_root: vec![4; 32],
        transactions_root: vec![5; 32],
        receipts_root: vec![6; 32],
        log_bloom: vec![0; 256],
        difficulty: vec![0; 32],
        number: 1,
        gas_limit: vec![0; 32],
        gas_used: vec![0; 32],
        timestamp: 1,
        extra_data: vec![],
        mix_hash: Some(vec![7; 32]),
        nonce: Some(8),
        base_fee_per_gas: None,
    };
    let bytes = bad.rlp();
    assert_eq!(Header::decode_rlp(&bytes, u64::MAX), Err(DecodeError::FieldLength));
}

#[test]
fn decode_rejects_non_minimal_item() {
    // a list holding the single byte 5 written in the two-byte string form
    let bytes = [0xc2, 0x81, 0x05];
    assert_eq!(Header::decode_rlp(&bytes, u64::MAX), Err(DecodeError::NonCanonical));
}
