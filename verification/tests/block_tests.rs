use bond_core::{Block, BlockHash, BlockHeader, DifficultyTarget, MerkleRoot, Timestamp, Transaction};

#[test]
fn test_block_hash_calculation() {
    let header = BlockHeader::new(
        1,
        BlockHash::zero(),
        MerkleRoot::zero(),
        Timestamp::now(),
        DifficultyTarget::maximum(),
        0,
    );

    let hash1 = header.hash().unwrap();
    let hash2 = header.hash().unwrap();

    // Hash should be deterministic
    assert_eq!(hash1, hash2);
}

#[test]
fn test_merkle_root_calculation() {
    let transactions = vec![Transaction::coinbase(100_000_000, vec![])];

    let block = Block::new(
        BlockHeader::new(
            1,
            BlockHash::zero(),
            MerkleRoot::zero(),
            Timestamp::now(),
            DifficultyTarget::maximum(),
            0,
        ),
        transactions,
    );

    let merkle_root = block.calculate_merkle_root().unwrap();
    assert_ne!(merkle_root, MerkleRoot::zero());
}

#[test]
fn test_difficulty_target_comparison() {
    let easy_target = DifficultyTarget([0xFF; 32]);
    let hard_target = DifficultyTarget([0x00; 32]);

    assert!(easy_target > hard_target);
    assert!(hard_target < easy_target);
}
