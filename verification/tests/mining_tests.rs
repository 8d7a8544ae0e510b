use bond_core::{
    create_mining_header, Block, BlockHash, BlockHeader, Consensus, DifficultyTarget, MerkleRoot,
    Miner, Timestamp, Transaction,
};

#[test]
fn test_miner_creation() {
    let miner = Miner::new();
    assert_eq!(miner.stats().hashes_attempted, 0);
}

#[test]
fn test_mining_easy_target() {
    let mut miner = Miner::new();

    // Create a very easy target (all 0xFF)
    let easy_target = DifficultyTarget::maximum();

    let header = create_mining_header(1, BlockHash::zero(), MerkleRoot::zero(), easy_target);

    let result = miner.mine_block(header);
    assert!(result.is_ok());

    let mined_header = result.unwrap();
    assert!(mined_header.validates_pow().unwrap());
}

#[test]
fn test_consensus_validation() {
    let consensus = Consensus::new();

    // Create a simple valid block
    let transactions = vec![Transaction::coinbase(5_000_000_000, vec![])];
    let block = Block::new(
        BlockHeader::new(
            1,
            BlockHash::zero(),
            MerkleRoot::zero(),
            Timestamp::now(),
            DifficultyTarget::maximum(),
            0,
        ),
        transactions,
    );

    // Should validate basic rules (though PoW will fail)
    let result = consensus.validate_block(&block, &[]);
    // This will fail due to invalid PoW, which is expected
    assert!(result.is_err());
}

#[test]
fn test_difficulty_calculation() {
    let consensus = Consensus::new();
    let current_target = DifficultyTarget::maximum();

    // Test with empty block history (should return current target)
    let result = consensus.calculate_next_difficulty(&[], current_target);
    assert!(result.is_ok());
    assert_eq!(result.unwrap(), current_target);
}
