use bond_core::{Block, BlockHash, BlockHeader, Consensus, DifficultyTarget, MerkleRoot, Script, ScriptContext, ScriptInterpreter, Signature, Timestamp, Transaction, TransactionHash};
use std::collections::HashMap;
use std::time::{Duration, Instant};

fn stamp(time: chrono::DateTime<chrono::Utc>) -> Timestamp {
    Timestamp::new(time.timestamp(), time.timestamp_subsec_nanos())
}

fn new_header(
    version: u32,
    previous_hash: BlockHash,
    merkle_root: MerkleRoot,
    time: chrono::DateTime<chrono::Utc>,
    difficulty_target: DifficultyTarget,
    nonce: u64,
) -> BlockHeader {
    BlockHeader::new(version, previous_hash, merkle_root, stamp(time), difficulty_target, nonce)
}

/// Advanced Security Tests - Sophisticated Attack Scenarios
/// These tests simulate advanced persistent threats, sophisticated attack vectors,
/// and complex security scenarios that go beyond basic fuzzing and penetration testing

#[test]
fn test_advanced_cryptographic_attacks() {
    println!("\n🛡️  Advanced Security: Cryptographic Attack Scenarios");
    println!("{}", "=".repeat(70));

    // Test 1: Hash collision attack simulation
    println!("📊 Subtest: Hash Collision Resistance");

    let mut hash_map = HashMap::new();
    let test_transactions = 10_000;
    let mut collisions = 0;

    for i in 0..test_transactions {
        let tx = Transaction::coinbase(1_000_000 + i as u64, vec![]);
        if let Ok(hash) = tx.hash() {
            if let std::collections::hash_map::Entry::Vacant(e) = hash_map.entry(hash) {
                e.insert(i);
            } else {
                collisions += 1;
                println!("  ⚠️  Hash collision detected at transaction {}", i);
            }
        }
    }

    println!("  📊 Hash collision test results:");
    println!("    Transactions tested: {}", test_transactions);
    println!("    Unique hashes: {}", hash_map.len());
    println!("    Collisions found: {}", collisions);

    assert_eq!(collisions, 0, "Should not find any hash collisions");

    // Test 2: Signature malleability attack
    println!("\n📊 Subtest: Signature Malleability Resistance");

    // Create transactions with potential malleability issues
    let base_tx = Transaction::coinbase(5_000_000_000, vec![]);
    let _base_hash = base_tx.hash().unwrap();

    // Test multiple signature variations (simulated)
    let signature_variants = vec![
        "original_signature",
        "high_s_signature",
        "low_s_signature",
        "modified_r_signature",
        "canonical_signature",
    ];

    for variant in signature_variants {
        println!("  🔍 Testing signature variant: {}", variant);

        // In a real implementation, you would test actual signature malleability
        // For this test, we simulate the validation
        let is_valid = validate_signature_variant(&base_tx, variant);

        match variant {
            "original_signature" | "canonical_signature" => {
                assert!(is_valid, "Valid signature variants should pass");
                println!("    ✅ Valid signature accepted");
            }
            _ => {
                println!(
                    "    📋 Signature variant result: {}",
                    if is_valid { "Accepted" } else { "Rejected" }
                );
            }
        }
    }

    // Test 3: Preimage attack resistance
    println!("\n📊 Subtest: Preimage Attack Resistance");

    let target_hash = TransactionHash::from_bytes([
        0x00, 0x00, 0x00, 0x01, 0x23, 0x45, 0x67, 0x89, 0xAB, 0xCD, 0xEF, 0x01, 0x23, 0x45, 0x67,
        0x89, 0x00, 0x00, 0x00, 0x01, 0x23, 0x45, 0x67, 0x89, 0xAB, 0xCD, 0xEF, 0x01, 0x23, 0x45,
        0x67, 0x89,
    ]);

    let preimage_attempts = 10_000;
    let mut preimage_found = false;
    let preimage_start = Instant::now();

    for attempt in 0..preimage_attempts {
        let candidate_tx = Transaction::coinbase(attempt as u64, vec![]);
        if let Ok(candidate_hash) = candidate_tx.hash() {
            if candidate_hash == target_hash {
                preimage_found = true;
                println!("  ⚠️  Preimage found at attempt {}", attempt);
                break;
            }
        }
    }

    let preimage_time = preimage_start.elapsed();

    println!("  📊 Preimage attack results:");
    println!("    Attempts: {}", preimage_attempts);
    println!("    Time taken: {:?}", preimage_time);
    println!("    Preimage found: {}", preimage_found);

    assert!(
        !preimage_found,
        "Should not find preimage in reasonable time"
    );

    println!("✅ Cryptographic attack scenarios completed");
}

#[test]
fn test_consensus_manipulation_attacks() {
    println!("\n🛡️  Advanced Security: Consensus Manipulation Attacks");
    println!("{}", "=".repeat(70));

    let consensus = Consensus::new();

    // Test 1: Nothing-at-stake attack simulation
    println!("📊 Subtest: Nothing-at-Stake Attack Simulation");

    // Simulate validator trying to build on multiple chains simultaneously
    let genesis = create_security_genesis_block();
    let mut chain_a = vec![genesis.clone()];
    let mut chain_b = vec![genesis.clone()];

    // Create competing blocks at the same height
    for height in 1..=5 {
        // Chain A block
        let tx_a = Transaction::coinbase(5_000_000_000 + height as u64, vec![]);
        let block_a = Block::new(
            new_header(
                height as u32,
                chain_a.last().unwrap().hash().unwrap(),
                MerkleRoot::zero(),
                chrono::Utc::now(),
                DifficultyTarget::maximum(),
                0,
            ),
            vec![tx_a],
        );

        // Chain B block (competing)
        let tx_b = Transaction::coinbase(4_000_000_000 + height as u64, vec![]);
        let block_b = Block::new(
            new_header(
                height as u32,
                chain_b.last().unwrap().hash().unwrap(),
                MerkleRoot::zero(),
                chrono::Utc::now() + chrono::Duration::milliseconds(100),
                DifficultyTarget::maximum(),
                0,
            ),
            vec![tx_b],
        );

        // Test consensus validation on both chains
        let validation_a = consensus.validate_block(&block_a, &chain_a);
        let validation_b = consensus.validate_block(&block_b, &chain_b);

        chain_a.push(block_a);
        chain_b.push(block_b);

        println!(
            "  📊 Height {}: Chain A valid: {}, Chain B valid: {}",
            height,
            validation_a.is_ok(),
            validation_b.is_ok()
        );
    }

    // Simulate network choosing the longest chain
    let chain_a_weight = calculate_chain_weight(&chain_a);
    let chain_b_weight = calculate_chain_weight(&chain_b);

    println!("  📊 Chain competition results:");
    println!("    Chain A weight: {}", chain_a_weight);
    println!("    Chain B weight: {}", chain_b_weight);
    println!(
        "    Winner: Chain {}",
        if chain_a_weight > chain_b_weight {
            "A"
        } else {
            "B"
        }
    );

    // Test 2: Long-range attack simulation
    println!("\n📊 Subtest: Long-Range Attack Simulation");

    // Simulate attacker creating alternative history from early blocks
    let checkpoint_height = 3;
    let attack_chain = create_alternative_history(&genesis, checkpoint_height, 10);

    println!("  📊 Alternative history created:");
    println!("    Original chain length: {}", chain_a.len());
    println!("    Attack chain length: {}", attack_chain.len());

    // Test if consensus can detect/reject the long-range attack
    let mut long_range_successful = true;
    for (i, block) in attack_chain.iter().skip(1).enumerate() {
        let context = &attack_chain[0..i + 1];
        if consensus.validate_block(block, context).is_err() {
            long_range_successful = false;
            println!("    ✅ Long-range attack blocked at block {}", i + 1);
            break;
        }
    }

    if long_range_successful {
        println!("    ⚠️  Long-range attack succeeded");
    }

    // Test 3: Grinding attack simulation
    println!("\n📊 Subtest: Grinding Attack Simulation");

    // Simulate attacker trying many variations to influence randomness
    let grinding_attempts = 1000;
    let _target_pattern = 0x0000; // Looking for specific pattern in hash
    let mut successful_grinds = 0;

    for attempt in 0..grinding_attempts {
        let grinding_tx = Transaction::coinbase(7_000_000_000 + attempt as u64, vec![]);
        let grinding_block = Block::new(
            new_header(
                (100 + attempt) as u32,
                BlockHash::zero(),
                MerkleRoot::zero(),
                chrono::Utc::now() + chrono::Duration::nanoseconds(attempt as i64),
                DifficultyTarget::maximum(),
                attempt as u64, // Varying nonce for grinding
            ),
            vec![grinding_tx],
        );

        if let Ok(block_hash) = grinding_block.hash() {
            let hash_bytes = block_hash.as_bytes();
            if hash_bytes[0..2] == [0x00, 0x00] {
                // Check for specific pattern
                successful_grinds += 1;
            }
        }
    }

    let grinding_success_rate = successful_grinds as f64 / grinding_attempts as f64;
    println!("  📊 Grinding attack results:");
    println!("    Attempts: {}", grinding_attempts);
    println!("    Successful grinds: {}", successful_grinds);
    println!("    Success rate: {:.4}%", grinding_success_rate * 100.0);

    // Expected success rate for 2-byte prefix should be about 1/65536 ≈ 0.0015%
    let expected_rate = 1.0 / 65536.0;
    let rate_difference = (grinding_success_rate - expected_rate).abs();

    assert!(
        rate_difference < 0.01,
        "Grinding success rate should be close to expected probability"
    );

    println!("✅ Consensus manipulation attack scenarios completed");
}

#[test]
fn test_side_channel_attack_resistance() {
    println!("\n🛡️  Advanced Security: Side-Channel Attack Resistance");
    println!("{}", "=".repeat(70));

    // Test 1: Timing attack resistance
    println!("📊 Subtest: Timing Attack Resistance");

    let script_interpreter = ScriptInterpreter::new();
    let mut timing_measurements = HashMap::new();

    // Test various script types to see if execution time varies predictably
    let test_scripts = vec![
        ("empty", vec![]),
        ("simple_push", vec![0x01, 0x2A]),
        ("simple_op", vec![0x01, 0x2A, 0x01, 0x2A, 0x87]),
        (
            "complex_op",
            vec![0x01, 0x2A, 0x82, 0x82, 0x93, 0x01, 0x64, 0x88],
        ),
        ("invalid_op", vec![0xFF, 0xFF, 0xFF]),
        ("stack_overflow", vec![0x01; 1000]),
    ];

    for (script_name, script_code) in test_scripts {
        let mut execution_times = Vec::new();

        // Run each script multiple times to get consistent timing
        for _ in 0..100 {
            let context = ScriptContext {
                tx_hash: vec![1u8; 32],
                input_index: 0,
                block_height: 100,
                timestamp: 1640995200,
            };

            let start_time = Instant::now();
            let _result = script_interpreter.execute(&script_code, &context);
            let execution_time = start_time.elapsed();

            execution_times.push(execution_time);
        }

        let avg_time = execution_times.iter().sum::<Duration>() / execution_times.len() as u32;
        let max_time = execution_times.iter().max().unwrap();
        let min_time = execution_times.iter().min().unwrap();
        let time_variance = max_time.as_nanos() - min_time.as_nanos();

        timing_measurements.insert(script_name, (avg_time, time_variance));

        println!(
            "  📊 Script '{}': avg={:?}, variance={}ns",
            script_name, avg_time, time_variance
        );
    }

    // Analyze timing variations
    let mut max_variance = 0u128;
    for (_, variance) in timing_measurements.values() {
        if *variance > max_variance {
            max_variance = *variance;
        }
    }

    println!("  📊 Timing analysis:");
    println!("    Maximum timing variance: {}ns", max_variance);

    // Timing should be relatively consistent (allowing for some OS scheduling variance)
    assert!(
        max_variance < 10_000_000,
        "Timing variance should be reasonable"
    ); // 10ms variance allowed

    // Test 2: Memory access pattern analysis
    println!("\n📊 Subtest: Memory Access Pattern Analysis");

    // Test if different operations have predictable memory access patterns
    let memory_test_cases = vec![
        ("linear_access", create_linear_memory_test()),
        ("random_access", create_random_memory_test()),
        ("repeated_access", create_repeated_memory_test()),
    ];

    for (test_name, test_data) in memory_test_cases {
        let access_start = Instant::now();

        // Simulate memory access pattern
        let result = simulate_memory_access_pattern(&test_data);

        let access_time = access_start.elapsed();

        println!(
            "  📊 Memory test '{}': time={:?}, result={}",
            test_name, access_time, result
        );
    }

    // Test 3: Power analysis resistance (simulated)
    println!("\n📊 Subtest: Power Analysis Resistance (Simulated)");

    // Simulate different cryptographic operations and their "power consumption"
    let crypto_operations = vec![
        ("hash_small", hash_power_simulation(100)),
        ("hash_large", hash_power_simulation(10000)),
        ("signature_verify", signature_power_simulation(true)),
        ("signature_fail", signature_power_simulation(false)),
    ];

    let mut power_measurements = HashMap::new();

    for (op_name, simulated_power) in crypto_operations {
        power_measurements.insert(op_name, simulated_power);
        println!(
            "  📊 Operation '{}': simulated power = {}",
            op_name, simulated_power
        );
    }

    // Analyze power consumption patterns
    let hash_small_power = power_measurements["hash_small"];
    let hash_large_power = power_measurements["hash_large"];
    let sig_verify_power = power_measurements["signature_verify"];
    let sig_fail_power = power_measurements["signature_fail"];

    println!("  📊 Power analysis:");
    println!(
        "    Hash scaling factor: {:.2}",
        hash_large_power as f64 / hash_small_power as f64
    );
    println!(
        "    Signature power difference: {}",
        (sig_verify_power as i64 - sig_fail_power as i64).abs()
    );

    // Power consumption should scale reasonably with work
    let hash_scaling = hash_large_power as f64 / hash_small_power as f64;
    assert!(
        hash_scaling > 10.0 && hash_scaling < 1000.0,
        "Hash power scaling should be reasonable"
    );

    println!("✅ Side-channel attack resistance tests completed");
}

#[test]
fn test_advanced_network_attacks() {
    println!("\n🛡️  Advanced Security: Advanced Network Attack Scenarios");
    println!("{}", "=".repeat(70));

    // Test 1: Sybil attack with sophisticated node behavior
    println!("📊 Subtest: Sophisticated Sybil Attack");

    #[allow(dead_code)] // Estrutura de teste - nem todos os campos são usados
    struct NetworkNode {
        id: u32,
        is_honest: bool,
        reputation: f64,
        connections: Vec<u32>,
        message_count: u32,
    }

    impl NetworkNode {
        fn new(id: u32, is_honest: bool) -> Self {
            Self {
                id,
                is_honest,
                reputation: if is_honest { 1.0 } else { 0.1 },
                connections: Vec::new(),
                message_count: 0,
            }
        }

        fn send_message(&mut self) -> bool {
            self.message_count += 1;
            // Sybil nodes might have different behavior patterns
            if self.is_honest {
                true // Honest nodes always send valid messages
            } else {
                // Sybil nodes might sometimes send valid messages to avoid detection
                self.message_count % 3 == 0
            }
        }
    }

    // Create network with mix of honest and sybil nodes
    let mut network = Vec::new();
    let honest_nodes = 100;
    let sybil_nodes = 200; // Outnumber honest nodes

    // Add honest nodes
    for i in 0..honest_nodes {
        network.push(NetworkNode::new(i, true));
    }

    // Add sybil nodes
    for i in honest_nodes..(honest_nodes + sybil_nodes) {
        network.push(NetworkNode::new(i, false));
    }

    println!("  📊 Network composition:");
    println!("    Honest nodes: {}", honest_nodes);
    println!("    Sybil nodes: {}", sybil_nodes);
    println!("    Total nodes: {}", network.len());

    // Simulate network activity and sybil detection
    let simulation_rounds = 100;
    let mut detected_sybils = 0;
    let mut false_positives = 0;

    for round in 0..simulation_rounds {
        // Each node sends messages
        for node in &mut network {
            let message_valid = node.send_message();

            // Update reputation based on message validity
            if message_valid {
                node.reputation = (node.reputation * 0.95 + 0.05).min(1.0);
            } else {
                node.reputation = (node.reputation * 0.9).max(0.0);
            }
        }

        // Detect potential sybils based on reputation
        if round % 10 == 0 {
            // Detection every 10 rounds
            for node in &network {
                if node.reputation < 0.3 {
                    // Suspicion threshold
                    if !node.is_honest {
                        detected_sybils += 1;
                    } else {
                        false_positives += 1;
                    }
                }
            }
        }
    }

    let detection_rate = detected_sybils as f64 / sybil_nodes as f64;
    let false_positive_rate = false_positives as f64 / honest_nodes as f64;

    println!("  📊 Sybil detection results:");
    println!(
        "    Detected sybils: {} / {} ({:.1}%)",
        detected_sybils,
        sybil_nodes,
        detection_rate * 100.0
    );
    println!(
        "    False positives: {} / {} ({:.1}%)",
        false_positives,
        honest_nodes,
        false_positive_rate * 100.0
    );

    assert!(
        detection_rate > 0.5,
        "Should detect at least 50% of sybil nodes"
    );
    assert!(
        false_positive_rate < 0.1,
        "False positive rate should be low"
    );

    // Test 2: Eclipse attack simulation
    println!("\n📊 Subtest: Eclipse Attack Simulation");

    // Simulate a node being surrounded by attacker nodes
    struct EclipseNode {
        id: u32,
        is_attacker: bool,
        latest_block_height: u64,
        connected_peers: Vec<u32>,
    }

    // Create victim node
    let victim_id = 0;
    let mut eclipse_network = vec![EclipseNode {
        id: victim_id,
        is_attacker: false,
        latest_block_height: 100,
        connected_peers: vec![1, 2, 3, 4, 5, 6, 7, 8], // Connected to attackers
    }];

    // Create attacker nodes that eclipse the victim
    for attacker_id in 1..=8 {
        eclipse_network.push(EclipseNode {
            id: attacker_id,
            is_attacker: true,
            latest_block_height: 95, // Attackers are slightly behind
            connected_peers: vec![victim_id],
        });
    }

    // Create honest nodes that victim cannot reach
    for honest_id in 9..=20 {
        eclipse_network.push(EclipseNode {
            id: honest_id,
            is_attacker: false,
            latest_block_height: 110, // Honest network is ahead
            connected_peers: vec![],  // Not connected to victim
        });
    }

    // Simulate block propagation
    let mut victim_blocks_received = 0;
    let mut attacker_blocks_sent = 0;

    for round in 0..50 {
        // Attackers send delayed/filtered blocks to victim
        let attacker_heights: Vec<u64> = eclipse_network
            .iter()
            .filter(|n| n.is_attacker)
            .map(|n| n.latest_block_height)
            .collect();

        for attacker_height in attacker_heights.iter() {
            if round % 3 == 0 {
                // Attackers occasionally send blocks
                attacker_blocks_sent += 1;
                let attacker_id = eclipse_network
                    .iter()
                    .enumerate()
                    .find(|(_, n)| n.is_attacker)
                    .map(|(idx, _)| idx)
                    .unwrap_or(1);

                if eclipse_network[0]
                    .connected_peers
                    .contains(&(attacker_id as u32))
                {
                    victim_blocks_received += 1;
                    // Victim only receives attacker's version
                    eclipse_network[0].latest_block_height = *attacker_height;
                }
            }
        }
    }

    let victim_final_height = eclipse_network[0].latest_block_height;
    let honest_avg_height = eclipse_network
        .iter()
        .filter(|n| !n.is_attacker && n.id != 0)
        .map(|n| n.latest_block_height)
        .sum::<u64>()
        / 12; // 12 honest nodes (excluding victim)

    println!("  📊 Eclipse attack results:");
    println!("    Victim final height: {}", victim_final_height);
    println!("    Honest network height: {}", honest_avg_height);
    println!("    Blocks received by victim: {}", victim_blocks_received);
    println!("    Blocks sent by attackers: {}", attacker_blocks_sent);
    println!(
        "    Eclipse effectiveness: {:.1}%",
        (1.0 - victim_final_height as f64 / honest_avg_height as f64) * 100.0
    );

    assert!(
        victim_final_height < honest_avg_height,
        "Eclipse attack should isolate victim"
    );

    println!("✅ Advanced network attack scenarios completed");
}

// Helper functions for advanced security tests

fn validate_signature_variant(_tx: &Transaction, variant: &str) -> bool {
    // Simulate signature validation for different variants
    match variant {
        "original_signature" | "canonical_signature" => true,
        "high_s_signature" => false,     // Should be rejected
        "low_s_signature" => true,       // Should be accepted
        "modified_r_signature" => false, // Should be rejected
        _ => false,
    }
}

fn create_security_genesis_block() -> Block {
    Block::new(
        new_header(
            0,
            BlockHash::zero(),
            MerkleRoot::zero(),
            chrono::DateTime::from_timestamp(1640995200, 0).unwrap(),
            DifficultyTarget::maximum(),
            0,
        ),
        vec![Transaction::coinbase(50_000_000_000, vec![])],
    )
}

fn calculate_chain_weight(chain: &[Block]) -> u64 {
    // Simple chain weight calculation (in reality, this would consider difficulty)
    chain.len() as u64
}

fn create_alternative_history(
    genesis: &Block,
    _fork_height: usize, // Parâmetro reservado para implementação futura
    target_length: usize,
) -> Vec<Block> {
    let mut alt_chain = vec![genesis.clone()];

    for height in 1..=target_length {
        let previous_hash = alt_chain.last().unwrap().hash().unwrap();
        let tx = Transaction::coinbase(3_000_000_000 + height as u64, vec![]);

        let block = Block::new(
            new_header(
                height as u32,
                previous_hash,
                MerkleRoot::zero(),
                chrono::Utc::now() - chrono::Duration::hours(24 - height as i64),
                DifficultyTarget::maximum(),
                height as u64,
            ),
            vec![tx],
        );

        alt_chain.push(block);
    }

    alt_chain
}

fn create_linear_memory_test() -> Vec<u8> {
    (0..255u8).cycle().take(10000).collect()
}

fn create_random_memory_test() -> Vec<u8> {
    // Simulate random data
    let mut data = Vec::new();
    for i in 0..10000 {
        data.push(((i * 17 + 42) % 256) as u8);
    }
    data
}

fn create_repeated_memory_test() -> Vec<u8> {
    vec![0xAA; 10000]
}

fn simulate_memory_access_pattern(data: &[u8]) -> u64 {
    // Simulate memory access and return checksum
    let mut checksum = 0u64;
    for &byte in data {
        checksum = checksum.wrapping_add(byte as u64);
    }
    checksum
}

fn hash_power_simulation(data_size: usize) -> u32 {
    // Simulate power consumption for hashing (proportional to data size)
    (data_size * 2 + 100) as u32
}

fn signature_power_simulation(valid: bool) -> u32 {
    // Simulate power consumption for signature verification
    if valid {
        1500 // Valid signatures might take consistent power
    } else {
        1400 // Invalid signatures might fail early, using less power
    }
}
