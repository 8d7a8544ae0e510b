use bond_core::crypto::signature;
use bond_core::text::{decimal_string, parse_u32};
use bond_core::{
    Block, BlockHash, BlockHeader, BondError, CryptoError, DifficultyTarget, Keypair, MerkleRoot,
    Miner, PublicKey, Script, SecurityLevel, Signature, Timestamp, Transaction, TransactionHash,
    TransactionInput, TransactionOutput, UtxoId, UtxoSet,
};
use ed25519_dalek::{Signer, SigningKey, Verifier, VerifyingKey};
use sha3::{Digest, Keccak256};
use std::str::FromStr;

fn keccak(data: &[u8]) -> [u8; 32] {
    Keccak256::digest(data).into()
}

#[test]
fn hashes_are_keccak_256_of_the_canonical_bytes() {
    let header = BlockHeader::new(
        2,
        BlockHash::from_bytes([1; 32]),
        MerkleRoot::from_bytes([2; 32]),
        Timestamp::new(3, 4),
        DifficultyTarget::from_bytes([5; 32]),
        6,
    );
    let mut expected = Vec::new();
    expected.extend_from_slice(&2u32.to_le_bytes());
    expected.extend_from_slice(&[1; 32]);
    expected.extend_from_slice(&[2; 32]);
    expected.extend_from_slice(&3i64.to_le_bytes());
    expected.extend_from_slice(&4u32.to_le_bytes());
    expected.extend_from_slice(&[5; 32]);
    expected.extend_from_slice(&6u64.to_le_bytes());
    assert_eq!(header.serialize(), expected);
    assert_eq!(header.hash().unwrap().as_bytes(), &keccak(&expected));

    let tx = Transaction::coinbase_at(7, vec![8, 9], Timestamp::new(-1, 0));
    assert_eq!(tx.hash().unwrap().as_bytes(), &keccak(&tx.serialize()));
    assert_eq!(tx.id().unwrap(), tx.hash().unwrap());
    assert_eq!(tx.size().unwrap(), tx.serialize().len());

    // Two leaves are hashed as one string of 64 bytes.
    let a = Transaction::coinbase_at(1, vec![], Timestamp::from_secs(0));
    let b = Transaction::coinbase_at(2, vec![], Timestamp::from_secs(0));
    let c = Transaction::coinbase_at(3, vec![], Timestamp::from_secs(0));
    let pair = |x: &[u8; 32], y: &[u8; 32]| {
        let mut joined = x.to_vec();
        joined.extend_from_slice(y);
        keccak(&joined)
    };
    let ha = *a.hash().unwrap().as_bytes();
    let hb = *b.hash().unwrap().as_bytes();
    let hc = *c.hash().unwrap().as_bytes();
    let two = Block::new(header, vec![a.clone(), b.clone()]);
    assert_eq!(two.calculate_merkle_root().unwrap().as_bytes(), &pair(&ha, &hb));
    // With three leaves the last is paired with itself.
    let three = Block::new(header, vec![a, b, c]);
    assert_eq!(
        three.calculate_merkle_root().unwrap().as_bytes(),
        &pair(&pair(&ha, &hb), &pair(&hc, &hc))
    );
}

#[test]
fn signature_hash_is_keccak_of_the_unsigned_transaction_and_the_reference() {
    let id = UtxoId::new(TransactionHash::from_bytes([9; 32]), 0x01020304);
    let signed = Transaction::with_timestamp(
        1,
        vec![TransactionInput::new(id, Script::new(vec![1, 2, 3]), 5)],
        vec![TransactionOutput::new(10, Script::new(vec![4]))],
        6,
        Timestamp::from_secs(7),
    );
    let mut unsigned = signed.clone();
    unsigned.inputs[0].script_sig = Script::empty();
    let mut message = unsigned.serialize();
    message.extend_from_slice(&[9; 32]);
    message.extend_from_slice(&[4, 3, 2, 1]);
    assert_eq!(id.to_bytes(), message[message.len() - 36..].to_vec());
    assert_eq!(
        signed.signature_hash(&signed.inputs[0]).unwrap(),
        keccak(&message).to_vec()
    );
}

#[test]
fn hexadecimal_text() {
    let mut bytes = [0u8; 32];
    for (i, b) in bytes.iter_mut().enumerate() {
        *b = (i as u8) * 8 + 7;
    }
    let text = "070f171f272f373f474f575f676f777f878f979fa7afb7bfc7cfd7dfe7eff7ff";
    assert_eq!(BlockHash::from_bytes(bytes).to_string(), text);
    assert_eq!(MerkleRoot::from_bytes(bytes).to_string(), text);
    assert_eq!(DifficultyTarget::from_bytes(bytes).to_string(), text);
    assert_eq!(TransactionHash::from_bytes(bytes).to_string(), text);
    assert_eq!(BlockHash::parse(text).unwrap().as_bytes(), &bytes);
    assert_eq!(BlockHash::from_str(text).unwrap().as_bytes(), &bytes);
    assert_eq!(
        BlockHash::parse(&text.to_uppercase()).unwrap().as_bytes(),
        &bytes
    );
    assert_eq!(TransactionHash::parse(text).unwrap().as_bytes(), &bytes);
    assert_eq!(text.parse::<TransactionHash>().unwrap().as_bytes(), &bytes);

    assert_eq!(
        BlockHash::parse("xyz"),
        Err(BondError::InvalidBlockHash {
            expected: "valid hex string".to_string(),
            actual: "xyz".to_string()
        })
    );
    assert_eq!(
        BlockHash::parse("abc"),
        Err(BondError::InvalidBlockHash {
            expected: "valid hex string".to_string(),
            actual: "abc".to_string()
        })
    );
    assert_eq!(
        BlockHash::parse("abcd"),
        Err(BondError::InvalidBlockHash {
            expected: "32 bytes".to_string(),
            actual: "2 bytes".to_string()
        })
    );
    assert_eq!(
        BlockHash::parse(""),
        Err(BondError::InvalidBlockHash {
            expected: "32 bytes".to_string(),
            actual: "0 bytes".to_string()
        })
    );
    assert_eq!(
        TransactionHash::parse("zz"),
        Err(BondError::InvalidTransaction {
            reason: "Invalid transaction hash: zz".to_string()
        })
    );
    assert_eq!(
        TransactionHash::parse(&"ab".repeat(33)),
        Err(BondError::InvalidTransaction {
            reason: "Transaction hash must be 32 bytes, got 33".to_string()
        })
    );
}

#[test]
fn output_identifiers_as_text() {
    let id = UtxoId::new(TransactionHash::from_bytes([0xab; 32]), 4_294_967_295);
    let text = format!("{}:4294967295", "ab".repeat(32));
    assert_eq!(id.to_string(), text);
    assert_eq!(UtxoId::parse(&text).unwrap(), id);
    assert_eq!(UtxoId::from_str(&text).unwrap(), id);
    assert_eq!(
        UtxoId::parse(&format!("{}:+007", "AB".repeat(32))).unwrap(),
        UtxoId::new(TransactionHash::from_bytes([0xab; 32]), 7)
    );
    assert_eq!(UtxoId::coinbase().to_string(), format!("{}:4294967295", "00".repeat(32)));

    let invalid = |text: &str| match UtxoId::parse(text) {
        Err(BondError::InvalidUtxo { reason }) => reason,
        other => panic!("unexpected {:?}", other),
    };
    assert_eq!(invalid("nothing"), "Invalid UTXO ID format: nothing");
    assert_eq!(invalid("a:b:c"), "Invalid UTXO ID format: a:b:c");
    assert_eq!(invalid(""), "Invalid UTXO ID format: ");
    assert_eq!(invalid("abcd:1"), "Invalid transaction hash in UTXO ID: abcd");
    assert_eq!(invalid(":1"), "Invalid transaction hash in UTXO ID: ");
    assert_eq!(invalid("é:1"), "Invalid transaction hash in UTXO ID: é");
    let hash = "cd".repeat(32);
    assert_eq!(
        invalid(&format!("{}:", hash)),
        "Invalid output index in UTXO ID: "
    );
    assert_eq!(
        invalid(&format!("{}:-1", hash)),
        "Invalid output index in UTXO ID: -1"
    );
    assert_eq!(
        invalid(&format!("{}:4294967296", hash)),
        "Invalid output index in UTXO ID: 4294967296"
    );
    assert_eq!(
        invalid(&format!("{}:1x", hash)),
        "Invalid output index in UTXO ID: 1x"
    );
    assert_eq!(
        invalid(&format!("{}:+", hash)),
        "Invalid output index in UTXO ID: +"
    );
}

#[test]
fn decimal_text() {
    assert_eq!(decimal_string(0), "0");
    assert_eq!(decimal_string(9), "9");
    assert_eq!(decimal_string(10), "10");
    assert_eq!(decimal_string(1_000_000_007), "1000000007");
    assert_eq!(decimal_string(u64::MAX), u64::MAX.to_string());
    for text in ["0", "+0", "00042", "4294967295", "4294967296", "", "+", "-1", "1 ", " 1", "٣", "99999999999999999999"] {
        assert_eq!(parse_u32(text), text.parse::<u32>().ok(), "{:?}", text);
    }
}

#[test]
fn keys_are_ed25519_keys_padded_with_zeros() {
    let seed = [0x42u8; 32];
    let pair = Keypair::from_seed(SecurityLevel::Level3, &seed);
    let signing = SigningKey::from_bytes(&seed);
    let public = pair.public_key().as_bytes();
    assert_eq!(public.len(), 1952);
    assert_eq!(&public[..32], signing.verifying_key().as_bytes());
    assert!(public[32..].iter().all(|b| *b == 0));
    let private = pair.private_key().as_bytes();
    assert_eq!(private.len(), 4032);
    assert_eq!(&private[..32], &seed);
    assert!(private[32..].iter().all(|b| *b == 0));
    assert_eq!(Keypair::from_seed(SecurityLevel::Level3, &seed), pair);
    let small = Keypair::from_seed(SecurityLevel::Level2, &seed);
    assert_eq!(small.public_key().size(), 1312);
    assert_eq!(&small.public_key().as_bytes()[..32], &public[..32]);

    let message = b"signed by the seed";
    let signed = signature::sign(message, pair.private_key()).unwrap();
    assert_eq!(signed.size(), 3309);
    assert_eq!(&signed.as_bytes()[..64], &signing.sign(message).to_bytes());
    assert!(signed.as_bytes()[64..].iter().all(|b| *b == 0));
    assert_eq!(signature::verify(&signed, message, pair.public_key()), Ok(true));
    assert_eq!(
        signature::verify(&signed, b"another message", pair.public_key()),
        Ok(false)
    );
    let other = Keypair::from_seed(SecurityLevel::Level3, &[0x43; 32]);
    assert_eq!(signature::verify(&signed, message, other.public_key()), Ok(false));
    let mut forged = signed.as_bytes().to_vec();
    forged[0] ^= 1;
    let forged = Signature::from_bytes(forged, SecurityLevel::Level3).unwrap();
    assert_eq!(signature::verify(&forged, message, pair.public_key()), Ok(false));
    assert!(signing
        .verifying_key()
        .verify(message, &ed25519_dalek::Signature::from_bytes(&signing.sign(message).to_bytes()))
        .is_ok());

    // Generated pairs come from fresh seeds.
    let one = Keypair::generate(SecurityLevel::Level3).unwrap();
    let two = Keypair::generate(SecurityLevel::Level3).unwrap();
    assert_ne!(one.private_key().as_bytes(), two.private_key().as_bytes());
    assert_ne!(one.public_key().as_bytes(), two.public_key().as_bytes());
}

fn refused_key() -> [u8; 32] {
    for first in 0..=255u8 {
        let mut candidate = [first; 32];
        candidate[31] &= 0x7f;
        if VerifyingKey::from_bytes(&candidate).is_err() {
            return candidate;
        }
    }
    panic!("every candidate is a point");
}

#[test]
fn key_bytes_that_are_no_point_are_an_error() {
    let bad = refused_key();
    let expected_text = VerifyingKey::from_bytes(&bad).unwrap_err().to_string();
    let mut padded = bad.to_vec();
    padded.resize(1952, 0);
    let key = PublicKey::from_bytes(padded.clone(), SecurityLevel::Level3).unwrap();
    let pair = Keypair::from_seed(SecurityLevel::Level3, &[1; 32]);
    let signed = signature::sign(b"m", pair.private_key()).unwrap();
    assert_eq!(
        signature::verify(&signed, b"m", &key),
        Err(CryptoError::InvalidFormat {
            reason: format!("Invalid Ed25519 public key: {}", expected_text)
        })
    );

    // The same failure inside a transaction is a cryptographic error.
    let id = UtxoId::new(TransactionHash::from_bytes([1; 32]), 0);
    let mut utxos = UtxoSet::new();
    utxos.insert(id, TransactionOutput::new(5, Script::empty()));
    let mut script = signed.as_bytes().to_vec();
    script.extend_from_slice(&padded);
    let tx = Transaction::with_timestamp(
        1,
        vec![TransactionInput::new(id, Script::new(script), 0)],
        vec![TransactionOutput::new(5, Script::empty())],
        0,
        Timestamp::from_secs(0),
    );
    assert_eq!(
        tx.validate_signatures(&utxos),
        Err(BondError::CryptographicError {
            reason: format!(
                "Invalid data format: Invalid Ed25519 public key: {}",
                expected_text
            )
        })
    );
}

#[test]
fn embedded_signatures_are_checked() {
    let pair = Keypair::from_seed(SecurityLevel::Level3, &[5; 32]);
    let id = UtxoId::new(TransactionHash::from_bytes([1; 32]), 0);
    let mut utxos = UtxoSet::new();
    utxos.insert(id, TransactionOutput::new(5, Script::empty()));
    let mut tx = Transaction::with_timestamp(
        1,
        vec![TransactionInput::new(id, Script::empty(), 0)],
        vec![TransactionOutput::new(5, Script::empty())],
        0,
        Timestamp::from_secs(0),
    );
    // A script too short to carry a signature carries none.
    assert_eq!(
        tx.extract_signature_and_key(&tx.inputs[0], &tx.outputs[0]),
        Ok(None)
    );
    assert!(tx.validate_signatures(&utxos).is_ok());
    tx.inputs[0].script_sig = Script::new(vec![0; 3309 + 1952 - 1]);
    assert_eq!(
        tx.extract_signature_and_key(&tx.inputs[0], &tx.outputs[0]),
        Ok(None)
    );

    let message = tx.signature_hash(&tx.inputs[0]).unwrap();
    let signed = signature::sign(&message, pair.private_key()).unwrap();
    let mut script = signed.as_bytes().to_vec();
    script.extend_from_slice(pair.public_key().as_bytes());
    script.extend_from_slice(&[1, 2, 3]);
    tx.inputs[0].script_sig = Script::new(script);
    let (found_signature, found_key) = tx
        .extract_signature_and_key(&tx.inputs[0], &tx.outputs[0])
        .unwrap()
        .unwrap();
    assert_eq!(found_signature, signed);
    assert_eq!(&found_key, pair.public_key());
    assert!(tx.validate_signatures(&utxos).is_ok());

    // The signature does not cover another transaction.
    let mut other = tx.clone();
    other.outputs[0].value = 4;
    assert_eq!(
        other.validate_signatures(&utxos),
        Err(BondError::InvalidTransaction {
            reason: format!("Invalid signature for input: {}", id.to_string())
        })
    );
    // The output must exist.
    assert_eq!(
        tx.validate_signatures(&UtxoSet::new()),
        Err(BondError::InvalidTransaction {
            reason: format!("Referenced UTXO not found: {}", id.to_string())
        })
    );
    // A coinbase carries no signature.
    assert!(Transaction::coinbase(1, vec![0; 6000])
        .validate_signatures(&UtxoSet::new())
        .is_ok());
}

#[test]
fn clocks_are_read() {
    let before = chrono::Utc::now().timestamp();
    let now = Timestamp::now();
    let after = chrono::Utc::now().timestamp();
    assert!(before <= now.secs && now.secs <= after);
    assert!(now.nanos < 2_000_000_000);
    let tx = Transaction::new(1, vec![], vec![], 0);
    assert!(before <= tx.timestamp.secs && tx.timestamp.secs <= after + 1);

    let mut miner = Miner::new();
    let stop = miner.stop_handle();
    miner.stop();
    assert!(stop.load(std::sync::atomic::Ordering::Relaxed));
    // Mining lowers the flag when it starts.
    let header = bond_core::create_mining_header(
        1,
        BlockHash::zero(),
        MerkleRoot::zero(),
        DifficultyTarget::maximum(),
    );
    assert!(before <= header.timestamp.secs && header.timestamp.secs <= after + 1);
    assert_eq!(header.nonce, 0);
    assert!(miner.mine_block(header).is_ok());
    assert!(!stop.load(std::sync::atomic::Ordering::Relaxed));
}

#[test]
fn seconds_between_timestamps() {
    let a = Timestamp::new(10, 900_000_000);
    let b = Timestamp::new(11, 100_000_000);
    assert_eq!(b.seconds_since(&a), 0);
    assert_eq!(a.seconds_since(&b), 0);
    assert!(b.is_after(&a));
    assert!(!a.is_after(&b));
    assert!(!a.is_after(&a));
    assert_eq!(Timestamp::new(12, 0).seconds_since(&Timestamp::new(10, 1)), 1);
    assert_eq!(Timestamp::new(10, 1).seconds_since(&Timestamp::new(12, 0)), -1);
    assert_eq!(Timestamp::new(12, 1).seconds_since(&Timestamp::new(10, 1)), 2);
    assert_eq!(
        Timestamp::new(i64::MAX, 0).seconds_since(&Timestamp::new(i64::MIN, 0)),
        u64::MAX as i128
    );
    assert_eq!(
        Timestamp::new(i64::MIN, 0).seconds_since(&Timestamp::new(i64::MAX, 0)),
        -(u64::MAX as i128)
    );
    let same = chrono::DateTime::from_timestamp(12, 5).unwrap()
        - chrono::DateTime::from_timestamp(10, 900_000_000).unwrap();
    assert_eq!(
        Timestamp::new(12, 5).seconds_since(&Timestamp::new(10, 900_000_000)),
        same.num_seconds() as i128
    );
}
