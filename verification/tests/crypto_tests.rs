use bond_core::{sign, verify, CryptoError, Keypair, SecurityLevel};

#[test]
fn test_generate_level2_keypair() {
    let keypair = Keypair::generate(SecurityLevel::Level2).unwrap();

    assert_eq!(keypair.security_level(), SecurityLevel::Level2);
    assert_eq!(keypair.public_key().security_level(), SecurityLevel::Level2);
    assert_eq!(
        keypair.private_key().security_level(),
        SecurityLevel::Level2
    );

    // Verify key sizes
    assert_eq!(
        keypair.public_key().size(),
        SecurityLevel::Level2.public_key_size()
    );
    assert_eq!(
        keypair.private_key().size(),
        SecurityLevel::Level2.private_key_size()
    );
}

#[test]
fn test_generate_level3_keypair() {
    let keypair = Keypair::generate(SecurityLevel::Level3).unwrap();

    assert_eq!(keypair.security_level(), SecurityLevel::Level3);
    assert_eq!(keypair.public_key().security_level(), SecurityLevel::Level3);
    assert_eq!(
        keypair.private_key().security_level(),
        SecurityLevel::Level3
    );

    // Verify key sizes
    assert_eq!(
        keypair.public_key().size(),
        SecurityLevel::Level3.public_key_size()
    );
    assert_eq!(
        keypair.private_key().size(),
        SecurityLevel::Level3.private_key_size()
    );
}

#[test]
fn test_mismatched_security_levels() {
    let level2_keypair = Keypair::generate(SecurityLevel::Level2).unwrap();
    let level3_keypair = Keypair::generate(SecurityLevel::Level3).unwrap();

    let result = Keypair::from_keys(
        level2_keypair.public_key().clone(),
        level3_keypair.private_key().clone(),
    );

    assert!(matches!(
        result,
        Err(CryptoError::SecurityLevelMismatch { .. })
    ));
}

#[test]
fn test_sign_and_verify_level2() {
    let keypair = Keypair::generate(SecurityLevel::Level2).unwrap();
    let message = b"Hello, Aevum & Bond!";

    let signature = sign(message, keypair.private_key()).unwrap();
    let is_valid = verify(&signature, message, keypair.public_key()).unwrap();

    assert!(is_valid);
    assert_eq!(signature.security_level(), SecurityLevel::Level2);
    assert_eq!(signature.size(), SecurityLevel::Level2.signature_size());
}

#[test]
fn test_sign_and_verify_level3() {
    let keypair = Keypair::generate(SecurityLevel::Level3).unwrap();
    let message = b"Hello, Aevum & Bond!";

    let signature = sign(message, keypair.private_key()).unwrap();
    let is_valid = verify(&signature, message, keypair.public_key()).unwrap();

    assert!(is_valid);
    assert_eq!(signature.security_level(), SecurityLevel::Level3);
    assert_eq!(signature.size(), SecurityLevel::Level3.signature_size());
}

#[test]
fn test_invalid_signature() {
    let keypair = Keypair::generate(SecurityLevel::Level2).unwrap();
    let message = b"Hello, Aevum & Bond!";
    let wrong_message = b"Wrong message";

    let signature = sign(message, keypair.private_key()).unwrap();
    let is_valid = verify(&signature, wrong_message, keypair.public_key()).unwrap();

    assert!(!is_valid);
}

#[test]
fn test_security_level_mismatch() {
    let keypair_l2 = Keypair::generate(SecurityLevel::Level2).unwrap();
    let keypair_l3 = Keypair::generate(SecurityLevel::Level3).unwrap();
    let message = b"Hello, Aevum & Bond!";

    let signature_l2 = sign(message, keypair_l2.private_key()).unwrap();

    // Try to verify Level 2 signature with Level 3 public key
    let result = verify(&signature_l2, message, keypair_l3.public_key());

    assert!(matches!(
        result,
        Err(CryptoError::SecurityLevelMismatch { .. })
    ));
}
