use qcrypt::cli::{
    auth_mode_from_flags, check_keygen_passphrase, decrypt_output_for_cid, decrypt_output_for_url, encrypt_output_for_name,
    encrypt_output_for_url, eth_key_source, exceeds_irys_free_tier, EthKeySource,
};
use qcrypt::hybrid::AuthMode;
use qcrypt::yubikey::{derive_eth_key, derive_hmac_secret, eth_key_hex, generate_eth_key, hmac_secret_hex, yubikey_eth_challenge};

fn argon2_into(pwd: &[u8], salt: &[u8], n: usize) -> Vec<u8> {
    let mut out = vec![0u8; n];
    argon2::Argon2::default().hash_password_into(pwd, salt, &mut out).unwrap();
    out
}

#[test]
fn hmac_secret_needs_sixteen_bytes() {
    assert_eq!(derive_hmac_secret("fifteen chars!!").unwrap_err(), "Passphrase rejected: Must be at least 16 characters.");
    let k = derive_hmac_secret("sixteen chars!!!").unwrap();
    assert_eq!(k.len(), 20);
    assert_eq!(k, argon2_into(b"sixteen chars!!!", b"qcrypt_yubi_salt", 20));
    assert_eq!(hmac_secret_hex(&k).len(), 40);
    assert_eq!(hmac_secret_hex(&[0xde, 0xad]), "dead");
}

#[test]
fn passphrase_minimum_counts_characters() {
    let eight = "éééééééé";
    assert_eq!(eight.len(), 16);
    assert_eq!(derive_hmac_secret(eight).unwrap_err(), "Passphrase rejected: Must be at least 16 characters.");
    assert_eq!(derive_eth_key(Some(eight), None, "salt").unwrap_err(), "Passphrase rejected: Must be at least 16 characters.");
    let sixteen = "éééééééééééééééé";
    assert_eq!(derive_hmac_secret(sixteen).unwrap(), argon2_into(sixteen.as_bytes(), b"qcrypt_yubi_salt", 20));
    assert!(derive_eth_key(Some(sixteen), None, "salt").is_ok());
}

#[test]
fn eth_key_from_passphrase() {
    let pass = "correct horse battery staple";
    let k = derive_eth_key(Some(pass), None, "ab").unwrap();
    assert_eq!(k.to_vec(), argon2_into(pass.as_bytes(), b"ab\0\0\0\0\0\0", 32));
    let again = derive_eth_key(Some(pass), None, "ab").unwrap();
    assert_eq!(k, again);
    let other = derive_eth_key(Some(pass), None, "another salt").unwrap();
    assert_ne!(k, other);
    assert!(secp256k1::SecretKey::from_byte_array(k).is_ok());
}

#[test]
fn eth_key_errors() {
    assert_eq!(derive_eth_key(None, None, "salt").unwrap_err(), "Passphrase required for deterministic derivation");
    assert_eq!(derive_eth_key(Some("short"), None, "salt").unwrap_err(), "Passphrase rejected: Must be at least 16 characters.");
}

#[test]
fn eth_key_from_token_response() {
    let resp = [7u8; 20];
    let k = derive_eth_key(Some("ignored"), Some(&resp), "salt phrase").unwrap();
    assert_eq!(k.to_vec(), argon2_into(&resp, b"salt phrase", 32));
}

#[test]
fn token_challenge_is_cut_to_64_bytes() {
    let long = "x".repeat(100);
    assert_eq!(yubikey_eth_challenge(&long), vec![b'x'; 64]);
    assert_eq!(yubikey_eth_challenge("abc"), b"abc".to_vec());
}

#[test]
fn eth_key_text() {
    assert_eq!(eth_key_hex(&[0x01; 32]), format!("0x{}", "01".repeat(32)));
    let k = generate_eth_key();
    assert!(secp256k1::SecretKey::from_byte_array(k).is_ok());
    let sk = secp256k1::SecretKey::from_byte_array(k).unwrap();
    assert_eq!(eth_key_hex(&k), format!("0x{}", sk.display_secret()));
}

#[test]
fn auth_modes() {
    assert_eq!(auth_mode_from_flags(false, false), AuthMode::Passphrase);
    assert_eq!(auth_mode_from_flags(true, false), AuthMode::HardwareOnly);
    assert_eq!(auth_mode_from_flags(false, true), AuthMode::HardwareAndPassphrase);
    assert_eq!(auth_mode_from_flags(true, true), AuthMode::HardwareAndPassphrase);
}

#[test]
fn keygen_passphrase_policy() {
    assert!(check_keygen_passphrase(AuthMode::HardwareOnly, "").is_ok());
    assert!(check_keygen_passphrase(AuthMode::Passphrase, "0123456789abcdef").is_ok());
    assert_eq!(
        check_keygen_passphrase(AuthMode::HardwareAndPassphrase, "short").unwrap_err(),
        "Passphrase rejected: Must be at least 16 characters to mathematically defeat cloud GPU clusters. Aborting."
    );
    // Characters, not bytes, are counted.
    assert!(check_keygen_passphrase(AuthMode::Passphrase, "éééééééé").is_err());
    assert!(check_keygen_passphrase(AuthMode::Passphrase, "éééééééééééééééé").is_ok());
}

#[test]
fn eth_key_sources() {
    assert!(matches!(eth_key_source(true, Some("s"), Some("k")), EthKeySource::Token(s) if s == "s"));
    assert!(matches!(eth_key_source(true, None, Some("k")), EthKeySource::MissingSalt));
    assert!(matches!(eth_key_source(false, Some("s"), Some("k")), EthKeySource::Given(k) if k == "k"));
    assert!(matches!(eth_key_source(false, None, None), EthKeySource::Absent));
}

#[test]
fn free_tier_limit() {
    assert!(!exceeds_irys_free_tier(102400));
    assert!(exceeds_irys_free_tier(102401));
}

#[test]
fn default_output_names() {
    assert_eq!(encrypt_output_for_url("https://h.example/dir/file.txt"), "file.txt.enc");
    assert_eq!(encrypt_output_for_url("https://h.example/dir/"), ".enc");
    assert_eq!(encrypt_output_for_name("notes.md"), "notes.md.enc");
    assert_eq!(decrypt_output_for_url("https://h.example/a/b.txt.enc"), "b.txt");
    assert_eq!(decrypt_output_for_url("https://h.example/a/b"), "b.dec");
    assert_eq!(decrypt_output_for_cid("QmCid"), "QmCid.dec");
}

#[test]
fn written_eth_keys_sign_uploads() {
    let k = generate_eth_key();
    let text = eth_key_hex(&k);
    let item = qcrypt::arweave::sign_and_build_dataitem(b"data", &text).unwrap();
    let owner = secp256k1::SecretKey::from_byte_array(k).unwrap().public_key().serialize_uncompressed();
    assert_eq!(&item[67..132], &owner[..]);
}
