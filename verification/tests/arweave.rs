use qcrypt::arweave::{
    arweave_gateway_urls, balance_is_positive, clean_txid, deep_hash_chunks_sync, deep_hash_sync, eth_hash_message,
    irys_address, irys_balance_url, irys_status_error, sign_and_build_dataitem, DeepHashChunk,
};
use sha2::{Digest, Sha384};
use sha3::Keccak256;

fn sha384(b: &[u8]) -> Vec<u8> {
    Sha384::digest(b).to_vec()
}

fn blob_hash(b: &[u8]) -> Vec<u8> {
    let tag = format!("blob{}", b.len());
    sha384(&[sha384(tag.as_bytes()), sha384(b)].concat())
}

const KEY: &str = "4c0883a69102937d6231471b5dbb6204fe5129617082792ae468d01a3f362318";

#[test]
fn deep_hash_of_a_blob() {
    let h = deep_hash_sync(DeepHashChunk::Chunk(b"abc".to_vec()));
    assert_eq!(h.len(), 48);
    assert_eq!(h, blob_hash(b"abc"));
}

#[test]
fn deep_hash_of_a_list_folds_items_in_order() {
    let h = deep_hash_sync(DeepHashChunk::Chunks(vec![
        DeepHashChunk::Chunk(b"a".to_vec()),
        DeepHashChunk::Chunks(vec![]),
    ]));
    let acc0 = sha384(b"list2");
    let acc1 = sha384(&[acc0, blob_hash(b"a")].concat());
    let empty_list = sha384(b"list0");
    let acc2 = sha384(&[acc1.clone(), empty_list].concat());
    assert_eq!(h, acc2);
    let partial = deep_hash_chunks_sync(vec![DeepHashChunk::Chunks(vec![])], acc1);
    assert_eq!(partial, h);
}

#[test]
fn eth_message_hash_has_the_signed_message_prefix() {
    let mut k = Keccak256::new();
    k.update(b"\x19Ethereum Signed Message:\n5hello");
    let expected: [u8; 32] = k.finalize().into();
    assert_eq!(eth_hash_message(b"hello"), expected);
    assert_eq!(
        qcrypt::encoding::hex_encode(&eth_hash_message(b"hello")),
        "50b2c43fd39106bafbba0da34fc430e1f91e3c96ea2acee2bc34119f92b37750"
    );
}

#[test]
fn dataitem_layout_and_signature() {
    let data = b"payload bytes";
    let item = sign_and_build_dataitem(data, &format!("0x{}", KEY)).unwrap();
    assert_eq!(item.len(), 2 + 65 + 65 + 2 + 16 + data.len());
    assert_eq!(&item[0..2], &[3, 0]);
    let sk = secp256k1::SecretKey::from_byte_array(hex_bytes(KEY)).unwrap();
    let owner = sk.public_key().serialize_uncompressed();
    assert_eq!(&item[67..132], &owner[..]);
    assert_eq!(&item[132..150], &[0u8; 18]);
    assert_eq!(&item[150..], data);
    let v = item[66];
    assert!(v == 27 || v == 28);
    // The signature recovers to the owner over the deep hash of the fields.
    let fields = vec![
        DeepHashChunk::Chunk(b"dataitem".to_vec()),
        DeepHashChunk::Chunk(b"1".to_vec()),
        DeepHashChunk::Chunk(b"3".to_vec()),
        DeepHashChunk::Chunk(owner.to_vec()),
        DeepHashChunk::Chunk(vec![]),
        DeepHashChunk::Chunk(vec![]),
        DeepHashChunk::Chunk(vec![]),
        DeepHashChunk::Chunk(data.to_vec()),
    ];
    let digest = eth_hash_message(&deep_hash_sync(DeepHashChunk::Chunks(fields)));
    let rec = secp256k1::ecdsa::RecoveryId::try_from(i32::from(v) - 27).unwrap();
    let sig = secp256k1::ecdsa::RecoverableSignature::from_compact(&item[2..66], rec).unwrap();
    let recovered = sig.recover_ecdsa(secp256k1::Message::from_digest(digest)).unwrap();
    assert_eq!(recovered.serialize_uncompressed(), owner);
}

#[test]
fn dataitem_key_text_is_cleaned() {
    let a = sign_and_build_dataitem(b"x", KEY).unwrap();
    let b = sign_and_build_dataitem(b"x", &format!("0x0x{}  \n", KEY)).unwrap();
    assert_eq!(a, b);
}

#[test]
fn dataitem_rejects_bad_keys() {
    let e = sign_and_build_dataitem(b"x", "0xnothex").unwrap_err();
    assert_eq!(e, "malformed or out-of-range secret key");
    let zero = "0".repeat(64);
    assert_eq!(sign_and_build_dataitem(b"x", &zero).unwrap_err(), "malformed or out-of-range secret key");
}

#[test]
fn irys_address_of_a_known_key() {
    assert_eq!(irys_address(KEY).unwrap(), "0x2c7536e3605d9c16a7a3d7b1898e529396a65c23");
    assert_eq!(
        irys_address(&format!("0x{}", KEY)).unwrap(),
        "0x2c7536e3605d9c16a7a3d7b1898e529396a65c23"
    );
    assert_eq!(irys_address("0x12"), None);
    assert_eq!(
        irys_balance_url("0xabc"),
        "https://uploader.irys.xyz/account/balance/ethereum?address=0xabc"
    );
}

#[test]
fn balance_responses() {
    assert!(balance_is_positive("{\"balance\":\"100\"}"));
    assert!(!balance_is_positive("{\"balance\":\"0\"}"));
    assert!(!balance_is_positive("{}"));
    assert!(!balance_is_positive("{\"balance\":\"abc\"}"));
    assert!(!balance_is_positive("{\"balance\":\"99999999999999999999\"}"));
    assert!(balance_is_positive("{\"a\":1,\"balance\":\"+5\",\"balance\":\"0\"}"));
}

#[test]
fn transaction_ids() {
    assert_eq!(clean_txid("{\"id\":\"abc123\",\"timestamp\":1}"), "abc123");
    assert_eq!(clean_txid("{\"id\":\"open"), "open");
    assert_eq!(clean_txid("plain-id"), "plain-id");
}

#[test]
fn upload_failure_message() {
    assert_eq!(irys_status_error(402, "no funds"), "Irys upload failed with status 402: no funds");
}

#[test]
fn gateway_urls_take_the_last_scheme_segment() {
    let (a, b) = arweave_gateway_urls("ar://TXID");
    assert_eq!(a, "https://gateway.irys.xyz/TXID");
    assert_eq!(b, "https://gateway.arweave.net/TXID");
    assert_eq!(arweave_gateway_urls("TXID").0, "https://gateway.irys.xyz/TXID");
    assert_eq!(arweave_gateway_urls("a://b://c").1, "https://gateway.arweave.net/c");
}

fn hex_bytes(s: &str) -> [u8; 32] {
    let mut out = [0u8; 32];
    for i in 0..32 {
        out[i] = u8::from_str_radix(&s[2 * i..2 * i + 2], 16).unwrap();
    }
    out
}

#[test]
fn deep_hash_folds_concatenated_lists_in_two_parts() {
    let acc = sha384(b"start");
    let whole = deep_hash_chunks_sync(
        vec![DeepHashChunk::Chunk(b"x".to_vec()), DeepHashChunk::Chunk(b"yz".to_vec()), DeepHashChunk::Chunks(vec![])],
        acc.clone(),
    );
    let first = deep_hash_chunks_sync(vec![DeepHashChunk::Chunk(b"x".to_vec())], acc.clone());
    assert_eq!(first, sha384(&[acc.clone(), blob_hash(b"x")].concat()));
    let rest = deep_hash_chunks_sync(
        vec![DeepHashChunk::Chunk(b"yz".to_vec()), DeepHashChunk::Chunks(vec![])],
        first,
    );
    assert_eq!(whole, rest);
}
