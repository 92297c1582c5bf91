use aes_gcm::aead::{Aead, KeyInit, Payload};
use ml_kem::kem::Decapsulate;
use ml_kem::{EncodedSizeUser, KemCore};
use qcrypt::hybrid::{
    begin_decrypt_stream, begin_encrypt_stream, build_manifest, derive_chunk_nonce, unlock_archive_key, verify_manifest,
    AuthMode, DecryptError, ManifestError, OpenedFrame, StreamKey, StreamOpener, StreamSealer, HEADER_SIZE, MAX_FRAME_LEN, FrameLength,
};
use qcrypt::chunker::ChunkSplitter;
use qcrypt::keys::{generate_keys, key_entropy, parse_key_blob, recover_public_key, seal_private_key, strip_pem_headers, unlock_private_key, UnlockError};

const PASS: &str = "a passphrase of some length";

fn frames(body: &[u8]) -> Vec<Vec<u8>> {
    let mut out = Vec::new();
    let mut i = 0;
    while i < body.len() {
        let len = u32::from_be_bytes(body[i..i + 4].try_into().unwrap()) as usize;
        out.push(body[i + 4..i + 4 + len].to_vec());
        i += 4 + len;
    }
    out
}

fn test_key() -> StreamKey {
    StreamKey { aes_key: [9u8; 32], base_nonce: [3u8; 12], aad: vec![5u8; HEADER_SIZE] }
}

fn seal(chunks: &[&[u8]]) -> Vec<u8> {
    let mut s = StreamSealer::new(test_key());
    let mut body = Vec::new();
    for c in chunks {
        body.extend(s.seal_chunk(c));
    }
    body.extend(s.finish());
    body
}

#[test]
fn chunk_nonces() {
    let base = [0xaau8; 12];
    assert_eq!(derive_chunk_nonce(&base, 0), base);
    let n1 = derive_chunk_nonce(&base, 1);
    assert_eq!(&n1[..11], &base[..11]);
    assert_eq!(n1[11], 0xab);
    let n = derive_chunk_nonce(&base, 0x0102030405060708);
    assert_eq!(&n[..4], &base[..4]);
    assert_eq!(&n[4..], &[0xab, 0xa8, 0xa9, 0xae, 0xaf, 0xac, 0xad, 0xa2]);
    let mut seen = std::collections::HashSet::new();
    for i in 0..1000u64 {
        assert!(seen.insert(derive_chunk_nonce(&base, i)));
    }
}

#[test]
fn manifest_round_trip_and_errors() {
    let hash = [7u8; 32];
    let m = build_manifest(3, 1000, &hash);
    assert_eq!(m.len(), 56);
    assert_eq!(&m[..8], b"QCRYPTOK");
    assert_eq!(verify_manifest(&m, 3, 1000, &hash), Ok(()));
    assert_eq!(verify_manifest(&m[..40], 3, 1000, &hash), Err(ManifestError::TooSmall));
    assert_eq!(verify_manifest(&m[..50], 3, 1000, &hash), Err(ManifestError::DigestCut { len: 50 }));
    assert_eq!(DecryptError::Manifest(ManifestError::DigestCut { len: 50 }).message(), "Manifest digest cut short: 50 bytes");
    let mut bad = m.clone();
    bad[0] = b'X';
    assert_eq!(verify_manifest(&bad, 3, 1000, &hash), Err(ManifestError::BadMagic));
    assert_eq!(verify_manifest(&m, 4, 1000, &hash), Err(ManifestError::ChunkCountMismatch { expected: 4, got: 3 }));
    assert_eq!(verify_manifest(&m, 3, 999, &hash), Err(ManifestError::ByteCountMismatch { expected: 999, got: 1000 }));
    assert_eq!(verify_manifest(&m, 3, 1000, &[8u8; 32]), Err(ManifestError::HashMismatch));
}

#[test]
fn sealed_chunks_open_back() {
    let body = seal(&[b"first chunk", b"second", b"3"]);
    let fs = frames(&body);
    assert_eq!(fs.len(), 5);
    let mut o = StreamOpener::new(test_key());
    let mut out = Vec::new();
    let mut kinds = Vec::new();
    for f in &fs {
        match o.open_frame(f).unwrap() {
            OpenedFrame::Data(d) => {
                out.extend(d);
                kinds.push('d')
            }
            OpenedFrame::EofMarker => kinds.push('e'),
            OpenedFrame::Complete => kinds.push('c'),
            OpenedFrame::Ignored => kinds.push('i'),
        }
    }
    assert_eq!(out, b"first chunksecond3");
    assert_eq!(kinds, vec!['d', 'd', 'd', 'e', 'c']);
    assert_eq!(o.finish(), Ok(()));
    assert_eq!(o.open_frame(b"anything").unwrap(), OpenedFrame::Ignored);
}

#[test]
fn empty_stream_opens_to_nothing() {
    let fs = frames(&seal(&[]));
    assert_eq!(fs.len(), 2);
    let mut o = StreamOpener::new(test_key());
    assert_eq!(o.open_frame(&fs[0]).unwrap(), OpenedFrame::EofMarker);
    assert_eq!(o.open_frame(&fs[1]).unwrap(), OpenedFrame::Complete);
}

#[test]
fn tampering_and_truncation_are_caught() {
    let fs = frames(&seal(&[b"abc", b"def"]));
    let mut o = StreamOpener::new(test_key());
    o.open_frame(&fs[0]).unwrap();
    let mut bad = fs[1].clone();
    bad[0] ^= 1;
    let e = o.open_frame(&bad).unwrap_err();
    // Frame 0 spans 1580..1580+4+19; frame 1's ciphertext starts 4 bytes later.
    assert_eq!(e, DecryptError::AuthFailed { offset: 1580 + 4 + 19 + 4 });
    assert_eq!(e.message(), "AES authentication FAILED at offset 1607");

    let mut o = StreamOpener::new(test_key());
    o.open_frame(&fs[0]).unwrap();
    o.open_frame(&fs[1]).unwrap();
    assert_eq!(o.finish(), Err(DecryptError::Truncated));
    assert_eq!(DecryptError::Truncated.message(), "Archive truncated without EOF marker");

    // Dropping a data frame shifts the nonces: the next frame fails.
    let mut o = StreamOpener::new(test_key());
    assert!(matches!(o.open_frame(&fs[1]), Err(DecryptError::AuthFailed { .. })));
}

#[test]
fn decrypt_error_messages() {
    let m = |e: ManifestError| DecryptError::Manifest(e).message();
    assert_eq!(m(ManifestError::TooSmall), "Manifest chunk too small");
    assert_eq!(m(ManifestError::BadMagic), "Invalid manifest magic bytes");
    assert_eq!(m(ManifestError::ChunkCountMismatch { expected: 2, got: 5 }), "Chunk count mismatch: expected 2, got 5");
    assert_eq!(m(ManifestError::ByteCountMismatch { expected: 10, got: 0 }), "Byte count mismatch: expected 10, got 0");
    assert_eq!(
        m(ManifestError::HashMismatch),
        "BLAKE3 MISMATCH: The file data has been corrupted or tampered with!"
    );
}

#[test]
fn key_blobs() {
    assert_eq!(parse_key_blob("-----BEGIN X-----\nQUJD\n-----END X-----\n").unwrap(), b"ABC");
    assert_eq!(parse_key_blob("  QU JD\r\n").unwrap(), b"ABC");
    assert_eq!(parse_key_blob("-----BEGIN broken").unwrap_err(), "Invalid PEM format");
    assert_eq!(parse_key_blob("not base64!").unwrap_err(), "Invalid Base64 Stealth format");
    assert_eq!(strip_pem_headers("-----BEGIN X-----\r\nQUJD\r\n-----END X-----\r\n"), "QUJD\n");
}

#[test]
fn private_key_wrapping() {
    let dk = vec![42u8; 3168];
    let entropy = key_entropy(&AuthMode::Passphrase, PASS, &[]);
    assert_eq!(entropy, PASS.as_bytes());
    assert_eq!(key_entropy(&AuthMode::HardwareAndPassphrase, "pw", &[1, 2]), b"pw\x01\x02");
    assert_eq!(key_entropy(&AuthMode::HardwareOnly, "pw", &[1, 2]), vec![1, 2]);
    let payload = seal_private_key(&dk, &entropy, &[1u8; 16], &[2u8; 12]);
    assert_eq!(payload.len(), 16 + 12 + 3168 + 16);
    assert_eq!(unlock_private_key(&payload, &entropy).unwrap(), dk);
    assert_eq!(unlock_private_key(&payload, b"wrong secret").unwrap_err(), UnlockError::WrongSecret);
    assert_eq!(unlock_private_key(&payload[..43], &entropy).unwrap_err(), UnlockError::PayloadTooSmall);
    assert_eq!(UnlockError::WrongSecret.message(), "Incorrect passphrase or corrupted private key");
}

#[test]
fn generated_keys_recover_and_encrypt() {
    let salt = [4u8; 16];
    let (priv_pem, pub_pem) = generate_keys(PASS, false, &AuthMode::Passphrase, &salt, &[]);
    assert!(priv_pem.starts_with("-----BEGIN ENCRYPTED ML-KEM-1024 PRIVATE KEY-----"));
    assert!(pub_pem.starts_with("-----BEGIN ML-KEM-1024 PUBLIC KEY-----"));
    assert_eq!(recover_public_key(&priv_pem, PASS, &AuthMode::Passphrase, false, &[]).unwrap(), pub_pem);
    assert_eq!(
        recover_public_key(&priv_pem, "wrong passphrase!", &AuthMode::Passphrase, false, &[]).unwrap_err(),
        "Incorrect passphrase or corrupted private key"
    );

    let (mut sealer, header) = begin_encrypt_stream(&pub_pem).unwrap();
    assert_eq!(header.len(), HEADER_SIZE);
    let mut body = Vec::new();
    body.extend(sealer.seal_chunk(b"hello "));
    body.extend(sealer.seal_chunk(b"archive"));
    body.extend(sealer.finish());

    let dk = unlock_archive_key(&priv_pem, PASS, &AuthMode::Passphrase, &[]).unwrap();
    let mut opener = begin_decrypt_stream(&dk, &header);
    let mut out = Vec::new();
    for f in frames(&body) {
        if let OpenedFrame::Data(d) = opener.open_frame(&f).unwrap() {
            out.extend(d);
        }
    }
    assert_eq!(out, b"hello archive");
    assert_eq!(opener.finish(), Ok(()));
}

#[test]
fn stealth_keys_recover() {
    let salt = [6u8; 16];
    let (priv_txt, pub_txt) = generate_keys(PASS, true, &AuthMode::Passphrase, &salt, &[]);
    assert!(!priv_txt.contains("-----"));
    assert!(!pub_txt.contains("-----"));
    assert_eq!(recover_public_key(&priv_txt, PASS, &AuthMode::Passphrase, true, &[]).unwrap(), pub_txt);
    assert!(begin_encrypt_stream(&pub_txt).is_ok());
}

#[test]
fn bad_public_keys() {
    assert_eq!(begin_encrypt_stream("QUJD").err(), Some("Invalid public key size"));
    assert_eq!(begin_encrypt_stream("@@@").err(), Some("Invalid Base64 Stealth format"));
}

#[test]
fn archive_format_matches_the_primitives() {
    let salt = [8u8; 16];
    let (priv_pem, pub_pem) = generate_keys(PASS, false, &AuthMode::Passphrase, &salt, &[]);
    let (mut sealer, header) = begin_encrypt_stream(&pub_pem).unwrap();
    let mut body = Vec::new();
    body.extend(sealer.seal_chunk(b"interop check"));
    body.extend(sealer.finish());

    // Decapsulate and derive the archive key with the crates directly.
    let dk_bytes = unlock_archive_key(&priv_pem, PASS, &AuthMode::Passphrase, &[]).unwrap();
    let enc: ml_kem::Encoded<<ml_kem::MlKem1024 as KemCore>::DecapsulationKey> = dk_bytes.as_slice().try_into().unwrap();
    let dk = <ml_kem::MlKem1024 as KemCore>::DecapsulationKey::from_bytes(&enc);
    let ct: ml_kem::Ciphertext<ml_kem::MlKem1024> = header[..1568].try_into().unwrap();
    let ss = dk.decapsulate(&ct).unwrap();
    let mut key = [0u8; 32];
    hkdf::Hkdf::<sha2::Sha256>::new(None, ss.as_slice()).expand(b"qcrypt-aes-gcm", &mut key).unwrap();
    let cipher = aes_gcm::Aes256Gcm::new_from_slice(&key).unwrap();
    let base: [u8; 12] = header[1568..].try_into().unwrap();

    let fs = frames(&body);
    assert_eq!(fs.len(), 3);
    let open = |i: u64, ct: &[u8]| {
        let nonce = derive_chunk_nonce(&base, i);
        cipher.decrypt(aes_gcm::Nonce::from_slice(&nonce), Payload { msg: ct, aad: &header }).unwrap()
    };
    assert_eq!(open(0, &fs[0]), b"interop check");
    assert_eq!(open(1, &fs[1]), b"");
    let manifest = open(2, &fs[2]);
    assert_eq!(manifest, build_manifest(1, 13, blake3::hash(b"interop check").as_bytes()));
}

#[test]
fn a_manifest_from_another_plaintext_is_refused() {
    let a = frames(&seal(&[b"abc", b"def"]));
    let b = frames(&seal(&[b"abc", b"xyz"]));
    let mut o = StreamOpener::new(test_key());
    o.open_frame(&a[0]).unwrap();
    o.open_frame(&a[1]).unwrap();
    assert_eq!(o.open_frame(&a[2]).unwrap(), OpenedFrame::EofMarker);
    assert_eq!(o.open_frame(&b[3]), Err(DecryptError::Manifest(ManifestError::HashMismatch)));

    let c = frames(&seal(&[b"abc", b"de"]));
    let mut o = StreamOpener::new(test_key());
    o.open_frame(&a[0]).unwrap();
    o.open_frame(&a[1]).unwrap();
    o.open_frame(&a[2]).unwrap();
    assert_eq!(
        o.open_frame(&c[3]),
        Err(DecryptError::Manifest(ManifestError::ByteCountMismatch { expected: 6, got: 5 }))
    );
}

#[test]
fn empty_key_contents_read_back() {
    let pem = "-----BEGIN ML-KEM-1024 PUBLIC KEY-----\r\n-----END ML-KEM-1024 PUBLIC KEY-----\r\n";
    assert_eq!(pem, ::pem::encode(&::pem::Pem::new("ML-KEM-1024 PUBLIC KEY", Vec::<u8>::new())));
    assert_eq!(parse_key_blob(pem).unwrap(), Vec::<u8>::new());
    let stealth = strip_pem_headers(pem);
    assert_eq!(stealth, "\n");
    assert_eq!(parse_key_blob(&stealth).unwrap(), Vec::<u8>::new());
}

#[test]
fn frame_lengths_are_bounded_before_reading() {
    let mut opener = StreamOpener::new(test_key());
    assert_eq!(MAX_FRAME_LEN, 1048576 + 16);
    assert_eq!(opener.frame_length(&72u32.to_be_bytes()), FrameLength::Read(72));
    assert_eq!(opener.frame_length(&(MAX_FRAME_LEN as u32).to_be_bytes()), FrameLength::Read(MAX_FRAME_LEN));
    assert_eq!(
        opener.frame_length(&(MAX_FRAME_LEN as u32 + 1).to_be_bytes()),
        FrameLength::Oversized(MAX_FRAME_LEN as u32 + 1)
    );
    assert_eq!(opener.frame_length(&u32::MAX.to_be_bytes()), FrameLength::Oversized(u32::MAX));
    assert_eq!(opener.oversized_frame_error(), DecryptError::AuthFailed { offset: HEADER_SIZE as u64 + 4 });
    assert_eq!(opener.oversized_frame_error().message(), "AES authentication FAILED at offset 1584");
    let body = seal(&[b"abc"]);
    for f in frames(&body) {
        opener.open_frame(&f).unwrap();
    }
    assert_eq!(opener.frame_length(&u32::MAX.to_be_bytes()), FrameLength::Stop);
}

fn split_run(data: &[u8], sizes: &[usize]) -> Vec<Vec<u8>> {
    let mut s = ChunkSplitter::new();
    let mut out = Vec::new();
    let mut i = 0;
    let mut k = 0;
    while i < data.len() {
        let n = sizes[k % sizes.len()].min(data.len() - i);
        out.extend(s.push(&data[i..i + n]));
        i += n;
        k += 1;
    }
    let rest = s.finish();
    if !rest.is_empty() {
        out.push(rest);
    }
    out
}

#[test]
fn chunks_do_not_depend_on_read_sizes() {
    let data: Vec<u8> = (0..2_621_440u32).map(|i| (i % 251) as u8).collect();
    let a = split_run(&data, &[data.len()]);
    let b = split_run(&data, &[1, 7000, 65536, 333_333]);
    let c = split_run(&data, &[1_048_576]);
    assert_eq!(a.len(), 3);
    assert_eq!(a[0].len(), 1_048_576);
    assert_eq!(a[1].len(), 1_048_576);
    assert_eq!(a[2].len(), 524_288);
    assert_eq!(a, b);
    assert_eq!(a, c);
    assert_eq!(a.concat(), data);
    let exact = split_run(&data[..2_097_152], &[4096]);
    assert_eq!(exact.len(), 2);
    assert!(split_run(&[], &[1]).is_empty());
}

#[test]
fn each_archive_draws_a_fresh_encapsulation() {
    let (_, pub_pem) = generate_keys(PASS, true, &AuthMode::Passphrase, &[1u8; 16], &[]);
    let (_, h1) = begin_encrypt_stream(&pub_pem).unwrap();
    let (_, h2) = begin_encrypt_stream(&pub_pem).unwrap();
    assert_ne!(h1[..1568], h2[..1568]);
    assert_ne!(h1[1568..], h2[1568..]);
}

/// Reads frames as the decrypting side does: stops at a cut length field or
/// ciphertext, and at the manifest; returns the output and the result.
fn read_and_open(body: &[u8]) -> (Vec<u8>, Result<(), DecryptError>) {
    let mut o = StreamOpener::new(test_key());
    let mut out = Vec::new();
    let mut i = 0;
    loop {
        if body.len() - i < 4 {
            break;
        }
        let len = match o.frame_length(&body[i..i + 4].try_into().unwrap()) {
            FrameLength::Read(n) => n,
            FrameLength::Stop => break,
            FrameLength::Oversized(n) => {
                if body.len() - i - 4 < n as usize {
                    break;
                }
                return (out, Err(o.oversized_frame_error()));
            }
        };
        if body.len() - i - 4 < len {
            break;
        }
        match o.open_frame(&body[i + 4..i + 4 + len]) {
            Ok(OpenedFrame::Data(d)) => out.extend(d),
            Ok(_) => {}
            Err(e) => return (out, Err(e)),
        }
        i += 4 + len;
    }
    (out, o.finish())
}

#[test]
fn tampered_full_chunk_reports_its_offset() {
    let data: Vec<u8> = (0..3 * 1_048_576u32).map(|i| (i % 253) as u8).collect();
    let chunks: Vec<&[u8]> = data.chunks(1_048_576).collect();
    let body = seal(&chunks);
    assert_eq!(read_and_open(&body), (data.clone(), Ok(())));
    for k in 0..3usize {
        let mut bad = body.clone();
        bad[k * 1_048_596 + 4 + 100] ^= 0x40;
        let (out, r) = read_and_open(&bad);
        let e = r.unwrap_err();
        assert_eq!(e, DecryptError::AuthFailed { offset: (1584 + k * 1_048_596) as u64 });
        assert_eq!(out, data[..k * 1_048_576].to_vec());
    }
}

#[test]
fn every_cut_of_an_archive_is_refused() {
    let body = seal(&[b"first chunk", b"second"]);
    assert_eq!(read_and_open(&body), (b"first chunksecond".to_vec(), Ok(())));
    for m in 0..body.len() {
        let (_, r) = read_and_open(&body[..m]);
        assert_eq!(r, Err(DecryptError::Truncated), "cut at {}", m);
    }
}

#[test]
fn oversized_frames_are_truncation_or_forgery() {
    let mut body = seal(&[b"abc"]);
    let first = 4 + 3 + 16;
    body.truncate(first);
    body.extend_from_slice(&((MAX_FRAME_LEN + 1) as u32).to_be_bytes());
    body.extend_from_slice(&[0u8; 100]);
    // The announced bytes are not all there: the archive is cut short.
    assert_eq!(read_and_open(&body), (b"abc".to_vec(), Err(DecryptError::Truncated)));
    // They are all there: the frame does not authenticate.
    body.resize(first + 4 + MAX_FRAME_LEN + 1, 0);
    assert_eq!(
        read_and_open(&body),
        (b"abc".to_vec(), Err(DecryptError::AuthFailed { offset: (HEADER_SIZE + first + 4) as u64 }))
    );
}

#[test]
fn chunk_nonces_compose_by_xor() {
    let base = [0x5au8, 1, 2, 3, 4, 5, 6, 7, 8, 9, 10, 11];
    for (i, j) in [(0u64, 0u64), (1, 2), (7, 7), (0x0102_0304_0506_0708, 0xffff_0000_ffff_0000), (u64::MAX, 3)] {
        assert_eq!(derive_chunk_nonce(&derive_chunk_nonce(&base, i), j), derive_chunk_nonce(&base, i ^ j));
    }
}
