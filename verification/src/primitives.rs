//! Trusted boundary to the outside cryptographic, encoding and image crates.
//!
//! Every item here is believed by Verus without proof. Each one makes a single
//! outside call; its contract says what the crate's source or documentation
//! shows of that call, either in a few lines or through a name (an
//! uninterpreted spec function) for a result that is a deterministic function
//! of the arguments. Results that depend on chance (fresh keys, salts, nonces)
//! carry only what holds of every outcome.

use vstd::prelude::*;
use crate::encoding::{spec_be_nat, is_hex_digit, spec_hex_decode};
use crate::text::spec_trim;
use crate::keys::{spec_lines, dashes};
use rand::RngCore;
use sha2::Digest;
use ml_kem::KemCore;
use ml_kem::EncodedSizeUser;
use ml_kem::kem::{Encapsulate, Decapsulate};
use aes_gcm::aead::{Aead, KeyInit, Payload};
use base64::Engine;
use std::str::FromStr;

verus! {

// ─── Hash functions ──────────────────────────────────────────────

/// SHA-384 digest of a byte string.
pub uninterp spec fn sha384(data: Seq<u8>) -> Seq<u8>;

/// Keccak-256 (the Ethereum variant, with Keccak padding rather than SHA-3 padding) digest of a byte string.
pub uninterp spec fn keccak256(data: Seq<u8>) -> Seq<u8>;

/// BLAKE3 (32-byte output) digest of a byte string.
pub uninterp spec fn blake3_digest(data: Seq<u8>) -> Seq<u8>;

/// Calls `sha2::Sha384` (new, update, finalize). Claims: the result is the
/// SHA-384 digest of `data`, 48 bytes long.
#[verifier::external_body]
pub(crate) fn sha384hash(data: &[u8]) -> (r: Vec<u8>)
    ensures
        r@ == sha384(data@),
        r@.len() == 48,
{
    let mut hasher = sha2::Sha384::new();
    hasher.update(data);
    hasher.finalize().to_vec()
}

/// Calls `sha3::Keccak256` (new, update, finalize). Claims: the result is the
/// Keccak-256 digest of `data` (32 bytes, by its type).
#[verifier::external_body]
pub(crate) fn keccak256_digest(data: &[u8]) -> (r: [u8; 32])
    ensures
        r@ == keccak256(data@),
{
    let mut hasher = sha3::Keccak256::new();
    hasher.update(data);
    hasher.finalize().into()
}

/// `blake3::Hasher`, an incremental BLAKE3 hasher.
#[verifier::external_type_specification]
#[verifier::external_body]
pub struct ExBlake3Hasher(blake3::Hasher);

/// The bytes fed into a BLAKE3 hasher so far, in order.
pub uninterp spec fn blake3_absorbed(h: blake3::Hasher) -> Seq<u8>;

/// Calls `blake3::Hasher::new`. Claims: the new hasher has absorbed nothing.
#[verifier::external_body]
pub(crate) fn blake3_new() -> (h: blake3::Hasher)
    ensures
        blake3_absorbed(h) == Seq::<u8>::empty(),
{
    blake3::Hasher::new()
}

/// Calls `blake3::Hasher::update`. Claims: `data` is appended to what the
/// hasher has absorbed.
#[verifier::external_body]
pub(crate) fn blake3_update(h: &mut blake3::Hasher, data: &[u8])
    ensures
        blake3_absorbed(*final(h)) == blake3_absorbed(*old(h)) + data@,
{
    h.update(data);
}

/// Calls `blake3::Hasher::finalize`. Claims: the result is the BLAKE3 digest
/// of everything the hasher absorbed (the hasher itself is unchanged).
#[verifier::external_body]
pub(crate) fn blake3_finalize(h: &blake3::Hasher) -> (r: [u8; 32])
    ensures
        r@ == blake3_digest(blake3_absorbed(*h)),
{
    *h.finalize().as_bytes()
}

// ─── AES-256-GCM ─────────────────────────────────────────────────

/// AES-256-GCM encryption of `msg` under `key` and `nonce`, authenticating
/// `aad`: the ciphertext followed by the 16-byte tag.
pub uninterp spec fn aes_gcm_seal(key: Seq<u8>, nonce: Seq<u8>, msg: Seq<u8>, aad: Seq<u8>) -> Seq<u8>;

/// AES-256-GCM decryption: `Some` plaintext when the tag authenticates,
/// `None` otherwise.
pub uninterp spec fn aes_gcm_open(key: Seq<u8>, nonce: Seq<u8>, ct: Seq<u8>, aad: Seq<u8>) -> Option<Seq<u8>>;

/// Largest plaintext or associated-data length that `aes-gcm` accepts (2^36).
pub open spec fn aes_gcm_max_len() -> int {
    0x1000000000
}

/// Calls `aes_gcm::Aes256Gcm::encrypt` with a `Payload`. Claims: it fails
/// exactly when the plaintext or the associated data is longer than 2^36
/// bytes (the crate's `P_MAX` / `A_MAX` check); otherwise the result is the
/// named ciphertext, 16 bytes longer than the plaintext, and decrypting it
/// under the same key, nonce and associated data gives the plaintext back
/// (AEAD correctness).
#[verifier::external_body]
pub(crate) fn aes256gcm_encrypt(key: &[u8; 32], nonce: &[u8; 12], msg: &[u8], aad: &[u8]) -> (r: Option<Vec<u8>>)
    ensures
        r is None <==> (msg@.len() > aes_gcm_max_len() || aad@.len() > aes_gcm_max_len()),
        r matches Some(c) ==> {
            &&& c@ == aes_gcm_seal(key@, nonce@, msg@, aad@)
            &&& c@.len() == msg@.len() + 16
            &&& aes_gcm_open(key@, nonce@, c@, aad@) == Some(msg@)
        },
{
    let cipher = aes_gcm::Aes256Gcm::new_from_slice(key).ok()?;
    cipher.encrypt(aes_gcm::Nonce::from_slice(nonce), Payload { msg, aad }).ok()
}

/// Calls `aes_gcm::Aes256Gcm::decrypt` with a `Payload`. Claims: the result
/// is the named decryption; a ciphertext shorter than the 16-byte tag never
/// decrypts, and a plaintext is 16 bytes shorter than its ciphertext.
#[verifier::external_body]
pub(crate) fn aes256gcm_decrypt(key: &[u8; 32], nonce: &[u8; 12], ct: &[u8], aad: &[u8]) -> (r: Option<Vec<u8>>)
    ensures
        r matches Some(p) ==> aes_gcm_open(key@, nonce@, ct@, aad@) == Some(p@),
        r is None ==> aes_gcm_open(key@, nonce@, ct@, aad@) is None,
        ct@.len() < 16 ==> r is None,
        r matches Some(p) ==> p@.len() + 16 == ct@.len(),
{
    let cipher = aes_gcm::Aes256Gcm::new_from_slice(key).ok()?;
    cipher.decrypt(aes_gcm::Nonce::from_slice(nonce), Payload { msg: ct, aad }).ok()
}

// ─── Key derivation ──────────────────────────────────────────────

/// HKDF-SHA256 with no salt, expanded to 32 bytes with the given info string.
pub uninterp spec fn hkdf_sha256(ikm: Seq<u8>, info: Seq<u8>) -> Seq<u8>;

/// Calls `hkdf::Hkdf::<Sha256>::new(None, ikm).expand(info, 32 bytes)`.
/// Claims: the result is the named output key (32 bytes never exceed the
/// 255 * 32-byte expansion limit, so expansion cannot fail).
#[verifier::external_body]
pub(crate) fn hkdf_sha256_expand(ikm: &[u8], info: &[u8]) -> (r: [u8; 32])
    ensures
        r@ == hkdf_sha256(ikm@, info@),
{
    let hk = hkdf::Hkdf::<sha2::Sha256>::new(None, ikm);
    let mut okm = [0u8; 32];
    let _ = hk.expand(info, &mut okm);
    okm
}

/// Argon2id with the crate's default parameters (m = 19456 KiB, t = 2,
/// p = 1, version 0x13), producing `out_len` bytes.
pub uninterp spec fn argon2id(password: Seq<u8>, salt: Seq<u8>, out_len: nat) -> Seq<u8>;

/// Calls `argon2::Argon2::default().hash_password_into`. Claims: it fails
/// exactly when the password or salt is longer than 0xFFFFFFFF bytes, the
/// salt is shorter than 8 bytes, or the output length is outside
/// 4..=0xFFFFFFFF (the crate's input checks); otherwise the result is the
/// named `out_len`-byte hash.
#[verifier::external_body]
pub(crate) fn argon2id_derive(password: &[u8], salt: &[u8], out_len: usize) -> (r: Option<Vec<u8>>)
    ensures
        r is None <==> (password@.len() > 0xFFFF_FFFF || salt@.len() < 8 || salt@.len()
            > 0xFFFF_FFFF || out_len < 4 || out_len > 0xFFFF_FFFF),
        r matches Some(k) ==> k@ == argon2id(password@, salt@, out_len as nat) && k@.len()
            == out_len,
{
    let mut out = vec![0u8; out_len];
    argon2::Argon2::default().hash_password_into(password, salt, &mut out).ok()?;
    Some(out)
}

// ─── ML-KEM-1024 ─────────────────────────────────────────────────

/// Length of an encoded ML-KEM-1024 decapsulation (private) key.
pub open spec fn mlkem_dk_len() -> nat {
    3168
}

/// Length of an encoded ML-KEM-1024 encapsulation (public) key and of a
/// ciphertext.
pub open spec fn mlkem_ek_len() -> nat {
    1568
}

/// Offset of the encapsulation key inside an encoded decapsulation key
/// (FIPS 203: dk = dk_pke || ek || H(ek) || z).
pub open spec fn mlkem_ek_offset() -> nat {
    1536
}

/// The shared secret that ML-KEM-1024 decapsulation derives from a
/// decapsulation key and a ciphertext (implicit rejection included).
pub uninterp spec fn mlkem1024_decapsulation(dk: Seq<u8>, ct: Seq<u8>) -> Seq<u8>;

/// `dk` and `ek` are the encodings of an ML-KEM-1024 key pair that the key
/// generation algorithm produces from some seeds.
pub uninterp spec fn mlkem1024_keypair(dk: Seq<u8>, ek: Seq<u8>) -> bool;

/// `ct` and `ss` are a ciphertext and shared secret that ML-KEM-1024
/// encapsulation to the encoded key `ek` produces from some message seed.
pub uninterp spec fn mlkem1024_encapsulates(ek: Seq<u8>, ct: Seq<u8>, ss: Seq<u8>) -> bool;

/// Calls `MlKem1024::generate` with the OS random generator and encodes both
/// keys with `as_bytes`. Claims what holds of every outcome: the pair is one
/// that key generation produces (from the seeds drawn), the key lengths,
/// and that the encoded decapsulation key holds the encapsulation key at
/// bytes 1536..3104 (the crate's `concat_dk(dk_pke, ek, h, z)` layout).
/// Which pair is drawn is left open: it rests on the random seeds.
#[verifier::external_body]
pub(crate) fn mlkem1024_generate() -> (r: (Vec<u8>, Vec<u8>))
    ensures
        mlkem1024_keypair(r.0@, r.1@),
        r.0@.len() == mlkem_dk_len(),
        r.1@.len() == mlkem_ek_len(),
        r.0@.subrange(mlkem_ek_offset() as int, (mlkem_ek_offset() + mlkem_ek_len()) as int) == r.1@,
{
    let (dk, ek) = ml_kem::MlKem1024::generate(&mut rand::rngs::OsRng);
    (dk.as_bytes().as_slice().to_vec(), ek.as_bytes().as_slice().to_vec())
}

/// Calls `EncapsulationKey::from_bytes` and `encapsulate` with the OS random
/// generator (encapsulation never fails in this crate version). Claims what
/// holds of every outcome: the 1568-byte ciphertext and 32-byte secret are
/// an encapsulation to `ek`. Which one is left open: it rests on the random
/// message seed.
#[verifier::external_body]
pub(crate) fn mlkem1024_encapsulate(ek: &[u8; 1568]) -> (r: ([u8; 1568], [u8; 32]))
    ensures
        mlkem1024_encapsulates(ek@, r.0@, r.1@),
{
    let arr: ml_kem::Encoded<<ml_kem::MlKem1024 as KemCore>::EncapsulationKey> = ek.as_slice().try_into().unwrap();
    let key = <ml_kem::MlKem1024 as KemCore>::EncapsulationKey::from_bytes(&arr);
    let (ct, ss) = key.encapsulate(&mut rand::rngs::OsRng).unwrap();
    (ct.as_slice().try_into().unwrap(), ss.as_slice().try_into().unwrap())
}

/// Calls `DecapsulationKey::from_bytes` and `decapsulate` (infallible in this
/// crate version). Claims: the result is the named shared secret.
#[verifier::external_body]
pub(crate) fn mlkem1024_decapsulate(dk: &[u8; 3168], ct: &[u8; 1568]) -> (r: [u8; 32])
    ensures
        r@ == mlkem1024_decapsulation(dk@, ct@),
{
    let arr: ml_kem::Encoded<<ml_kem::MlKem1024 as KemCore>::DecapsulationKey> = dk.as_slice().try_into().unwrap();
    let key = <ml_kem::MlKem1024 as KemCore>::DecapsulationKey::from_bytes(&arr);
    let c: ml_kem::Ciphertext<ml_kem::MlKem1024> = ct.as_slice().try_into().unwrap();
    let ss = key.decapsulate(&c).unwrap();
    ss.as_slice().try_into().unwrap()
}

// ─── Randomness ──────────────────────────────────────────────────

/// Calls `rand::rngs::OsRng::fill_bytes` on 16 bytes. Nothing is claimed of
/// the bytes.
#[verifier::external_body]
pub(crate) fn random_16() -> (r: [u8; 16])
{
    let mut b = [0u8; 16];
    rand::rngs::OsRng.fill_bytes(&mut b);
    b
}

/// Calls `rand::rngs::OsRng::fill_bytes` on 12 bytes (an AES-GCM nonce).
/// Nothing is claimed of the bytes.
#[verifier::external_body]
pub(crate) fn random_12() -> (r: [u8; 12])
{
    let mut b = [0u8; 12];
    rand::rngs::OsRng.fill_bytes(&mut b);
    b
}

// ─── PEM and Base64 ──────────────────────────────────────────────

/// The PEM text (CR LF line endings, 64-column Base64 body) of `contents`
/// under `tag`.
pub uninterp spec fn pem_text(tag: Seq<char>, contents: Seq<u8>) -> Seq<char>;

/// A character of the standard Base64 alphabet, padding included.
pub open spec fn is_base64_char(c: char) -> bool {
    ('A' <= c <= 'Z') || ('a' <= c <= 'z') || ('0' <= c <= '9') || c == '+' || c == '/' || c == '='
}

/// `t` is a text in the Base64 alphabet that decodes to `data`.
pub open spec fn base64_body(t: Seq<char>, data: Seq<u8>) -> bool {
    &&& forall|i: int| 0 <= i < t.len() ==> is_base64_char(#[trigger] t[i])
    &&& base64_decoded(t) == Some(data)
}

/// `s` cut into lines of 64 characters, the last one possibly shorter.
pub open spec fn lines_of_64(s: Seq<char>) -> Seq<Seq<char>>
    decreases s.len(),
{
    if s.len() == 0 {
        Seq::empty()
    } else if s.len() <= 64 {
        seq![s]
    } else {
        seq![s.take(64)] + lines_of_64(s.skip(64))
    }
}

/// The lines of a PEM block under `tag` carrying the Base64 text `b64`: the
/// BEGIN line, `b64` in lines of 64 characters, the END line.
pub open spec fn pem_layout(tag: Seq<char>, b64: Seq<char>) -> Seq<Seq<char>> {
    seq![dashes() + seq!['B', 'E', 'G', 'I', 'N', ' '] + tag + dashes()] + lines_of_64(b64)
        + seq![dashes() + seq!['E', 'N', 'D', ' '] + tag + dashes()]
}

/// The Base64 text a PEM text carries: its lines but the first and the
/// last, concatenated.
pub open spec fn pem_base64_of(text: Seq<char>) -> Seq<char> {
    spec_lines(text).drop_first().drop_last().flatten()
}

/// The contents of the first PEM block in a text, when it parses.
pub uninterp spec fn pem_contents(text: Seq<char>) -> Option<Seq<u8>>;

/// The bytes of standard (padded) Base64 text, when it decodes.
pub uninterp spec fn base64_decoded(text: Seq<char>) -> Option<Seq<u8>>;

/// "-----BEGIN", the opening of a PEM boundary line.
pub open spec fn pem_begin() -> Seq<char> {
    seq!['-', '-', '-', '-', '-', 'B', 'E', 'G', 'I', 'N']
}

/// A tag that the PEM parser reads back unchanged: nonempty, made of ASCII
/// capitals, digits, spaces and single hyphens, and not ending in a hyphen
/// (the parser ends the label at the first "-----").
pub open spec fn plain_pem_tag(tag: Seq<char>) -> bool {
    &&& tag.len() > 0
    &&& tag.last() != '-'
    &&& forall|i: int|
        0 <= i < tag.len() ==> ('A' <= #[trigger] tag[i] <= 'Z' || '0' <= tag[i] <= '9'
            || tag[i] == ' ' || tag[i] == '-')
    &&& forall|i: int| 0 <= i < tag.len() - 1 ==> !(#[trigger] tag[i] == '-' && tag[i + 1] == '-')
}

/// Calls `pem::encode(&Pem::new(tag, contents))`. Claims: the result is the
/// named PEM text; it starts with "-----BEGIN "; and, for a plain tag: the
/// crate's parser reads the trimmed text back to `contents` (its grammar
/// ignores surrounding whitespace); its lines are those of `encode_config`
/// with the defaults (BEGIN line, the `STANDARD` Base64 text of the contents
/// in 64-character lines, none for empty contents, END line, each ended by
/// CR LF); and that Base64 text is in the Base64 alphabet and decodes back
/// to the contents (the empty text to no bytes).
#[verifier::external_body]
pub(crate) fn pem_encode(tag: &str, contents: &[u8]) -> (r: String)
    ensures
        r@ == pem_text(tag@, contents@),
        r@.len() > 11 && r@.take(10) == pem_begin() && r@[10] == ' ',
        plain_pem_tag(tag@) ==> pem_contents(spec_trim(r@)) == Some(contents@),
        plain_pem_tag(tag@) ==> spec_lines(r@) == pem_layout(tag@, pem_base64_of(r@)),
        plain_pem_tag(tag@) ==> base64_body(pem_base64_of(r@), contents@),
{
    pem::encode(&pem::Pem::new(tag, contents))
}

/// Calls `pem::parse` and takes `contents()`. Claims: the result is the
/// named contents.
#[verifier::external_body]
pub(crate) fn pem_parse(text: &str) -> (r: Option<Vec<u8>>)
    ensures
        r matches Some(c) ==> pem_contents(text@) == Some(c@),
        r is None ==> pem_contents(text@) is None,
{
    pem::parse(text).ok().map(|p| p.contents().to_vec())
}

/// Calls `base64::engine::general_purpose::STANDARD.decode`. Claims: the
/// result is the named decoding.
#[verifier::external_body]
pub(crate) fn base64_decode(text: &str) -> (r: Option<Vec<u8>>)
    ensures
        r matches Some(c) ==> base64_decoded(text@) == Some(c@),
        r is None ==> base64_decoded(text@) is None,
{
    base64::engine::general_purpose::STANDARD.decode(text).ok()
}

// ─── secp256k1 ───────────────────────────────────────────────────

/// Order of the secp256k1 group.
pub open spec fn secp256k1_order() -> nat {
    0xFFFFFFFFFFFFFFFFFFFFFFFFFFFFFFFEBAAEDCE6AF48A03BBFD25E8CD0364141nat
}

/// A 32-byte string that is a valid secp256k1 secret key: its big-endian
/// value is nonzero and below the group order.
pub open spec fn valid_secret_scalar(b: Seq<u8>) -> bool {
    b.len() == 32 && 0 < spec_be_nat(b) < secp256k1_order()
}

/// A string that `SecretKey::from_str` accepts: exactly 64 ASCII hex digits
/// spelling a valid secret scalar.
pub open spec fn valid_secret_hex(s: Seq<char>) -> bool {
    &&& s.len() == 64
    &&& forall|i: int| 0 <= i < 64 ==> is_hex_digit(#[trigger] s[i])
    &&& valid_secret_scalar(spec_hex_decode(s))
}

/// The 65-byte uncompressed SEC1 encoding of the public key of a secret key.
pub uninterp spec fn secp256k1_public_key(sk: Seq<u8>) -> Seq<u8>;

/// The recoverable ECDSA signature (64-byte compact form, recovery id) of a
/// 32-byte digest under a secret key, with the RFC 6979 deterministic nonce.
pub uninterp spec fn secp256k1_recoverable_signature(digest: Seq<u8>, sk: Seq<u8>) -> (Seq<u8>, u8);

/// Calls `secp256k1::SecretKey::from_str` and takes `to_secret_bytes()`.
/// Claims: it succeeds exactly on 64 ASCII hex digits spelling a valid scalar
/// (the crate's `from_hex` needs 32 full bytes, then `from_secret_bytes`
/// checks the range), and the key bytes are the decoded digits.
#[verifier::external_body]
pub(crate) fn secret_key_from_hex(s: &str) -> (r: Option<[u8; 32]>)
    ensures
        r is Some <==> valid_secret_hex(s@),
        r matches Some(k) ==> k@ == spec_hex_decode(s@),
{
    secp256k1::SecretKey::from_str(s).ok().map(|k| k.to_secret_bytes())
}

/// Calls `secp256k1::SecretKey::new` with the thread random generator (it
/// draws until the 32 bytes form a valid key). Claims what holds of every
/// outcome: the bytes are a valid secret scalar.
#[verifier::external_body]
pub(crate) fn random_secret_key() -> (r: [u8; 32])
    ensures
        valid_secret_scalar(r@),
{
    secp256k1::SecretKey::new(&mut secp256k1::rand::rng()).to_secret_bytes()
}

/// Calls `secp256k1::SecretKey::from_secret_bytes`. Claims: it accepts
/// exactly the valid scalars (libsecp256k1's `ec_seckey_verify`).
#[verifier::external_body]
pub(crate) fn secret_key_is_valid(b: &[u8; 32]) -> (r: bool)
    ensures
        r == valid_secret_scalar(b@),
{
    secp256k1::SecretKey::from_secret_bytes(*b).is_ok()
}

/// Calls `SecretKey::public_key` and `PublicKey::serialize_uncompressed`.
/// Claims: the result is the named public key encoding.
#[verifier::external_body]
pub(crate) fn secp256k1_public_key_of(sk: &[u8; 32]) -> (r: [u8; 65])
    requires
        valid_secret_scalar(sk@),
    ensures
        r@ == secp256k1_public_key(sk@),
{
    secp256k1::SecretKey::from_secret_bytes(*sk).unwrap().public_key().serialize_uncompressed()
}

/// Calls `RecoverableSignature::sign_ecdsa_recoverable(Message::from_digest(digest), sk)`
/// and `serialize_compact`. Claims: the result is the named signature; the
/// recovery id is one of 0..=3.
#[verifier::external_body]
pub(crate) fn secp256k1_sign_recoverable(digest: &[u8; 32], sk: &[u8; 32]) -> (r: ([u8; 64], u8))
    requires
        valid_secret_scalar(sk@),
    ensures
        (r.0@, r.1) == secp256k1_recoverable_signature(digest@, sk@),
        r.1 < 4,
{
    let key = secp256k1::SecretKey::from_secret_bytes(*sk).unwrap();
    let sig = secp256k1::ecdsa::RecoverableSignature::sign_ecdsa_recoverable(
        secp256k1::Message::from_digest(*digest),
        &key,
    );
    let (rec, bytes) = sig.serialize_compact();
    (bytes, u8::from(rec))
}

// ─── Images ──────────────────────────────────────────────────────

/// The RGBA8 form (width, height, row-major pixel bytes) of an encoded image
/// when the image crate decodes it, or the text of its decoding error.
pub uninterp spec fn decoded_rgba(data: Seq<u8>) -> Result<(u32, u32, Seq<u8>), Seq<char>>;

/// The view of a decoding result.
pub open spec fn rgba_result_view(r: Result<(u32, u32, Vec<u8>), String>) -> Result<(u32, u32, Seq<u8>), Seq<char>> {
    match r {
        Ok(t) => Ok((t.0, t.1, t.2@)),
        Err(e) => Err(e@),
    }
}

/// Calls `image::load_from_memory` and `DynamicImage::to_rgba8` (the error is
/// converted with `to_string`). Claims: the result is the named decoding, and
/// its buffer holds four bytes per pixel (the `ImageBuffer` invariant).
#[verifier::external_body]
pub(crate) fn decode_image_rgba(data: &[u8]) -> (r: Result<(u32, u32, Vec<u8>), String>)
    ensures
        decoded_rgba(data@) == rgba_result_view(r),
        r matches Ok(t) ==> t.2@.len() == t.0 * t.1 * 4,
{
    let img = image::load_from_memory(data).map_err(|e| e.to_string())?.to_rgba8();
    let (w, h) = img.dimensions();
    Ok((w, h, img.into_raw()))
}

// ─── Text ────────────────────────────────────────────────────────

/// The Unicode lowercase mapping of a text (`str::to_lowercase`).
pub uninterp spec fn str_lowercase(s: Seq<char>) -> Seq<char>;

/// Calls std's `str::to_lowercase`. Claims: the result is the named mapping.
#[verifier::external_body]
pub(crate) fn to_lowercase(s: &str) -> (r: String)
    ensures
        r@ == str_lowercase(s@),
{
    s.to_lowercase()
}

// ─── JSON ────────────────────────────────────────────────────────

/// Parsing a JSON text: `None` when it is not JSON; `Some(v)` where `v` is
/// the string value of the given top-level object key, if there is one.
pub uninterp spec fn json_top_string_field(text: Seq<char>, key: Seq<char>) -> Option<Option<Seq<char>>>;

/// Parsing a JSON text: `None` when it is not JSON; `Some(None)` when it is
/// not an array; `Some(Some(items))` with, per array item, its string value
/// or `None` when the item is not a string.
pub uninterp spec fn json_string_items(text: Seq<char>) -> Option<Option<Seq<Option<Seq<char>>>>>;

/// Calls `serde_json::from_str::<Value>`, then `get(key)` and `as_str`.
/// Claims: the result is the named reading.
#[verifier::external_body]
pub(crate) fn json_string_field(text: &str, key: &str) -> (r: Option<Option<String>>)
    ensures
        json_top_string_field(text@, key@) == match r {
            None => None,
            Some(None) => Some(None),
            Some(Some(s)) => Some(Some(s@)),
        },
{
    let v: serde_json::Value = serde_json::from_str(text).ok()?;
    Some(v.get(key).and_then(|h| h.as_str()).map(|s| s.to_string()))
}

/// Views of optional strings.
pub open spec fn opt_string_views(items: Seq<Option<String>>) -> Seq<Option<Seq<char>>> {
    items.map_values(|o: Option<String>| match o {
        Some(s) => Some(s@),
        None => None,
    })
}

/// Calls `serde_json::from_str::<Value>`, then `as_array` and `as_str` on
/// each item. Claims: the result is the named reading.
#[verifier::external_body]
pub(crate) fn json_string_array(text: &str) -> (r: Option<Option<Vec<Option<String>>>>)
    ensures
        json_string_items(text@) == match r {
            None => None,
            Some(None) => Some(None),
            Some(Some(items)) => Some(Some(opt_string_views(items@))),
        },
{
    let v: serde_json::Value = serde_json::from_str(text).ok()?;
    Some(v.as_array().map(|a| a.iter().map(|i| i.as_str().map(|s| s.to_string())).collect()))
}

} // verus!
