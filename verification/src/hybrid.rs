//! The hybrid ML-KEM-1024 / AES-256-GCM archive format.
//!
//! An archive is the 1568-byte KEM ciphertext, the 12-byte base nonce, then a
//! sequence of frames: a 4-byte big-endian length followed by an AES-256-GCM
//! ciphertext. Data chunk `i` is sealed under the base nonce with `i` XORed
//! into its last eight bytes; after the data comes an empty chunk (the EOF
//! marker) and an integrity manifest (magic, chunk count, byte count, BLAKE3
//! of the plaintext). Every frame authenticates the header as associated data.

use vstd::prelude::*;
use vstd::string::StringExecFns;
use crate::encoding::{spec_u64_be, spec_u64_from_be, spec_u32_be, spec_u32_from_be, u32_from_be, u64_to_be, u64_from_be, u32_to_be, lemma_u64_be_roundtrip, lemma_u32_be_roundtrip,
    spec_decimal_chars, decimal_chars, string_from_chars};
use crate::text::{push_str_chars, push_chars};
use crate::keys::{parse_key_blob, spec_parse_key_blob, unlock_private_key, spec_unlock, key_entropy, spec_key_entropy,
    generated_key_files, key_files_of, spec_wrapped_key, private_key_tag, public_key_tag, lemma_unlock_wrapped};
use crate::armour::lemma_key_file_reads_back;
use crate::chunker::{chunks_of, lemma_chunks_of_cover};
use crate::primitives::{
    hkdf_sha256, hkdf_sha256_expand, mlkem1024_encapsulate, mlkem1024_encapsulates, mlkem1024_keypair, mlkem1024_decapsulate, mlkem1024_decapsulation, random_12,
    aes_gcm_seal, aes_gcm_open, aes256gcm_encrypt, aes256gcm_decrypt, blake3_digest,
    blake3_absorbed, blake3_new, blake3_update, blake3_finalize, pem_text,
};

verus! {

/// Plaintext bytes per data chunk (1 MiB); only the last chunk may be shorter.
pub const CHUNK_SIZE: usize = 1048576;

/// Size of the ML-KEM-1024 ciphertext at the head of an archive.
pub const KEM_CT_SIZE: usize = 1568;

/// Size of an AES-GCM nonce.
pub const NONCE_SIZE: usize = 12;

/// Size of the archive header (KEM ciphertext and base nonce).
pub const HEADER_SIZE: usize = 1580;

/// Size of an AES-GCM authentication tag.
pub const TAG_SIZE: usize = 16;

/// Longest ciphertext a frame of the format carries: a full chunk and its
/// tag.
pub const MAX_FRAME_LEN: usize = 1048592;

/// Size of an encoded integrity manifest.
pub const MANIFEST_SIZE: usize = 56;

/// How the private-key wrapping key is derived: from the passphrase, from the
/// hardware token's HMAC response, or from both concatenated.
#[derive(Debug, Clone, Copy, PartialEq, Eq, Default)]
pub enum AuthMode {
    #[default]
    Passphrase,
    HardwareOnly,
    HardwareAndPassphrase,
}

// ─── Chunk nonces ────────────────────────────────────────────────

/// The nonce of chunk `idx`: the base nonce with the big-endian index XORed
/// into its last eight bytes.
pub open spec fn spec_chunk_nonce(base: Seq<u8>, idx: u64) -> Seq<u8> {
    Seq::new(
        12,
        |i: int|
            if i < 4 {
                base[i]
            } else {
                base[i] ^ spec_u64_be(idx)[i - 4]
            },
    )
}

/// The nonce of chunk `chunk_idx` under `base_nonce`.
pub fn derive_chunk_nonce(base_nonce: &[u8; 12], chunk_idx: u64) -> (r: [u8; 12])
    ensures
        r@ == spec_chunk_nonce(base_nonce@, chunk_idx),
{
    let mut nonce = *base_nonce;
    let idx_bytes = u64_to_be(chunk_idx);
    let mut i: usize = 0;
    while i < 8
        invariant
            i <= 8,
            idx_bytes@ == spec_u64_be(chunk_idx),
            nonce@.len() == 12,
            forall|t: int| 0 <= t < 12 ==> #[trigger] nonce@[t] == if 4 <= t < 4 + i {
                base_nonce@[t] ^ idx_bytes@[t - 4]
            } else {
                base_nonce@[t]
            },
        decreases 8 - i,
    {
        nonce[4 + i] = nonce[4 + i] ^ idx_bytes[i];
        i = i + 1;
    }
    assert(nonce@ =~= spec_chunk_nonce(base_nonce@, chunk_idx));
    nonce
}

proof fn lemma_xor_cancel(a: u8, x: u8, y: u8)
    requires
        a ^ x == a ^ y,
    ensures
        x == y,
{
    assert(a ^ x == a ^ y ==> x == y) by (bit_vector);
}

/// Distinct chunk indices get distinct nonces under the same base nonce, so
/// no two chunks of an archive are sealed under one nonce.
pub proof fn lemma_chunk_nonces_distinct(base: Seq<u8>, i: u64, j: u64)
    requires
        base.len() == 12,
        i != j,
    ensures
        spec_chunk_nonce(base, i) != spec_chunk_nonce(base, j),
{
    if spec_chunk_nonce(base, i) == spec_chunk_nonce(base, j) {
        assert forall|t: int| 0 <= t < 8 implies spec_u64_be(i)[t] == spec_u64_be(j)[t] by {
            assert(spec_chunk_nonce(base, i)[t + 4] == spec_chunk_nonce(base, j)[t + 4]);
            lemma_xor_cancel(base[t + 4], spec_u64_be(i)[t], spec_u64_be(j)[t]);
        }
        assert(spec_u64_be(i) =~= spec_u64_be(j));
        lemma_u64_be_roundtrip(i);
        lemma_u64_be_roundtrip(j);
    }
}


proof fn lemma_byte_xor(i: u64, j: u64, k: u64, a: u8)
    requires
        k < 64,
    ensures
        ((i ^ j) >> k) as u8 == ((i >> k) as u8) ^ ((j >> k) as u8),
        (a ^ ((i >> k) as u8)) ^ ((j >> k) as u8) == a ^ (((i >> k) as u8) ^ ((j >> k) as u8)),
        a ^ ((0u64 >> k) as u8) == a,
{
    assert(((i ^ j) >> k) as u8 == ((i >> k) as u8) ^ ((j >> k) as u8)
        && (a ^ ((i >> k) as u8)) ^ ((j >> k) as u8) == a ^ (((i >> k) as u8) ^ ((j >> k) as u8))
        && a ^ ((0u64 >> k) as u8) == a) by (bit_vector)
        requires k < 64;
}

proof fn lemma_be_byte_xor(i: u64, j: u64, t: int, a: u8)
    requires
        0 <= t < 8,
    ensures
        spec_u64_be(i ^ j)[t] == spec_u64_be(i)[t] ^ spec_u64_be(j)[t],
        (a ^ spec_u64_be(i)[t]) ^ spec_u64_be(j)[t] == a ^ (spec_u64_be(i)[t] ^ spec_u64_be(j)[t]),
        a ^ spec_u64_be(0)[t] == a,
{
    let k: u64 = (56 - 8 * t) as u64;
    lemma_byte_xor(i, j, k, a);
    let ij = i ^ j;
    if t == 7 {
        assert(i >> 0u64 == i && j >> 0u64 == j && ij >> 0u64 == ij && 0u64 >> 0u64 == 0u64) by (bit_vector);
    }
    assert(spec_u64_be(ij)[t] == (ij >> k) as u8);
    assert(spec_u64_be(i)[t] == (i >> k) as u8);
    assert(spec_u64_be(j)[t] == (j >> k) as u8);
    assert(spec_u64_be(0)[t] == (0u64 >> k) as u8);
}

/// Chunk nonces compose by XOR of their indices: the nonce of index 0 is the
/// base nonce, and deriving index `j` from the nonce of index `i` gives the
/// nonce of index `i ^ j`.
pub proof fn lemma_chunk_nonce_xor(base: Seq<u8>, i: u64, j: u64)
    requires
        base.len() == 12,
    ensures
        spec_chunk_nonce(base, 0) == base,
        spec_chunk_nonce(spec_chunk_nonce(base, i), j) == spec_chunk_nonce(base, i ^ j),
{
    assert forall|t: int| 4 <= t < 12 implies #[trigger] spec_chunk_nonce(base, 0)[t] == base[t] by {
        lemma_be_byte_xor(i, j, t - 4, base[t]);
    }
    assert(spec_chunk_nonce(base, 0) =~= base);
    assert forall|t: int| 4 <= t < 12 implies #[trigger] spec_chunk_nonce(spec_chunk_nonce(base, i), j)[t]
        == spec_chunk_nonce(base, i ^ j)[t] by {
        lemma_be_byte_xor(i, j, t - 4, base[t]);
    }
    assert(spec_chunk_nonce(spec_chunk_nonce(base, i), j) =~= spec_chunk_nonce(base, i ^ j));
}

// ─── Integrity manifest ──────────────────────────────────────────

/// "QCRYPTOK", the magic that opens an integrity manifest.
pub const MANIFEST_MAGIC: [u8; 8] = [0x51u8, 0x43u8, 0x52u8, 0x59u8, 0x50u8, 0x54u8, 0x4Fu8, 0x4Bu8];

/// The manifest of an archive with `chunks` data chunks holding `bytes`
/// plaintext bytes whose BLAKE3 digest is `hash`.
pub open spec fn spec_manifest(chunks: u64, bytes: u64, hash: Seq<u8>) -> Seq<u8> {
    MANIFEST_MAGIC@ + spec_u64_be(chunks) + spec_u64_be(bytes) + hash
}

/// Why a manifest was rejected.
#[derive(Debug, Clone, Copy, PartialEq, Eq)]
pub enum ManifestError {
    /// Shorter than the counts (48 bytes).
    TooSmall,
    /// Long enough for the counts but not for the whole digest (48 to 55
    /// bytes): the digest cannot be read at all.
    DigestCut { len: u64 },
    BadMagic,
    ChunkCountMismatch { expected: u64, got: u64 },
    ByteCountMismatch { expected: u64, got: u64 },
    HashMismatch,
}

/// The verdict on manifest `m` for an archive that had `chunks` data chunks
/// and `bytes` plaintext bytes with BLAKE3 digest `hash`.
pub open spec fn spec_check_manifest(m: Seq<u8>, chunks: u64, bytes: u64, hash: Seq<u8>) -> Result<(), ManifestError> {
    if m.len() < 48 {
        Err(ManifestError::TooSmall)
    } else if m.len() < 56 {
        Err(ManifestError::DigestCut { len: m.len() as u64 })
    } else if m.subrange(0, 8) != MANIFEST_MAGIC@ {
        Err(ManifestError::BadMagic)
    } else if spec_u64_from_be(m.subrange(8, 16)) != chunks {
        Err(ManifestError::ChunkCountMismatch { expected: chunks, got: spec_u64_from_be(m.subrange(8, 16)) })
    } else if spec_u64_from_be(m.subrange(16, 24)) != bytes {
        Err(ManifestError::ByteCountMismatch { expected: bytes, got: spec_u64_from_be(m.subrange(16, 24)) })
    } else if m.subrange(24, 56) != hash {
        Err(ManifestError::HashMismatch)
    } else {
        Ok(())
    }
}

/// Encodes the manifest of an archive.
pub fn build_manifest(chunks: u64, bytes: u64, hash: &[u8; 32]) -> (r: Vec<u8>)
    ensures
        r@ == spec_manifest(chunks, bytes, hash@),
{
    let mut m: Vec<u8> = Vec::with_capacity(MANIFEST_SIZE);
    let magic = MANIFEST_MAGIC;
    m.extend_from_slice(&magic);
    m.extend_from_slice(&u64_to_be(chunks));
    m.extend_from_slice(&u64_to_be(bytes));
    m.extend_from_slice(hash);
    m
}

/// Checks a decrypted manifest against what decryption counted and hashed.
pub fn verify_manifest(m: &[u8], chunks: u64, bytes: u64, hash: &[u8; 32]) -> (r: Result<(), ManifestError>)
    ensures
        r == spec_check_manifest(m@, chunks, bytes, hash@),
{
    if m.len() < 48 {
        return Err(ManifestError::TooSmall);
    }
    if m.len() < 56 {
        return Err(ManifestError::DigestCut { len: m.len() as u64 });
    }
    let mut i: usize = 0;
    while i < 8
        invariant
            i <= 8,
            m@.len() >= 56,
            forall|t: int| 0 <= t < i ==> m@[t] == MANIFEST_MAGIC@[t],
        decreases 8 - i,
    {
        if m[i] != MANIFEST_MAGIC[i] {
            assert(m@.subrange(0, 8)[i as int] != MANIFEST_MAGIC@[i as int]);
            return Err(ManifestError::BadMagic);
        }
        i = i + 1;
    }
    assert(m@.subrange(0, 8) =~= MANIFEST_MAGIC@);
    let got_chunks = u64_from_be(m, 8);
    if got_chunks != chunks {
        return Err(ManifestError::ChunkCountMismatch { expected: chunks, got: got_chunks });
    }
    let got_bytes = u64_from_be(m, 16);
    if got_bytes != bytes {
        return Err(ManifestError::ByteCountMismatch { expected: bytes, got: got_bytes });
    }
    let mut j: usize = 0;
    while j < 32
        invariant
            j <= 32,
            m@.len() >= 56,
            m@.subrange(0, 8) == MANIFEST_MAGIC@,
            spec_u64_from_be(m@.subrange(8, 16)) == chunks,
            spec_u64_from_be(m@.subrange(16, 24)) == bytes,
            forall|t: int| 0 <= t < j ==> m@[24 + t] == hash@[t],
        decreases 32 - j,
    {
        if m[24 + j] != hash[j] {
            assert(m@.subrange(24, 56)[j as int] != hash@[j as int]);
            return Err(ManifestError::HashMismatch);
        }
        j = j + 1;
    }
    assert(m@.subrange(24, 56) =~= hash@);
    Ok(())
}

/// A manifest built for given counts and digest passes the check for the
/// same counts and digest.
pub proof fn lemma_manifest_roundtrip(chunks: u64, bytes: u64, hash: Seq<u8>)
    requires
        hash.len() == 32,
    ensures
        spec_check_manifest(spec_manifest(chunks, bytes, hash), chunks, bytes, hash) == Ok::<(), ManifestError>(()),
{
    let m = spec_manifest(chunks, bytes, hash);
    assert(m.subrange(0, 8) =~= MANIFEST_MAGIC@);
    assert(m.subrange(8, 16) =~= spec_u64_be(chunks));
    assert(m.subrange(16, 24) =~= spec_u64_be(bytes));
    assert(m.subrange(24, 56) =~= hash);
    lemma_u64_be_roundtrip(chunks);
    lemma_u64_be_roundtrip(bytes);
}

// ─── Stream sealing ──────────────────────────────────────────────

/// The symmetric state shared by all frames of one archive.
pub struct StreamKey {
    /// AES-256 key (HKDF-SHA256 of the KEM shared secret).
    pub aes_key: [u8; 32],
    /// Base nonce from the archive header.
    pub base_nonce: [u8; 12],
    /// Associated data: the archive header (KEM ciphertext, base nonce).
    pub aad: Vec<u8>,
}

impl StreamKey {
    /// The associated data is one archive header.
    pub open spec fn wf(&self) -> bool {
        self.aad@.len() == HEADER_SIZE
    }
}

/// Ciphertext (with tag) of chunk `idx` holding `pt`.
pub open spec fn spec_seal(k: StreamKey, idx: u64, pt: Seq<u8>) -> Seq<u8> {
    aes_gcm_seal(k.aes_key@, spec_chunk_nonce(k.base_nonce@, idx), pt, k.aad@)
}

/// Decryption of a ciphertext read as chunk `idx`.
pub open spec fn spec_open(k: StreamKey, idx: u64, ct: Seq<u8>) -> Option<Seq<u8>> {
    aes_gcm_open(k.aes_key@, spec_chunk_nonce(k.base_nonce@, idx), ct, k.aad@)
}

/// A frame on the wire: the 4-byte big-endian length, then the ciphertext.
pub open spec fn spec_frame(ct: Seq<u8>) -> Seq<u8> {
    spec_u32_be(ct.len() as u32) + ct
}

/// Encryption side of an archive: counts chunks and bytes and hashes the
/// plaintext for the manifest.
pub struct StreamSealer {
    pub key: StreamKey,
    pub chunk_idx: u64,
    pub total_bytes: u64,
    pub hasher: blake3::Hasher,
}

impl StreamSealer {
    /// Plaintext hashed so far.
    pub open spec fn absorbed(&self) -> Seq<u8> {
        blake3_absorbed(self.hasher)
    }

    /// A sealer for an archive whose header key material is `key`.
    pub fn new(key: StreamKey) -> (r: StreamSealer)
        ensures
            r.key == key,
            r.chunk_idx == 0,
            r.total_bytes == 0,
            r.absorbed() == Seq::<u8>::empty(),
    {
        StreamSealer { key, chunk_idx: 0, total_bytes: 0, hasher: blake3_new() }
    }

    /// Seals the next data chunk and returns its frame.
    pub fn seal_chunk(&mut self, pt: &[u8]) -> (frame: Vec<u8>)
        requires
            old(self).key.wf(),
            0 < pt@.len() <= CHUNK_SIZE,
            old(self).chunk_idx + 3 <= u64::MAX,
            old(self).total_bytes + pt@.len() <= u64::MAX,
        ensures
            frame@ == spec_frame(spec_seal(old(self).key, old(self).chunk_idx, pt@)),
            final(self).key == old(self).key,
            final(self).chunk_idx == old(self).chunk_idx + 1,
            final(self).total_bytes == old(self).total_bytes + pt@.len(),
            final(self).absorbed() == old(self).absorbed() + pt@,
            seal_opens(old(self).key, old(self).chunk_idx, pt@),
            spec_seal(old(self).key, old(self).chunk_idx, pt@).len() == pt@.len() + TAG_SIZE,
    {
        blake3_update(&mut self.hasher, pt);
        self.total_bytes = self.total_bytes + pt.len() as u64;
        let nonce = derive_chunk_nonce(&self.key.base_nonce, self.chunk_idx);
        let frame = seal_frame(&self.key.aes_key, &nonce, pt, self.key.aad.as_slice());
        self.chunk_idx = self.chunk_idx + 1;
        frame
    }

    /// The two closing frames: the EOF marker (an empty chunk) and the
    /// manifest of everything sealed so far.
    pub fn finish(&self) -> (frames: Vec<u8>)
        requires
            self.key.wf(),
            self.chunk_idx + 2 <= u64::MAX,
        ensures
            frames@ == spec_frame(spec_seal(self.key, self.chunk_idx, Seq::<u8>::empty()))
                + spec_frame(spec_seal(self.key, (self.chunk_idx + 1) as u64, spec_manifest(
                self.chunk_idx,
                self.total_bytes,
                blake3_digest(self.absorbed()),
            ))),
            seal_opens(self.key, self.chunk_idx, Seq::<u8>::empty()),
            seal_opens(self.key, (self.chunk_idx + 1) as u64, spec_manifest(
                self.chunk_idx,
                self.total_bytes,
                blake3_digest(self.absorbed()),
            )),
            blake3_digest(self.absorbed()).len() == 32,
            spec_seal(self.key, self.chunk_idx, Seq::<u8>::empty()).len() == TAG_SIZE,
            spec_seal(self.key, (self.chunk_idx + 1) as u64, spec_manifest(
                self.chunk_idx,
                self.total_bytes,
                blake3_digest(self.absorbed()),
            )).len() == MANIFEST_SIZE + TAG_SIZE,
    {
        let eof_nonce = derive_chunk_nonce(&self.key.base_nonce, self.chunk_idx);
        let empty: Vec<u8> = Vec::new();
        let mut out = seal_frame(&self.key.aes_key, &eof_nonce, empty.as_slice(), self.key.aad.as_slice());
        let hash = blake3_finalize(&self.hasher);
        let manifest = build_manifest(self.chunk_idx, self.total_bytes, &hash);
        let manifest_nonce = derive_chunk_nonce(&self.key.base_nonce, self.chunk_idx + 1);
        let tail = seal_frame(&self.key.aes_key, &manifest_nonce, manifest.as_slice(), self.key.aad.as_slice());
        out.extend_from_slice(tail.as_slice());
        out
    }
}

/// Seals `pt` and frames the ciphertext.
fn seal_frame(key: &[u8; 32], nonce: &[u8; 12], pt: &[u8], aad: &[u8]) -> (frame: Vec<u8>)
    requires
        pt@.len() <= CHUNK_SIZE,
        aad@.len() == HEADER_SIZE,
    ensures
        frame@ == spec_frame(aes_gcm_seal(key@, nonce@, pt@, aad@)),
        aes_gcm_open(key@, nonce@, aes_gcm_seal(key@, nonce@, pt@, aad@), aad@) == Some(pt@),
        aes_gcm_seal(key@, nonce@, pt@, aad@).len() == pt@.len() + TAG_SIZE,
{
    match aes256gcm_encrypt(key, nonce, pt, aad) {
        Some(ct) => {
            let len_bytes = u32_to_be(ct.len() as u32);
            let mut frame: Vec<u8> = Vec::with_capacity(4 + ct.len());
            frame.extend_from_slice(&len_bytes);
            frame.extend_from_slice(ct.as_slice());
            frame
        },
        None => {
            assert(false);
            Vec::new()
        },
    }
}


// ─── Stream opening ──────────────────────────────────────────────

/// What to do with the frame whose length field was just read.
#[derive(Debug, Clone, Copy, PartialEq, Eq)]
pub enum FrameLength {
    /// Read the ciphertext of this many bytes and open it.
    Read(usize),
    /// Pass over this many bytes: longer than any frame of the format.
    Oversized(u32),
    /// The manifest was read: stop reading.
    Stop,
}

/// What one frame of an archive turned out to be.
#[derive(Debug, PartialEq, Eq)]
pub enum OpenedFrame {
    /// A data chunk's plaintext, to be written out.
    Data(Vec<u8>),
    /// The empty chunk that ends the data.
    EofMarker,
    /// The manifest, which matched what was decrypted.
    Complete,
    /// A frame after the manifest; it is not read.
    Ignored,
}

/// Why decryption of an archive stopped.
#[derive(Debug, Clone, Copy, PartialEq, Eq)]
pub enum DecryptError {
    /// A frame did not authenticate; `offset` is where its ciphertext starts.
    AuthFailed { offset: u64 },
    /// The manifest did not match.
    Manifest(ManifestError),
    /// The archive ended before its manifest.
    Truncated,
}

/// The message shown for a decryption error.
pub open spec fn decrypt_error_message(e: DecryptError) -> Seq<char> {
    match e {
        DecryptError::AuthFailed { offset } => "AES authentication FAILED at offset "@ + spec_decimal_chars(
            offset as nat,
        ),
        DecryptError::Manifest(ManifestError::TooSmall) => "Manifest chunk too small"@,
        DecryptError::Manifest(ManifestError::DigestCut { len }) => "Manifest digest cut short: "@
            + spec_decimal_chars(len as nat) + " bytes"@,
        DecryptError::Manifest(ManifestError::BadMagic) => "Invalid manifest magic bytes"@,
        DecryptError::Manifest(ManifestError::ChunkCountMismatch { expected, got }) => "Chunk count mismatch: expected "@
            + spec_decimal_chars(expected as nat) + ", got "@ + spec_decimal_chars(got as nat),
        DecryptError::Manifest(ManifestError::ByteCountMismatch { expected, got }) => "Byte count mismatch: expected "@
            + spec_decimal_chars(expected as nat) + ", got "@ + spec_decimal_chars(got as nat),
        DecryptError::Manifest(ManifestError::HashMismatch) => "BLAKE3 MISMATCH: The file data has been corrupted or tampered with!"@,
        DecryptError::Truncated => "Archive truncated without EOF marker"@,
    }
}

fn mismatch_message(what: &str, expected: u64, got: u64) -> (r: String)
    ensures
        r@ == what@ + " mismatch: expected "@ + spec_decimal_chars(expected as nat) + ", got "@
            + spec_decimal_chars(got as nat),
{
    let mut out: Vec<char> = Vec::new();
    push_str_chars(&mut out, what);
    push_str_chars(&mut out, " mismatch: expected ");
    let e = decimal_chars(expected);
    push_chars(&mut out, e.as_slice());
    push_str_chars(&mut out, ", got ");
    let g = decimal_chars(got);
    push_chars(&mut out, g.as_slice());
    string_from_chars(out.as_slice())
}

impl DecryptError {
    /// The message shown for this error.
    pub fn message(&self) -> (r: String)
        ensures
            r@ == decrypt_error_message(*self),
    {
        match self {
            DecryptError::AuthFailed { offset } => {
                let mut out: Vec<char> = Vec::new();
                push_str_chars(&mut out, "AES authentication FAILED at offset ");
                let d = decimal_chars(*offset);
                push_chars(&mut out, d.as_slice());
                string_from_chars(out.as_slice())
            },
            DecryptError::Manifest(ManifestError::TooSmall) => String::from_str("Manifest chunk too small"),
            DecryptError::Manifest(ManifestError::DigestCut { len }) => {
                let mut out: Vec<char> = Vec::new();
                push_str_chars(&mut out, "Manifest digest cut short: ");
                let d = decimal_chars(*len);
                push_chars(&mut out, d.as_slice());
                push_str_chars(&mut out, " bytes");
                string_from_chars(out.as_slice())
            },
            DecryptError::Manifest(ManifestError::BadMagic) => String::from_str("Invalid manifest magic bytes"),
            DecryptError::Manifest(ManifestError::ChunkCountMismatch { expected, got }) => {
                let r = mismatch_message("Chunk count", *expected, *got);
                proof {
                    reveal_strlit("Chunk count");
                    reveal_strlit(" mismatch: expected ");
                    reveal_strlit("Chunk count mismatch: expected ");
                    assert("Chunk count"@ + " mismatch: expected "@ =~= "Chunk count mismatch: expected "@);
                }
                r
            },
            DecryptError::Manifest(ManifestError::ByteCountMismatch { expected, got }) => {
                let r = mismatch_message("Byte count", *expected, *got);
                proof {
                    reveal_strlit("Byte count");
                    reveal_strlit(" mismatch: expected ");
                    reveal_strlit("Byte count mismatch: expected ");
                    assert("Byte count"@ + " mismatch: expected "@ =~= "Byte count mismatch: expected "@);
                }
                r
            },
            DecryptError::Manifest(ManifestError::HashMismatch) => String::from_str(
                "BLAKE3 MISMATCH: The file data has been corrupted or tampered with!",
            ),
            DecryptError::Truncated => String::from_str("Archive truncated without EOF marker"),
        }
    }
}

/// The abstract state of decryption.
pub struct OpenState {
    pub idx: u64,
    pub eof: Option<u64>,
    pub total: u64,
    pub offset: u64,
    pub done: bool,
    pub absorbed: Seq<u8>,
}

/// A frame outcome, with data as a sequence.
pub enum FrameOutcome {
    Data(Seq<u8>),
    EofMarker,
    Complete,
    Ignored,
}

/// The view of an opened frame.
pub open spec fn frame_view(f: OpenedFrame) -> FrameOutcome {
    match f {
        OpenedFrame::Data(v) => FrameOutcome::Data(v@),
        OpenedFrame::EofMarker => FrameOutcome::EofMarker,
        OpenedFrame::Complete => FrameOutcome::Complete,
        OpenedFrame::Ignored => FrameOutcome::Ignored,
    }
}

/// One decryption step: the state after reading ciphertext `ct` as the next
/// frame, and what the frame was. Data frames are hashed and counted; the
/// first empty chunk marks the end of the data; the frame after it is the
/// manifest and is checked; frames after the manifest are not read.
pub open spec fn open_step(k: StreamKey, s: OpenState, ct: Seq<u8>) -> (OpenState, Result<FrameOutcome, DecryptError>) {
    let data_offset = (s.offset + 4) as u64;
    let next_offset = (s.offset + 4 + ct.len()) as u64;
    if s.done {
        (OpenState { offset: next_offset, ..s }, Ok(FrameOutcome::Ignored))
    } else {
        match spec_open(k, s.idx, ct) {
            None => (s, Err(DecryptError::AuthFailed { offset: data_offset })),
            Some(pt) => match s.eof {
                None => if pt.len() == 0 {
                    (
                        OpenState { idx: (s.idx + 1) as u64, eof: Some(s.idx), offset: next_offset, ..s },
                        Ok(FrameOutcome::EofMarker),
                    )
                } else {
                    (
                        OpenState {
                            idx: (s.idx + 1) as u64,
                            total: (s.total + pt.len()) as u64,
                            offset: next_offset,
                            absorbed: s.absorbed + pt,
                            ..s
                        },
                        Ok(FrameOutcome::Data(pt)),
                    )
                },
                Some(eof_idx) => match spec_check_manifest(pt, eof_idx, s.total, blake3_digest(s.absorbed)) {
                    Ok(_) => (
                        OpenState { idx: (s.idx + 1) as u64, offset: next_offset, done: true, ..s },
                        Ok(FrameOutcome::Complete),
                    ),
                    Err(e) => (s, Err(DecryptError::Manifest(e))),
                },
            },
        }
    }
}

/// The plaintext that decrypting the frames `cts` from state `s` writes out,
/// or the error that stops it.
pub open spec fn open_from(k: StreamKey, s: OpenState, cts: Seq<Seq<u8>>) -> Result<Seq<u8>, DecryptError>
    decreases cts.len(),
{
    if s.done {
        Ok(Seq::empty())
    } else if cts.len() == 0 {
        Err(DecryptError::Truncated)
    } else {
        let (s2, r) = open_step(k, s, cts[0]);
        match r {
            Err(e) => Err(e),
            Ok(FrameOutcome::Data(pt)) => match open_from(k, s2, cts.drop_first()) {
                Ok(rest) => Ok(pt + rest),
                Err(e) => Err(e),
            },
            Ok(_) => open_from(k, s2, cts.drop_first()),
        }
    }
}

/// Decryption side of an archive.
pub struct StreamOpener {
    pub key: StreamKey,
    pub chunk_idx: u64,
    pub eof_idx: Option<u64>,
    pub total_bytes: u64,
    pub offset: u64,
    pub done: bool,
    pub hasher: blake3::Hasher,
}

impl StreamOpener {
    /// The abstract state.
    pub open spec fn state(&self) -> OpenState {
        OpenState {
            idx: self.chunk_idx,
            eof: self.eof_idx,
            total: self.total_bytes,
            offset: self.offset,
            done: self.done,
            absorbed: blake3_absorbed(self.hasher),
        }
    }

    /// An opener positioned on the first frame, just after the header.
    pub fn new(key: StreamKey) -> (r: StreamOpener)
        ensures
            r.key == key,
            r.state() == initial_open_state(),
    {
        StreamOpener {
            key,
            chunk_idx: 0,
            eof_idx: None,
            total_bytes: 0,
            offset: HEADER_SIZE as u64,
            done: false,
            hasher: blake3_new(),
        }
    }

    /// Reads the next frame's ciphertext.
    pub fn open_frame(&mut self, ct: &[u8]) -> (r: Result<OpenedFrame, DecryptError>)
        requires
            old(self).key.wf(),
            old(self).offset + 4 + ct@.len() <= u64::MAX,
            old(self).chunk_idx < u64::MAX,
            old(self).total_bytes + ct@.len() <= u64::MAX,
        ensures
            final(self).key == old(self).key,
            ({
                let (s2, out) = open_step(old(self).key, old(self).state(), ct@);
                &&& final(self).state() == s2
                &&& match r {
                    Ok(f) => out == Ok::<FrameOutcome, DecryptError>(frame_view(f)),
                    Err(e) => out == Err::<FrameOutcome, DecryptError>(e),
                }
            }),
    {
        let data_offset = self.offset + 4;
        let next_offset = self.offset + 4 + ct.len() as u64;
        if self.done {
            self.offset = next_offset;
            return Ok(OpenedFrame::Ignored);
        }
        let nonce = derive_chunk_nonce(&self.key.base_nonce, self.chunk_idx);
        let opened = aes256gcm_decrypt(&self.key.aes_key, &nonce, ct, self.key.aad.as_slice());
        match opened {
            None => Err(DecryptError::AuthFailed { offset: data_offset }),
            Some(pt) => {
                match self.eof_idx {
                    None => {
                        if pt.len() == 0 {
                            self.eof_idx = Some(self.chunk_idx);
                            self.chunk_idx = self.chunk_idx + 1;
                            self.offset = next_offset;
                            Ok(OpenedFrame::EofMarker)
                        } else {
                            blake3_update(&mut self.hasher, pt.as_slice());
                            self.total_bytes = self.total_bytes + pt.len() as u64;
                            self.chunk_idx = self.chunk_idx + 1;
                            self.offset = next_offset;
                            Ok(OpenedFrame::Data(pt))
                        }
                    },
                    Some(eof_idx) => {
                        let hash = blake3_finalize(&self.hasher);
                        match verify_manifest(pt.as_slice(), eof_idx, self.total_bytes, &hash) {
                            Ok(()) => {
                                self.chunk_idx = self.chunk_idx + 1;
                                self.offset = next_offset;
                                self.done = true;
                                Ok(OpenedFrame::Complete)
                            },
                            Err(e) => Err(DecryptError::Manifest(e)),
                        }
                    },
                }
            },
        }
    }

    /// The decision on the next frame's 4-byte length field, made before
    /// anything is allocated for its ciphertext: once the manifest was read,
    /// nothing after it counts (`Stop`); a length up to `MAX_FRAME_LEN` is
    /// read into memory (`Read`); a longer one, which no sealer writes, is
    /// passed over without being held in memory (`Oversized`).
    pub fn frame_length(&self, len_bytes: &[u8; 4]) -> (r: FrameLength)
        ensures
            self.done ==> r == FrameLength::Stop,
            !self.done && spec_u32_from_be(len_bytes@) <= MAX_FRAME_LEN ==> r
                == FrameLength::Read(spec_u32_from_be(len_bytes@) as usize),
            !self.done && spec_u32_from_be(len_bytes@) > MAX_FRAME_LEN ==> r
                == FrameLength::Oversized(spec_u32_from_be(len_bytes@)),
    {
        if self.done {
            return FrameLength::Stop;
        }
        let len = u32_from_be(len_bytes);
        if len as usize > MAX_FRAME_LEN {
            FrameLength::Oversized(len)
        } else {
            FrameLength::Read(len as usize)
        }
    }

    /// The answer to an oversized frame whose bytes were all there: it does
    /// not authenticate under the archive key (the sealer's frames hold at
    /// most a full chunk and its tag), so decryption stops with the
    /// authentication failure at the offset where its ciphertext starts.
    /// When its bytes run out first, the archive is truncated instead
    /// (`finish`).
    pub fn oversized_frame_error(&self) -> (e: DecryptError)
        requires
            self.offset + 4 <= u64::MAX,
        ensures
            e == (DecryptError::AuthFailed { offset: (self.offset + 4) as u64 }),
    {
        DecryptError::AuthFailed { offset: self.offset + 4 }
    }

    /// Called when the archive has no more frames: fails unless the manifest
    /// was read.
    pub fn finish(&self) -> (r: Result<(), DecryptError>)
        ensures
            r is Ok <==> self.done,
            r matches Err(e) ==> e == DecryptError::Truncated,
    {
        if self.done {
            Ok(())
        } else {
            Err(DecryptError::Truncated)
        }
    }
}

/// The decryption state at the first frame.
pub open spec fn initial_open_state() -> OpenState {
    OpenState {
        idx: 0,
        eof: None,
        total: 0,
        offset: HEADER_SIZE as u64,
        done: false,
        absorbed: Seq::empty(),
    }
}

// ─── Round trip of the archive body ──────────────────────────────

/// The ciphertexts an archive carries for `chunks`, sealed from chunk index
/// `idx` on, after `total` bytes `absorbed` were already sealed: one per
/// chunk, then the EOF marker, then the manifest.
pub open spec fn sealed_cts(k: StreamKey, idx: u64, total: u64, absorbed: Seq<u8>, chunks: Seq<Seq<u8>>) -> Seq<Seq<u8>>
    decreases chunks.len(),
{
    if chunks.len() == 0 {
        seq![
            spec_seal(k, idx, Seq::empty()),
            spec_seal(k, (idx + 1) as u64, spec_manifest(idx, total, blake3_digest(absorbed))),
        ]
    } else {
        seq![spec_seal(k, idx, chunks[0])] + sealed_cts(
            k,
            (idx + 1) as u64,
            (total + chunks[0].len()) as u64,
            absorbed + chunks[0],
            chunks.drop_first(),
        )
    }
}

/// Every chunk is nonempty.
pub open spec fn valid_chunks(chunks: Seq<Seq<u8>>) -> bool {
    forall|i: int| 0 <= i < chunks.len() ==> 0 < #[trigger] chunks[i].len()
}

/// The ciphertext sealed for chunk `idx` holding `pt` decrypts, under the
/// same index, back to `pt` (what each AES-GCM encryption call guarantees).
pub open spec fn seal_opens(k: StreamKey, idx: u64, pt: Seq<u8>) -> bool {
    spec_open(k, idx, spec_seal(k, idx, pt)) == Some(pt)
}

/// Every encryption made while sealing `chunks` from index `idx` on, after
/// `total` bytes `absorbed`, decrypts back, and the manifest digest has its
/// 32 bytes.
pub open spec fn seals_open(k: StreamKey, idx: u64, total: u64, absorbed: Seq<u8>, chunks: Seq<Seq<u8>>) -> bool {
    let n = chunks.len();
    let flat = chunks.flatten();
    &&& forall|i: int| 0 <= i < n ==> #[trigger] seal_opens(k, (idx + i) as u64, chunks[i])
    &&& seal_opens(k, (idx + n) as u64, Seq::empty())
    &&& seal_opens(k, (idx + n + 1) as u64, spec_manifest((idx + n) as u64, (total + flat.len()) as u64, blake3_digest(absorbed + flat)))
    &&& blake3_digest(absorbed + flat).len() == 32
}

proof fn lemma_open_sealed_from(
    k: StreamKey,
    idx: u64,
    total: u64,
    offset: u64,
    absorbed: Seq<u8>,
    chunks: Seq<Seq<u8>>,
)
    requires
        valid_chunks(chunks),
        idx + chunks.len() + 2 <= u64::MAX,
        total + chunks.flatten().len() <= u64::MAX,
        seals_open(k, idx, total, absorbed, chunks),
    ensures
        open_from(
            k,
            OpenState { idx, eof: None, total, offset, done: false, absorbed },
            sealed_cts(k, idx, total, absorbed, chunks),
        ) == Ok::<Seq<u8>, DecryptError>(chunks.flatten()),
    decreases chunks.len(),
{
    let s = OpenState { idx, eof: None, total, offset, done: false, absorbed };
    let cts = sealed_cts(k, idx, total, absorbed, chunks);
    if chunks.len() == 0 {
        assert(chunks.flatten() =~= Seq::<u8>::empty());
        assert(absorbed + chunks.flatten() =~= absorbed);
        let (s1, r1) = open_step(k, s, cts[0]);
        assert(r1 == Ok::<FrameOutcome, DecryptError>(FrameOutcome::EofMarker));
        lemma_manifest_roundtrip(idx, total, blake3_digest(absorbed));
        let (s2, r2) = open_step(k, s1, cts[1]);
        assert(r2 == Ok::<FrameOutcome, DecryptError>(FrameOutcome::Complete));
        assert(s2.done);
        assert(cts.drop_first().drop_first() =~= Seq::<Seq<u8>>::empty());
        assert(open_from(k, s1, cts.drop_first()) == open_from(k, s2, cts.drop_first().drop_first()));
    } else {
        let c0 = chunks[0];
        let rest = chunks.drop_first();
        assert(seal_opens(k, (idx + 0) as u64, chunks[0]));
        let (s1, r1) = open_step(k, s, cts[0]);
        assert(r1 == Ok::<FrameOutcome, DecryptError>(FrameOutcome::Data(c0)));
        assert(valid_chunks(rest)) by {
            assert forall|i: int| 0 <= i < rest.len() implies 0 < #[trigger] rest[i].len() by {
                assert(rest[i] == chunks[i + 1]);
            }
        }
        assert(chunks.flatten() == c0 + rest.flatten());
        let idx1 = (idx + 1) as u64;
        let total1 = (total + c0.len()) as u64;
        let absorbed1 = absorbed + c0;
        assert(absorbed1 + rest.flatten() =~= absorbed + chunks.flatten());
        assert(seals_open(k, idx1, total1, absorbed1, rest)) by {
            assert forall|i: int| 0 <= i < rest.len() implies #[trigger] seal_opens(k, (idx1 + i) as u64, rest[i]) by {
                assert(seal_opens(k, (idx + (i + 1)) as u64, chunks[i + 1]));
                assert(rest[i] == chunks[i + 1]);
            }
        }
        lemma_open_sealed_from(k, idx1, total1, s1.offset, absorbed1, rest);
        assert(cts.drop_first() =~= sealed_cts(k, idx1, total1, absorbed1, rest));
    }
}

/// Decrypting, frame by frame, the ciphertexts an archive carries for a
/// sequence of plaintext chunks writes out exactly the concatenated chunks
/// and ends with a manifest that checks, given that each AES-GCM encryption
/// made while sealing decrypts back (as its contract states).
pub proof fn lemma_stream_roundtrip(k: StreamKey, chunks: Seq<Seq<u8>>)
    requires
        valid_chunks(chunks),
        chunks.len() + 2 <= u64::MAX,
        chunks.flatten().len() <= u64::MAX,
        seals_open(k, 0, 0, Seq::empty(), chunks),
    ensures
        open_from(k, initial_open_state(), sealed_cts(k, 0, 0, Seq::empty(), chunks))
            == Ok::<Seq<u8>, DecryptError>(chunks.flatten()),
{
    lemma_open_sealed_from(k, 0, 0, HEADER_SIZE as u64, Seq::empty(), chunks);
}

#[verifier::rlimit(40)]
proof fn lemma_open_sealed_prefix(
    k: StreamKey,
    idx: u64,
    total: u64,
    offset: u64,
    absorbed: Seq<u8>,
    chunks: Seq<Seq<u8>>,
    n: int,
)
    requires
        valid_chunks(chunks),
        idx + chunks.len() + 2 <= u64::MAX,
        total + chunks.flatten().len() <= u64::MAX,
        seals_open(k, idx, total, absorbed, chunks),
        0 <= n < sealed_cts(k, idx, total, absorbed, chunks).len(),
    ensures
        open_from(
            k,
            OpenState { idx, eof: None, total, offset, done: false, absorbed },
            sealed_cts(k, idx, total, absorbed, chunks).take(n),
        ) == Err::<Seq<u8>, DecryptError>(DecryptError::Truncated),
    decreases chunks.len(),
{
    let s = OpenState { idx, eof: None, total, offset, done: false, absorbed };
    let cts = sealed_cts(k, idx, total, absorbed, chunks);
    let pre = cts.take(n);
    if n == 0 {
        assert(pre.len() == 0);
    } else if chunks.len() == 0 {
        assert(n == 1);
        assert(chunks.flatten() =~= Seq::<u8>::empty());
        assert(absorbed + chunks.flatten() =~= absorbed);
        assert(pre[0] == cts[0]);
        let (s1, r1) = open_step(k, s, pre[0]);
        assert(r1 == Ok::<FrameOutcome, DecryptError>(FrameOutcome::EofMarker));
        assert(!s1.done);
        assert(pre.drop_first().len() == 0);
        assert(open_from(k, s1, pre.drop_first()) == Err::<Seq<u8>, DecryptError>(DecryptError::Truncated));
        assert(open_from(k, s, pre) == open_from(k, s1, pre.drop_first()));
    } else {
        let c0 = chunks[0];
        let rest = chunks.drop_first();
        assert(seal_opens(k, (idx + 0) as u64, chunks[0]));
        assert(pre[0] == cts[0]);
        let (s1, r1) = open_step(k, s, pre[0]);
        assert(r1 == Ok::<FrameOutcome, DecryptError>(FrameOutcome::Data(c0)));
        assert(valid_chunks(rest)) by {
            assert forall|i: int| 0 <= i < rest.len() implies 0 < #[trigger] rest[i].len() by {
                assert(rest[i] == chunks[i + 1]);
            }
        }
        assert(chunks.flatten() == c0 + rest.flatten());
        let idx1 = (idx + 1) as u64;
        let total1 = (total + c0.len()) as u64;
        let absorbed1 = absorbed + c0;
        assert(absorbed1 + rest.flatten() =~= absorbed + chunks.flatten());
        assert(seals_open(k, idx1, total1, absorbed1, rest)) by {
            assert forall|i: int| 0 <= i < rest.len() implies #[trigger] seal_opens(k, (idx1 + i) as u64, rest[i]) by {
                assert(seal_opens(k, (idx + (i + 1)) as u64, chunks[i + 1]));
                assert(rest[i] == chunks[i + 1]);
            }
        }
        let rest_cts = sealed_cts(k, idx1, total1, absorbed1, rest);
        assert(cts.drop_first() =~= rest_cts);
        lemma_open_sealed_prefix(k, idx1, total1, s1.offset, absorbed1, rest, n - 1);
        assert(pre.drop_first() =~= rest_cts.take(n - 1));
        assert(s1 == OpenState { idx: idx1, eof: None, total: total1, offset: s1.offset, done: false, absorbed: absorbed1 });
        assert(open_from(k, s1, pre.drop_first()) == Err::<Seq<u8>, DecryptError>(DecryptError::Truncated));
    }
}

/// An archive whose frames stop anywhere before the end of its manifest is
/// refused as truncated: no prefix of the frames sealed for a sequence of
/// chunks decrypts successfully.
pub proof fn lemma_truncation_detected(k: StreamKey, chunks: Seq<Seq<u8>>, n: int)
    requires
        valid_chunks(chunks),
        chunks.len() + 2 <= u64::MAX,
        chunks.flatten().len() <= u64::MAX,
        seals_open(k, 0, 0, Seq::empty(), chunks),
        0 <= n < sealed_cts(k, 0, 0, Seq::empty(), chunks).len(),
    ensures
        open_from(k, initial_open_state(), sealed_cts(k, 0, 0, Seq::empty(), chunks).take(n))
            == Err::<Seq<u8>, DecryptError>(DecryptError::Truncated),
{
    lemma_open_sealed_prefix(k, 0, 0, HEADER_SIZE as u64, Seq::empty(), chunks, n);
}

/// The plaintext that decrypting the frames `cts` from state `s` writes
/// out before it stops, whether it stops at the manifest or at an error.
pub open spec fn released(k: StreamKey, s: OpenState, cts: Seq<Seq<u8>>) -> Seq<u8>
    decreases cts.len(),
{
    if s.done || cts.len() == 0 {
        Seq::empty()
    } else {
        let (s2, r) = open_step(k, s, cts[0]);
        match r {
            Ok(FrameOutcome::Data(pt)) => pt + released(k, s2, cts.drop_first()),
            Ok(_) => released(k, s2, cts.drop_first()),
            Err(_) => Seq::empty(),
        }
    }
}

/// Bytes the first `n` frames of `cts` take on the wire (each a 4-byte
/// length and its ciphertext).
pub open spec fn wire_len(cts: Seq<Seq<u8>>, n: int) -> int
    decreases n,
{
    if n <= 0 || cts.len() == 0 {
        0
    } else {
        4 + cts[0].len() + wire_len(cts.drop_first(), n - 1)
    }
}

proof fn lemma_wire_len_nonneg(cts: Seq<Seq<u8>>, n: int)
    ensures
        wire_len(cts, n) >= 0,
    decreases n,
{
    if n > 0 && cts.len() > 0 {
        lemma_wire_len_nonneg(cts.drop_first(), n - 1);
    }
}

proof fn lemma_sealed_len(k: StreamKey, idx: u64, total: u64, absorbed: Seq<u8>, chunks: Seq<Seq<u8>>)
    ensures
        sealed_cts(k, idx, total, absorbed, chunks).len() == chunks.len() + 2,
    decreases chunks.len(),
{
    if chunks.len() > 0 {
        lemma_sealed_len(k, (idx + 1) as u64, (total + chunks[0].len()) as u64, absorbed + chunks[0], chunks.drop_first());
    }
}

#[verifier::rlimit(40)]
proof fn lemma_open_tampered_from(
    k: StreamKey,
    idx: u64,
    total: u64,
    offset: u64,
    absorbed: Seq<u8>,
    chunks: Seq<Seq<u8>>,
    j: int,
    bad: Seq<u8>,
)
    requires
        valid_chunks(chunks),
        idx + chunks.len() + 2 <= u64::MAX,
        total + chunks.flatten().len() <= u64::MAX,
        seals_open(k, idx, total, absorbed, chunks),
        0 <= j < chunks.len(),
        spec_open(k, (idx + j) as u64, bad) is None,
        offset + wire_len(sealed_cts(k, idx, total, absorbed, chunks), j) + 4 <= u64::MAX,
    ensures
        ({
            let s = OpenState { idx, eof: None, total, offset, done: false, absorbed };
            let cts = sealed_cts(k, idx, total, absorbed, chunks).update(j, bad);
            &&& open_from(k, s, cts) == Err::<Seq<u8>, DecryptError>(DecryptError::AuthFailed {
                offset: (offset + wire_len(sealed_cts(k, idx, total, absorbed, chunks), j) + 4) as u64,
            })
            &&& released(k, s, cts) == chunks.take(j).flatten()
        }),
    decreases chunks.len(),
{
    let s = OpenState { idx, eof: None, total, offset, done: false, absorbed };
    let full = sealed_cts(k, idx, total, absorbed, chunks);
    lemma_sealed_len(k, idx, total, absorbed, chunks);
    let cts = full.update(j, bad);
    if j == 0 {
        assert(cts[0] == bad);
        assert((idx + 0) as u64 == idx);
        assert(chunks.take(0) =~= Seq::<Seq<u8>>::empty());
    } else {
        let c0 = chunks[0];
        let rest = chunks.drop_first();
        assert(seal_opens(k, (idx + 0) as u64, chunks[0]));
        assert(cts[0] == full[0]);
        let (s1, r1) = open_step(k, s, cts[0]);
        assert(r1 == Ok::<FrameOutcome, DecryptError>(FrameOutcome::Data(c0)));
        assert(valid_chunks(rest)) by {
            assert forall|i: int| 0 <= i < rest.len() implies 0 < #[trigger] rest[i].len() by {
                assert(rest[i] == chunks[i + 1]);
            }
        }
        assert(chunks.flatten() == c0 + rest.flatten());
        let idx1 = (idx + 1) as u64;
        let total1 = (total + c0.len()) as u64;
        let absorbed1 = absorbed + c0;
        assert(absorbed1 + rest.flatten() =~= absorbed + chunks.flatten());
        assert(seals_open(k, idx1, total1, absorbed1, rest)) by {
            assert forall|i: int| 0 <= i < rest.len() implies #[trigger] seal_opens(k, (idx1 + i) as u64, rest[i]) by {
                assert(seal_opens(k, (idx + (i + 1)) as u64, chunks[i + 1]));
                assert(rest[i] == chunks[i + 1]);
            }
        }
        let rest_full = sealed_cts(k, idx1, total1, absorbed1, rest);
        assert(full.drop_first() =~= rest_full);
        assert(cts.drop_first() =~= rest_full.update(j - 1, bad));
        assert(wire_len(full, j) == 4 + full[0].len() + wire_len(rest_full, j - 1));
        lemma_wire_len_nonneg(rest_full, j - 1);
        assert((idx1 + (j - 1)) as u64 == (idx + j) as u64);
        assert(s1 == OpenState { idx: idx1, eof: None, total: total1, offset: (offset + 4 + full[0].len()) as u64, done: false, absorbed: absorbed1 });
        lemma_open_tampered_from(k, idx1, total1, s1.offset, absorbed1, rest, j - 1, bad);
        let t = chunks.take(j);
        assert(t.drop_first() =~= rest.take(j - 1));
        assert(t[0] == c0);
        assert(s1.offset + wire_len(rest_full, j - 1) + 4 == offset + wire_len(full, j) + 4);
        assert(open_from(k, s, cts) == open_from(k, s1, cts.drop_first()));
        assert(released(k, s, cts) == c0 + released(k, s1, cts.drop_first()));
    }
}

/// When the first frame does not authenticate under the key opened from
/// the header (as when the header's KEM ciphertext or base nonce was
/// altered: the key or the additional data then differ), decryption stops
/// at once with the failure at offset 1584 and writes nothing out.
pub proof fn lemma_first_frame_refused(k: StreamKey, cts: Seq<Seq<u8>>)
    requires
        cts.len() > 0,
        spec_open(k, 0, cts[0]) is None,
    ensures
        open_from(k, initial_open_state(), cts) == Err::<Seq<u8>, DecryptError>(DecryptError::AuthFailed {
            offset: (HEADER_SIZE + 4) as u64,
        }),
        released(k, initial_open_state(), cts) == Seq::<u8>::empty(),
{
}

/// A data frame that no longer authenticates stops decryption there: the
/// error names the offset where that frame's ciphertext starts (the header,
/// then every earlier frame's length field and ciphertext, then its own
/// length field), and exactly the chunks before it were written out.
pub proof fn lemma_tamper_reported(k: StreamKey, chunks: Seq<Seq<u8>>, j: int, bad: Seq<u8>)
    requires
        valid_chunks(chunks),
        chunks.len() + 2 <= u64::MAX,
        chunks.flatten().len() <= u64::MAX,
        seals_open(k, 0, 0, Seq::empty(), chunks),
        0 <= j < chunks.len(),
        spec_open(k, j as u64, bad) is None,
        HEADER_SIZE + wire_len(sealed_cts(k, 0, 0, Seq::empty(), chunks), j) + 4 <= u64::MAX,
    ensures
        open_from(k, initial_open_state(), sealed_cts(k, 0, 0, Seq::empty(), chunks).update(j, bad))
            == Err::<Seq<u8>, DecryptError>(DecryptError::AuthFailed {
            offset: (HEADER_SIZE + wire_len(sealed_cts(k, 0, 0, Seq::empty(), chunks), j) + 4) as u64,
        }),
        released(k, initial_open_state(), sealed_cts(k, 0, 0, Seq::empty(), chunks).update(j, bad))
            == chunks.take(j).flatten(),
{
    assert((0 + j) as u64 == j as u64);
    lemma_open_tampered_from(k, 0, 0, HEADER_SIZE as u64, Seq::empty(), chunks, j, bad);
}

/// The archive body on the wire: each ciphertext as a frame, in order.
pub open spec fn archive_body(cts: Seq<Seq<u8>>) -> Seq<u8>
    decreases cts.len(),
{
    if cts.len() == 0 {
        Seq::empty()
    } else {
        spec_frame(cts[0]) + archive_body(cts.drop_first())
    }
}

/// The frames the decrypting side reads from body bytes `b`: while a whole
/// 4-byte length field and the ciphertext it announces are there, that
/// ciphertext; reading stops at the first field or ciphertext cut short.
pub open spec fn frames_read(b: Seq<u8>) -> Seq<Seq<u8>>
    decreases b.len(),
{
    if b.len() < 4 {
        Seq::empty()
    } else {
        let n = spec_u32_from_be(b.take(4)) as int;
        if b.len() < 4 + n {
            Seq::empty()
        } else {
            seq![b.subrange(4, 4 + n)] + frames_read(b.skip(4 + n))
        }
    }
}

/// Reading any prefix of an archive body gives back whole leading frames:
/// all of them for the whole body, fewer for a shorter prefix.
proof fn lemma_frames_read_prefix(cts: Seq<Seq<u8>>, m: int)
    requires
        forall|i: int| 0 <= i < cts.len() ==> (#[trigger] cts[i]).len() <= u32::MAX,
        0 <= m <= archive_body(cts).len(),
    ensures
        exists|q: int|
            0 <= q <= cts.len() && (q == cts.len() <==> m == archive_body(cts).len())
                && frames_read(archive_body(cts).take(m)) == #[trigger] cts.take(q),
    decreases cts.len(),
{
    let body = archive_body(cts);
    let b = body.take(m);
    if cts.len() == 0 {
        assert(b.len() == 0);
        assert(frames_read(b) =~= cts.take(0));
    } else {
        let ct0 = cts[0];
        let rest = cts.drop_first();
        assert forall|i: int| 0 <= i < rest.len() implies (#[trigger] rest[i]).len() <= u32::MAX by {
            assert(rest[i] == cts[i + 1]);
        }
        let f0 = spec_frame(ct0);
        let len0 = ct0.len() as int;
        assert(f0 == spec_u32_be(ct0.len() as u32) + ct0);
        assert(f0.len() == 4 + len0);
        assert(body == f0 + archive_body(rest));
        if m < 4 {
            assert(frames_read(b) =~= cts.take(0));
            assert(cts.take(0).len() == 0);
        } else {
            assert(b.take(4) =~= spec_u32_be(ct0.len() as u32));
            lemma_u32_be_roundtrip(ct0.len() as u32);
            assert(spec_u32_from_be(b.take(4)) as int == len0);
            if m < 4 + len0 {
                assert(frames_read(b) =~= cts.take(0));
            } else {
                assert(b.subrange(4, 4 + len0) =~= ct0);
                let m2 = m - 4 - len0;
                assert(b.skip(4 + len0) =~= archive_body(rest).take(m2));
                lemma_frames_read_prefix(rest, m2);
                let q2 = choose|q: int|
                    0 <= q <= rest.len() && (q == rest.len() <==> m2 == archive_body(rest).len())
                        && frames_read(archive_body(rest).take(m2)) == #[trigger] rest.take(q);
                assert(frames_read(b) == seq![ct0] + rest.take(q2));
                assert(seq![ct0] + rest.take(q2) =~= cts.take(q2 + 1));
            }
        }
    }
}

/// However an archive body is cut short (at a frame boundary or inside a
/// length field or ciphertext), the frames read from what is left do not
/// decrypt: decryption reports the archive truncated.
pub proof fn lemma_cut_archive_detected(k: StreamKey, chunks: Seq<Seq<u8>>, m: int)
    requires
        valid_chunks(chunks),
        chunks.len() + 2 <= u64::MAX,
        chunks.flatten().len() <= u64::MAX,
        seals_open(k, 0, 0, Seq::empty(), chunks),
        forall|i: int|
            0 <= i < sealed_cts(k, 0, 0, Seq::empty(), chunks).len() ==> (#[trigger] sealed_cts(
                k,
                0,
                0,
                Seq::empty(),
                chunks,
            )[i]).len() <= MAX_FRAME_LEN,
        0 <= m < archive_body(sealed_cts(k, 0, 0, Seq::empty(), chunks)).len(),
    ensures
        open_from(k, initial_open_state(), frames_read(archive_body(sealed_cts(k, 0, 0, Seq::empty(), chunks)).take(m)))
            == Err::<Seq<u8>, DecryptError>(DecryptError::Truncated),
{
    let cts = sealed_cts(k, 0, 0, Seq::empty(), chunks);
    assert forall|i: int| 0 <= i < cts.len() implies (#[trigger] cts[i]).len() <= u32::MAX by {}
    lemma_frames_read_prefix(cts, m);
    let q = choose|q: int|
        0 <= q <= cts.len() && (q == cts.len() <==> m == archive_body(cts).len())
            && frames_read(archive_body(cts).take(m)) == #[trigger] cts.take(q);
    lemma_truncation_detected(k, chunks, q);
}

proof fn lemma_open_from_views(k1: StreamKey, k2: StreamKey, s: OpenState, cts: Seq<Seq<u8>>)
    requires
        k1.aes_key@ == k2.aes_key@,
        k1.base_nonce@ == k2.base_nonce@,
        k1.aad@ == k2.aad@,
    ensures
        open_from(k1, s, cts) == open_from(k2, s, cts),
    decreases cts.len(),
{
    if !s.done && cts.len() > 0 {
        assert(open_step(k1, s, cts[0]) == open_step(k2, s, cts[0]));
        let (s2, r) = open_step(k1, s, cts[0]);
        lemma_open_from_views(k1, k2, s2, cts.drop_first());
    }
}

// ─── Archive headers ─────────────────────────────────────────────

/// "qcrypt-aes-gcm", the HKDF info string that separates the archive key.
pub const KDF_INFO: [u8; 14] = [
    0x71u8, 0x63u8, 0x72u8, 0x79u8, 0x70u8, 0x74u8, 0x2du8, 0x61u8, 0x65u8, 0x73u8, 0x2du8, 0x67u8, 0x63u8, 0x6du8,
];

/// The archive key derived from a KEM shared secret.
pub open spec fn archive_key(shared_secret: Seq<u8>) -> Seq<u8> {
    hkdf_sha256(shared_secret, KDF_INFO@)
}

/// `key` is the stream key of an archive whose header is `header` and whose
/// KEM shared secret is `ss`.
pub open spec fn keys_header(key: StreamKey, header: Seq<u8>, ss: Seq<u8>) -> bool {
    &&& header.len() == HEADER_SIZE
    &&& key.aad@ == header
    &&& key.base_nonce@ == header.subrange(KEM_CT_SIZE as int, HEADER_SIZE as int)
    &&& key.aes_key@ == archive_key(ss)
}

/// `key` is the stream key of an archive with header `header` whose KEM
/// ciphertext (the header's first 1568 bytes) and shared secret are an
/// encapsulation to the public key `ek` (a fresh encapsulation draws them at
/// random).
pub open spec fn fresh_archive_keys(key: StreamKey, header: Seq<u8>, ek: Seq<u8>) -> bool {
    exists|ss: Seq<u8>|
        keys_header(key, header, ss) && #[trigger] mlkem1024_encapsulates(
            ek,
            header.subrange(0, KEM_CT_SIZE as int),
            ss,
        )
}

/// Starts an archive for the public key in `pub_key_pem`: encapsulates a
/// fresh shared secret, derives the archive key, draws a base nonce and
/// returns the sealer with the 1580-byte header to write first.
pub fn begin_encrypt_stream(pub_key_pem: &str) -> (r: Result<(StreamSealer, Vec<u8>), &'static str>)
    ensures
        match spec_parse_key_blob(pub_key_pem@) {
            Err(m) => r matches Err(e) && e@ == m,
            Ok(k) => if k.len() != KEM_CT_SIZE {
                r matches Err(e) && e@ == "Invalid public key size"@
            } else {
                r matches Ok(p) && p.0.chunk_idx == 0 && p.0.total_bytes == 0
                    && p.0.absorbed() == Seq::<u8>::empty() && p.0.key.wf() && fresh_archive_keys(p.0.key, p.1@, k)
            },
        },
{
    let pk = match parse_key_blob(pub_key_pem) {
        Ok(p) => p,
        Err(e) => {
            return Err(e);
        },
    };
    if pk.len() != KEM_CT_SIZE {
        return Err("Invalid public key size");
    }
    let mut ek = [0u8; 1568];
    let mut i: usize = 0;
    while i < 1568
        invariant
            i <= 1568,
            pk@.len() == 1568,
            forall|t: int| 0 <= t < i ==> ek@[t] == pk@[t],
        decreases 1568 - i,
    {
        ek[i] = pk[i];
        i = i + 1;
    }
    assert(ek@ =~= pk@);
    let (ct, ss) = mlkem1024_encapsulate(&ek);
    let info = KDF_INFO;
    let aes_key = hkdf_sha256_expand(&ss, &info);
    let base_nonce = random_12();
    let mut header: Vec<u8> = Vec::with_capacity(HEADER_SIZE);
    header.extend_from_slice(&ct);
    header.extend_from_slice(&base_nonce);
    assert(header@.subrange(1568, 1580) =~= base_nonce@);
    let key = StreamKey { aes_key, base_nonce, aad: copy(header.as_slice()) };
    assert(header@.len() == HEADER_SIZE);
    assert(key.wf());
    assert(keys_header(key, header@, ss@));
    assert(header@.subrange(0, KEM_CT_SIZE as int) =~= ct@);
    let sealer = StreamSealer::new(key);
    assert(sealer.key.wf());
    assert(fresh_archive_keys(sealer.key, header@, pk@));
    Ok((sealer, header))
}

/// A copy of a byte slice.
fn copy(b: &[u8]) -> (r: Vec<u8>)
    ensures
        r@ == b@,
{
    let mut v: Vec<u8> = Vec::new();
    v.extend_from_slice(b);
    v
}

/// The error text for a decrypted private key of the wrong size.
pub open spec fn bad_dk_size_message() -> Seq<char> {
    "Invalid decrypted key size"@
}

/// The decapsulation key that a private key file yields under a secret.
pub open spec fn spec_unlock_archive_key(priv_file: Seq<char>, entropy: Seq<u8>) -> Result<Seq<u8>, Seq<char>> {
    match spec_parse_key_blob(priv_file) {
        Err(m) => Err(m),
        Ok(payload) => match spec_unlock(payload, entropy) {
            Err(e) => Err(e.spec_message()),
            Ok(dk) => if dk.len() != 3168 {
                Err(bad_dk_size_message())
            } else {
                Ok(dk)
            },
        },
    }
}

/// Unlocks the ML-KEM decapsulation key of a private key file with the
/// secret of `auth_mode`.
pub fn unlock_archive_key(
    priv_key_pem: &str,
    password: &str,
    auth_mode: &AuthMode,
    hardware_response: &[u8],
) -> (r: Result<Vec<u8>, String>)
    ensures
        match spec_unlock_archive_key(priv_key_pem@, spec_key_entropy(*auth_mode, password@, hardware_response@)) {
            Ok(dk) => r matches Ok(v) && v@ == dk,
            Err(m) => r matches Err(s) && s@ == m,
        },
{
    let payload = match parse_key_blob(priv_key_pem) {
        Ok(p) => p,
        Err(e) => {
            return Err(String::from_str(e));
        },
    };
    let entropy = key_entropy(auth_mode, password, hardware_response);
    match unlock_private_key(payload.as_slice(), entropy.as_slice()) {
        Ok(dk) => {
            if dk.len() != 3168 {
                Err(String::from_str("Invalid decrypted key size"))
            } else {
                Ok(dk)
            }
        },
        Err(e) => Err(String::from_str(e.message())),
    }
}

/// Opens an archive whose 1580-byte header was read: decapsulates the KEM
/// ciphertext with `dk`, derives the archive key and returns the opener
/// positioned on the first frame.
pub fn begin_decrypt_stream(dk: &[u8], header: &[u8]) -> (r: StreamOpener)
    requires
        dk@.len() == 3168,
        header@.len() == HEADER_SIZE,
    ensures
        keys_header(r.key, header@, mlkem1024_decapsulation(dk@, header@.subrange(0, KEM_CT_SIZE as int))),
        r.key.wf(),
        r.state() == initial_open_state(),
{
    let mut dka = [0u8; 3168];
    let mut i: usize = 0;
    while i < 3168
        invariant
            i <= 3168,
            dk@.len() == 3168,
            forall|t: int| 0 <= t < i ==> dka@[t] == dk@[t],
        decreases 3168 - i,
    {
        dka[i] = dk[i];
        i = i + 1;
    }
    assert(dka@ =~= dk@);
    let mut ct = [0u8; 1568];
    let mut j: usize = 0;
    while j < 1568
        invariant
            j <= 1568,
            header@.len() == HEADER_SIZE,
            forall|t: int| 0 <= t < j ==> ct@[t] == header@[t],
        decreases 1568 - j,
    {
        ct[j] = header[j];
        j = j + 1;
    }
    assert(ct@ =~= header@.subrange(0, 1568));
    let mut base_nonce = [0u8; 12];
    let mut k: usize = 0;
    while k < 12
        invariant
            k <= 12,
            header@.len() == HEADER_SIZE,
            forall|t: int| 0 <= t < k ==> base_nonce@[t] == header@[1568 + t],
        decreases 12 - k,
    {
        base_nonce[k] = header[1568 + k];
        k = k + 1;
    }
    assert(base_nonce@ =~= header@.subrange(1568, 1580));
    let ss = mlkem1024_decapsulate(&dka, &ct);
    let info = KDF_INFO;
    let aes_key = hkdf_sha256_expand(&ss, &info);
    let key = StreamKey { aes_key, base_nonce, aad: copy(header) };
    StreamOpener::new(key)
}

/// ML-KEM correctness for one key pair and ciphertext: every shared secret
/// that encapsulation to `ek` pairs with `ct` is what `dk` decapsulates
/// from `ct`. The scheme guarantees it but for a negligible failure
/// probability, so laws take it as a premise.
pub open spec fn kem_agrees(dk: Seq<u8>, ek: Seq<u8>, ct: Seq<u8>) -> bool {
    forall|ss: Seq<u8>| #[trigger] mlkem1024_encapsulates(ek, ct, ss) ==> mlkem1024_decapsulation(dk, ct) == ss
}

/// End to end: the frames that an archive started for the public key `ek`
/// seals decrypt back to the plaintext chunks on a decrypting side that
/// opened the same header with the matching decapsulation key `dk`, when
/// ML-KEM decapsulation agrees with the encapsulation.
pub proof fn lemma_archive_roundtrip(
    enc_key: StreamKey,
    dec_key: StreamKey,
    header: Seq<u8>,
    ek: Seq<u8>,
    dk: Seq<u8>,
    chunks: Seq<Seq<u8>>,
)
    requires
        fresh_archive_keys(enc_key, header, ek),
        mlkem1024_keypair(dk, ek),
        kem_agrees(dk, ek, header.subrange(0, KEM_CT_SIZE as int)),
        keys_header(dec_key, header, mlkem1024_decapsulation(dk, header.subrange(0, KEM_CT_SIZE as int))),
        valid_chunks(chunks),
        chunks.len() + 2 <= u64::MAX,
        chunks.flatten().len() <= u64::MAX,
        seals_open(enc_key, 0, 0, Seq::empty(), chunks),
    ensures
        open_from(dec_key, initial_open_state(), sealed_cts(enc_key, 0, 0, Seq::empty(), chunks))
            == Ok::<Seq<u8>, DecryptError>(chunks.flatten()),
{
    let ct = header.subrange(0, KEM_CT_SIZE as int);
    let ss = choose|ss: Seq<u8>| keys_header(enc_key, header, ss) && #[trigger] mlkem1024_encapsulates(ek, ct, ss);
    assert(mlkem1024_decapsulation(dk, ct) == ss);
    lemma_stream_roundtrip(enc_key, chunks);
    lemma_open_from_views(dec_key, enc_key, initial_open_state(), sealed_cts(enc_key, 0, 0, Seq::empty(), chunks));
}

/// The bytes of a key blob that reads, and nothing otherwise.
pub open spec fn blob_bytes(r: Result<Seq<u8>, Seq<char>>) -> Seq<u8> {
    match r {
        Ok(b) => b,
        Err(_) => Seq::empty(),
    }
}

/// End to end with generated key files: the private key file unlocks under
/// the secret it was generated with, and the archive body written for a
/// plaintext `p` (an archive started from the public key file, `p` cut into
/// chunks, each sealed) reads and decrypts back to `p` under the header
/// opened with the unlocked key, when ML-KEM decapsulation agrees with the
/// encapsulation and each AES-GCM encryption decrypts back (as the sealer's
/// contracts state, with the frame lengths they state).
#[verifier::rlimit(50)]
#[verifier::spinoff_prover]
pub proof fn lemma_generated_archive_roundtrip(
    priv_file: Seq<char>,
    pub_file: Seq<char>,
    entropy: Seq<u8>,
    salt: Seq<u8>,
    nopemhead: bool,
    enc_key: StreamKey,
    dec_key: StreamKey,
    header: Seq<u8>,
    p: Seq<u8>,
)
    requires
        salt.len() == 16,
        entropy.len() <= 0xFFFF_FFFF,
        generated_key_files(priv_file, pub_file, entropy, salt, nopemhead),
        fresh_archive_keys(enc_key, header, blob_bytes(spec_parse_key_blob(pub_file))),
        p.len() + 2 <= u64::MAX,
        seals_open(enc_key, 0, 0, Seq::empty(), chunks_of(p)),
        forall|i: int|
            0 <= i < sealed_cts(enc_key, 0, 0, Seq::empty(), chunks_of(p)).len() ==> (#[trigger] sealed_cts(
                enc_key,
                0,
                0,
                Seq::empty(),
                chunks_of(p),
            )[i]).len() <= MAX_FRAME_LEN,
    ensures
        spec_parse_key_blob(pub_file) is Ok,
        spec_unlock_archive_key(priv_file, entropy) matches Ok(dk) && ({
            let ek = blob_bytes(spec_parse_key_blob(pub_file));
            let ct = header.subrange(0, KEM_CT_SIZE as int);
            let body = archive_body(sealed_cts(enc_key, 0, 0, Seq::empty(), chunks_of(p)));
            keys_header(dec_key, header, mlkem1024_decapsulation(dk, ct)) && kem_agrees(dk, ek, ct)
                ==> open_from(dec_key, initial_open_state(), frames_read(body)) == Ok::<Seq<u8>, DecryptError>(p)
        }),
{
    let (dk, ek, nonce) = choose|dk: Seq<u8>, ek: Seq<u8>, nonce: Seq<u8>|
        key_files_of(priv_file, pub_file, entropy, salt, nopemhead, dk, ek, nonce);
    let payload = spec_wrapped_key(dk, entropy, salt, nonce);
    lemma_key_file_reads_back(pem_text(private_key_tag(), payload), private_key_tag(), payload, nopemhead);
    lemma_key_file_reads_back(pem_text(public_key_tag(), ek), public_key_tag(), ek, nopemhead);
    lemma_unlock_wrapped(dk, entropy, salt, nonce);
    assert(spec_unlock_archive_key(priv_file, entropy) == Ok::<Seq<u8>, Seq<char>>(dk));
    assert(blob_bytes(spec_parse_key_blob(pub_file)) == ek);
    let chunks = chunks_of(p);
    lemma_chunks_of_cover(p);
    let cts = sealed_cts(enc_key, 0, 0, Seq::empty(), chunks);
    let body = archive_body(cts);
    assert forall|i: int| 0 <= i < cts.len() implies (#[trigger] cts[i]).len() <= u32::MAX by {}
    lemma_frames_read_prefix(cts, body.len() as int);
    assert(body.take(body.len() as int) =~= body);
    let q = choose|q: int|
        0 <= q <= cts.len() && (q == cts.len() <==> body.len() == archive_body(cts).len())
            && frames_read(archive_body(cts).take(body.len() as int)) == #[trigger] cts.take(q);
    assert(cts.take(q) =~= cts);
    assert(frames_read(body) == cts);
    let ct = header.subrange(0, KEM_CT_SIZE as int);
    if keys_header(dec_key, header, mlkem1024_decapsulation(dk, ct)) && kem_agrees(dk, ek, ct) {
        lemma_archive_roundtrip(enc_key, dec_key, header, ek, dk, chunks);
    }
}

/// Frame `j` of `cts`, read as chunk `j` once the EOF marker was chunk
/// `eof`, is a manifest that matches `total` plaintext bytes with BLAKE3
/// digest `digest`.
pub open spec fn manifest_vouches(k: StreamKey, cts: Seq<Seq<u8>>, j: int, eof: u64, total: u64, digest: Seq<u8>) -> bool {
    &&& 0 <= j < cts.len()
    &&& spec_open(k, j as u64, cts[j]) matches Some(m)
    &&& spec_check_manifest(m, eof, total, digest) is Ok
}

/// Some frame of `cts` is a manifest that matches `total` bytes with
/// digest `digest`.
pub open spec fn vouched(k: StreamKey, cts: Seq<Seq<u8>>, total: u64, digest: Seq<u8>) -> bool {
    exists|j: int, e: u64| #[trigger] manifest_vouches(k, cts, j, e, total, digest)
}

proof fn lemma_output_vouched_from(k: StreamKey, s: OpenState, full: Seq<Seq<u8>>, p: Seq<u8>)
    requires
        !s.done,
        s.idx <= full.len() < u64::MAX,
        s.eof matches Some(e) ==> e < s.idx,
        open_from(k, s, full.skip(s.idx as int)) == Ok::<Seq<u8>, DecryptError>(p),
        s.total + p.len() <= u64::MAX,
    ensures
        vouched(k, full, (s.total + p.len()) as u64, blake3_digest(s.absorbed + p)),
    decreases full.len() - s.idx,
{
    let rest = full.skip(s.idx as int);
    if rest.len() == 0 {
        assert(open_from(k, s, rest) == Err::<Seq<u8>, DecryptError>(DecryptError::Truncated));
    } else {
        let ct = rest[0];
        assert(ct == full[s.idx as int]);
        let (s2, r) = open_step(k, s, ct);
        assert(rest.drop_first() =~= full.skip(s2.idx as int)) by {
            if r is Ok {
                assert(s2.idx == s.idx + 1);
            }
        }
        match r {
            Err(e) => {},
            Ok(FrameOutcome::Data(pt)) => {
                match open_from(k, s2, rest.drop_first()) {
                    Ok(q) => {
                        assert(p == pt + q);
                        assert(s2.absorbed + q =~= s.absorbed + p);
                        lemma_output_vouched_from(k, s2, full, q);
                    },
                    Err(_) => {},
                }
            },
            Ok(FrameOutcome::EofMarker) => {
                lemma_output_vouched_from(k, s2, full, p);
            },
            Ok(FrameOutcome::Complete) => {
                let e = s.eof.unwrap();
                assert(s2.done);
                assert(p =~= Seq::<u8>::empty());
                assert(s.absorbed + p =~= s.absorbed);
                assert(manifest_vouches(k, full, s.idx as int, e, s.total, blake3_digest(s.absorbed)));
            },
            Ok(FrameOutcome::Ignored) => {},
        }
    }
}

/// Tamper evidence: whatever plaintext a decryption accepts is vouched for
/// by a manifest frame of the archive: its byte count and BLAKE3 digest are
/// those of the plaintext written out.
pub proof fn lemma_output_vouched(k: StreamKey, cts: Seq<Seq<u8>>, p: Seq<u8>)
    requires
        cts.len() < u64::MAX,
        open_from(k, initial_open_state(), cts) == Ok::<Seq<u8>, DecryptError>(p),
        p.len() <= u64::MAX,
    ensures
        vouched(k, cts, p.len() as u64, blake3_digest(p)),
{
    assert(cts.skip(0) =~= cts);
    assert(Seq::<u8>::empty() + p =~= p);
    lemma_output_vouched_from(k, initial_open_state(), cts, p);
}

} // verus!
