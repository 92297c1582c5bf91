//! Key files: the stealth (headerless) and PEM encodings, the passphrase /
//! hardware-token wrapping of the ML-KEM private key, key generation and
//! public-key recovery.

use vstd::prelude::*;
use vstd::string::StringExecFns;
use crate::text::{spec_trim, trim_chars, spec_starts_with, chars_start_with, str_chars, is_unicode_whitespace, leading_ws, trailing_ws, lemma_trim_start_skip, lemma_trim_end_take, spec_trim_start, spec_trim_end};
use crate::encoding::string_from_chars;
use crate::primitives::{
    pem_begin, pem_contents, pem_parse, base64_decoded, base64_decode, pem_text, pem_encode,
    plain_pem_tag, argon2id, argon2id_derive, aes_gcm_seal, aes_gcm_open, aes256gcm_encrypt,
    aes256gcm_decrypt, mlkem1024_generate, mlkem1024_keypair, random_12, random_16, mlkem_dk_len, mlkem_ek_len,
    mlkem_ek_offset,
};
use crate::hybrid::AuthMode;
use crate::armour::{key_file_facts, lemma_key_file_reads_back};
use vstd::utf8::encode_utf8;

verus! {

/// A character that stealth key blobs may carry between Base64 runs.
pub open spec fn is_layout_char(c: char) -> bool {
    c == '\n' || c == '\r' || c == ' '
}

/// `s` without newlines, carriage returns and spaces.
pub open spec fn spec_remove_layout(s: Seq<char>) -> Seq<char>
    decreases s.len(),
{
    if s.len() == 0 {
        Seq::empty()
    } else if is_layout_char(s.last()) {
        spec_remove_layout(s.drop_last())
    } else {
        spec_remove_layout(s.drop_last()).push(s.last())
    }
}

/// Removes newlines, carriage returns and spaces.
pub fn remove_layout(s: &[char]) -> (r: Vec<char>)
    ensures
        r@ == spec_remove_layout(s@),
{
    let mut out: Vec<char> = Vec::new();
    let mut i: usize = 0;
    while i < s.len()
        invariant
            i <= s@.len(),
            out@ == spec_remove_layout(s@.take(i as int)),
        decreases s@.len() - i,
    {
        let c = s[i];
        assert(s@.take(i + 1).drop_last() =~= s@.take(i as int));
        if !(c == '\n' || c == '\r' || c == ' ') {
            out.push(c);
        }
        i = i + 1;
    }
    assert(s@.take(s@.len() as int) =~= s@);
    out
}

proof fn lemma_remove_layout_is_filter(s: Seq<char>, keep: spec_fn(char) -> bool)
    requires
        forall|c: char| #[trigger] keep(c) == (c != '\n' && c != '\r' && c != ' '),
    ensures
        spec_remove_layout(s) == s.filter(keep),
    decreases s.len(),
{
    reveal(Seq::filter);
    if s.len() > 0 {
        lemma_remove_layout_is_filter(s.drop_last(), keep);
        assert(keep(s.last()) == !is_layout_char(s.last()));
    } else {
        assert(s.filter(keep) =~= s);
    }
}

/// Removing layout keeps exactly the characters other than '\n', '\r' and
/// ' ', in their order, so a stealth key's Base64 runs decode alike however
/// its lines end (LF or CR LF) or are indented.
pub proof fn lemma_remove_layout_keeps_the_rest(s: Seq<char>)
    ensures
        spec_remove_layout(s) == s.filter(|c: char| c != '\n' && c != '\r' && c != ' '),
{
    lemma_remove_layout_is_filter(s, |c: char| c != '\n' && c != '\r' && c != ' ');
}

/// The error text for a blob that starts like PEM but does not parse.
pub open spec fn invalid_pem_message() -> Seq<char> {
    "Invalid PEM format"@
}

/// The error text for a stealth blob that is not Base64.
pub open spec fn invalid_base64_message() -> Seq<char> {
    "Invalid Base64 Stealth format"@
}

/// The bytes a key blob holds: a PEM block when the trimmed text starts with
/// "-----BEGIN", otherwise standard Base64 once line breaks and spaces are
/// removed.
pub open spec fn spec_parse_key_blob(blob: Seq<char>) -> Result<Seq<u8>, Seq<char>> {
    let t = spec_trim(blob);
    if spec_starts_with(t, pem_begin()) {
        match pem_contents(t) {
            Some(c) => Ok(c),
            None => Err(invalid_pem_message()),
        }
    } else {
        match base64_decoded(spec_remove_layout(t)) {
            Some(c) => Ok(c),
            None => Err(invalid_base64_message()),
        }
    }
}

/// A key blob that does not start (once trimmed) with "-----BEGIN" is
/// stealth Base64: it reads as the Base64 decoding of its trimmed text with
/// every '\n', '\r' and ' ' removed, and is refused when that text is not
/// Base64.
pub proof fn lemma_stealth_blob_reads(blob: Seq<char>)
    requires
        !spec_starts_with(spec_trim(blob), pem_begin()),
    ensures
        spec_parse_key_blob(blob) == match base64_decoded(
            spec_trim(blob).filter(|c: char| c != '\n' && c != '\r' && c != ' '),
        ) {
            Some(c) => Ok::<Seq<u8>, Seq<char>>(c),
            None => Err::<Seq<u8>, Seq<char>>(invalid_base64_message()),
        },
{
    lemma_remove_layout_keeps_the_rest(spec_trim(blob));
}

/// Reads the bytes of a key blob, with or without PEM armour.
pub fn parse_key_blob(blob: &str) -> (r: Result<Vec<u8>, &'static str>)
    ensures
        match spec_parse_key_blob(blob@) {
            Ok(c) => r matches Ok(v) && v@ == c,
            Err(m) => r matches Err(e) && e@ == m,
        },
{
    let chars = str_chars(blob);
    let t = trim_chars(chars.as_slice());
    let begin: [char; 10] = ['-', '-', '-', '-', '-', 'B', 'E', 'G', 'I', 'N'];
    assert(begin@ =~= pem_begin());
    if chars_start_with(t.as_slice(), &begin) {
        let text = string_from_chars(t.as_slice());
        match pem_parse(text.as_str()) {
            Some(c) => Ok(c),
            None => Err("Invalid PEM format"),
        }
    } else {
        let clean = remove_layout(t.as_slice());
        let text = string_from_chars(clean.as_slice());
        match base64_decode(text.as_str()) {
            Some(c) => Ok(c),
            None => Err("Invalid Base64 Stealth format"),
        }
    }
}


// ─── Stealth rendering ───────────────────────────────────────────

/// A line without the carriage return that ended it.
pub open spec fn strip_cr(l: Seq<char>) -> Seq<char> {
    if l.len() > 0 && l.last() == '\r' {
        l.drop_last()
    } else {
        l
    }
}

/// Splitting `s` at newlines, left to right: the finished lines and the
/// line being read.
pub open spec fn lines_state(s: Seq<char>) -> (Seq<Seq<char>>, Seq<char>)
    decreases s.len(),
{
    if s.len() == 0 {
        (Seq::empty(), Seq::empty())
    } else {
        let (done, cur) = lines_state(s.drop_last());
        if s.last() == '\n' {
            (done.push(strip_cr(cur)), Seq::empty())
        } else {
            (done, cur.push(s.last()))
        }
    }
}

/// Rust's `str::lines`: lines end at "\n" or "\r\n"; a final line ending is
/// optional.
pub open spec fn spec_lines(s: Seq<char>) -> Seq<Seq<char>> {
    let (done, cur) = lines_state(s);
    if cur.len() > 0 {
        done.push(cur)
    } else {
        done
    }
}

/// "-----", which opens PEM boundary lines.
pub open spec fn dashes() -> Seq<char> {
    seq!['-', '-', '-', '-', '-']
}

/// The lines that are not PEM boundary lines.
pub open spec fn body_lines(ls: Seq<Seq<char>>) -> Seq<Seq<char>>
    decreases ls.len(),
{
    if ls.len() == 0 {
        Seq::empty()
    } else if spec_starts_with(ls.last(), dashes()) {
        body_lines(ls.drop_last())
    } else {
        body_lines(ls.drop_last()).push(ls.last())
    }
}

/// Lines joined with "\n".
pub open spec fn join_lines(ls: Seq<Seq<char>>) -> Seq<char>
    decreases ls.len(),
{
    if ls.len() == 0 {
        Seq::empty()
    } else if ls.len() == 1 {
        ls[0]
    } else {
        join_lines(ls.drop_last()).push('\n') + ls.last()
    }
}

/// A PEM text with its boundary lines removed: the Base64 lines joined with
/// "\n" and ended with one.
pub open spec fn spec_strip_pem_headers(pem: Seq<char>) -> Seq<char> {
    join_lines(body_lines(spec_lines(pem))).push('\n')
}

/// Splits characters into lines as `str::lines` does.
fn split_lines(s: &[char]) -> (r: Vec<Vec<char>>)
    ensures
        r@.map_values(|l: Vec<char>| l@) == spec_lines(s@),
{
    let mut done: Vec<Vec<char>> = Vec::new();
    let mut cur: Vec<char> = Vec::new();
    let mut i: usize = 0;
    while i < s.len()
        invariant
            i <= s@.len(),
            ({
                let (d, c) = lines_state(s@.take(i as int));
                done@.map_values(|l: Vec<char>| l@) == d && cur@ == c
            }),
        decreases s@.len() - i,
    {
        assert(s@.take(i + 1).drop_last() =~= s@.take(i as int));
        let ch = s[i];
        if ch == '\n' {
            let mut line = cur;
            let n = line.len();
            if n > 0 && line[n - 1] == '\r' {
                line.pop();
            }
            proof {
                let (d, c) = lines_state(s@.take(i as int));
                assert(line@ == strip_cr(c)) by {
                    if c.len() > 0 && c.last() == '\r' {
                        assert(line@ =~= c.drop_last());
                    }
                }
            }
            done.push(line);
            cur = Vec::new();
            proof {
                let (d, c) = lines_state(s@.take(i as int));
                assert(done@.map_values(|l: Vec<char>| l@) =~= d.push(strip_cr(c)));
            }
        } else {
            cur.push(ch);
        }
        i = i + 1;
    }
    assert(s@.take(s@.len() as int) =~= s@);
    if cur.len() > 0 {
        let ghost before = done@;
        done.push(cur);
        proof {
            let (d, c) = lines_state(s@);
            assert(done@.map_values(|l: Vec<char>| l@) =~= d.push(c));
        }
    }
    done
}

/// Removes the PEM boundary lines of a PEM text, leaving its Base64 lines
/// joined with "\n" and ended with one.
pub fn strip_pem_headers(pem: &str) -> (r: String)
    ensures
        r@ == spec_strip_pem_headers(pem@),
{
    let chars = str_chars(pem);
    let lines = split_lines(chars.as_slice());
    let ghost lv = lines@.map_values(|l: Vec<char>| l@);
    let dash: [char; 5] = ['-', '-', '-', '-', '-'];
    assert(dash@ =~= dashes());
    let mut out: Vec<char> = Vec::new();
    let mut kept: usize = 0;
    let mut i: usize = 0;
    while i < lines.len()
        invariant
            i <= lines@.len(),
            lv == lines@.map_values(|l: Vec<char>| l@),
            dash@ == dashes(),
            kept <= i,
            kept == body_lines(lv.take(i as int)).len(),
            out@ == join_lines(body_lines(lv.take(i as int))),
        decreases lines@.len() - i,
    {
        assert(lv.take(i + 1).drop_last() =~= lv.take(i as int));
        assert(lv.take(i + 1).last() == lines@[i as int]@);
        if !chars_start_with(lines[i].as_slice(), &dash) {
            let ghost prev = body_lines(lv.take(i as int));
            if kept > 0 {
                out.push('\n');
            }
            let ghost mid = out@;
            let mut k: usize = 0;
            let line = &lines[i];
            while k < line.len()
                invariant
                    k <= line@.len(),
                    out@ == mid + line@.take(k as int),
                decreases line@.len() - k,
            {
                out.push(line[k]);
                k = k + 1;
                assert(out@ =~= mid + line@.take(k as int));
            }
            assert(line@.take(line@.len() as int) =~= line@);
            proof {
                let next = prev.push(lines@[i as int]@);
                assert(body_lines(lv.take(i + 1)) == next);
                if prev.len() == 0 {
                    assert(next.drop_last() =~= prev);
                    assert(out@ =~= next[0]);
                } else {
                    assert(next.drop_last() =~= prev);
                }
            }
            kept = kept + 1;
        }
        i = i + 1;
    }
    assert(lv.take(lines@.len() as int) =~= lv);
    out.push('\n');
    string_from_chars(out.as_slice())
}


// ─── Key wrapping ────────────────────────────────────────────────

/// PEM tag of an encrypted private key.
pub const PRIVATE_KEY_TAG: &'static str = "ENCRYPTED ML-KEM-1024 PRIVATE KEY";

/// PEM tag of a public key.
pub const PUBLIC_KEY_TAG: &'static str = "ML-KEM-1024 PUBLIC KEY";

/// The secret the wrapping key is derived from: the passphrase's UTF-8
/// bytes, the token's HMAC response, or both in that order.
pub open spec fn spec_key_entropy(mode: AuthMode, password: Seq<char>, hw: Seq<u8>) -> Seq<u8> {
    match mode {
        AuthMode::Passphrase => encode_utf8(password),
        AuthMode::HardwareOnly => hw,
        AuthMode::HardwareAndPassphrase => encode_utf8(password) + hw,
    }
}

/// The secret the wrapping key is derived from under `auth_mode`.
pub fn key_entropy(auth_mode: &AuthMode, password: &str, hardware_response: &[u8]) -> (r: Vec<u8>)
    ensures
        r@ == spec_key_entropy(*auth_mode, password@, hardware_response@),
{
    match auth_mode {
        AuthMode::Passphrase => copy_bytes(password.as_bytes()),
        AuthMode::HardwareOnly => copy_bytes(hardware_response),
        AuthMode::HardwareAndPassphrase => {
            let mut e = copy_bytes(password.as_bytes());
            e.extend_from_slice(hardware_response);
            e
        },
    }
}

/// A copy of a byte slice.
pub fn copy_bytes(b: &[u8]) -> (r: Vec<u8>)
    ensures
        r@ == b@,
{
    let mut v: Vec<u8> = Vec::with_capacity(b.len());
    v.extend_from_slice(b);
    v
}

/// The first 32 bytes of `v` as an array.
fn to_array32(v: &[u8]) -> (r: [u8; 32])
    requires
        v@.len() == 32,
    ensures
        r@ == v@,
{
    let mut a = [0u8; 32];
    let mut i: usize = 0;
    while i < 32
        invariant
            i <= 32,
            v@.len() == 32,
            forall|t: int| 0 <= t < i ==> a@[t] == v@[t],
        decreases 32 - i,
    {
        a[i] = v[i];
        i = i + 1;
    }
    assert(a@ =~= v@);
    a
}

/// The 12 bytes of `v` starting at `start`, as an array.
fn to_array12(v: &[u8], start: usize) -> (r: [u8; 12])
    requires
        start + 12 <= v@.len(),
    ensures
        r@ == v@.subrange(start as int, start + 12),
{
    let mut a = [0u8; 12];
    let n = v.len();
    let mut i: usize = 0;
    while i < 12
        invariant
            n == v@.len(),
            i <= 12,
            start + 12 <= v@.len(),
            forall|t: int| 0 <= t < i ==> a@[t] == v@[start + t],
        decreases 12 - i,
    {
        a[i] = v[start + i];
        i = i + 1;
    }
    assert(a@ =~= v@.subrange(start as int, start + 12));
    a
}

/// The AES key that wraps a private key: Argon2id of the entropy and salt.
pub open spec fn wrapping_key(entropy: Seq<u8>, salt: Seq<u8>) -> Seq<u8> {
    argon2id(entropy, salt, 32)
}

/// An encrypted private-key payload: salt, nonce, then the AES-256-GCM
/// encryption of the key (no associated data) under the wrapping key.
pub open spec fn spec_wrapped_key(dk: Seq<u8>, entropy: Seq<u8>, salt: Seq<u8>, nonce: Seq<u8>) -> Seq<u8> {
    salt + nonce + aes_gcm_seal(wrapping_key(entropy, salt), nonce, dk, Seq::empty())
}

/// The encryption made while wrapping `dk` decrypts back to it and is 16
/// bytes longer (what the AES-GCM encryption call guarantees).
pub open spec fn wrap_opens(dk: Seq<u8>, entropy: Seq<u8>, salt: Seq<u8>, nonce: Seq<u8>) -> bool {
    let ct = aes_gcm_seal(wrapping_key(entropy, salt), nonce, dk, Seq::empty());
    &&& aes_gcm_open(wrapping_key(entropy, salt), nonce, ct, Seq::empty()) == Some(dk)
    &&& ct.len() == dk.len() + 16
}

/// Encrypts a private key under the Argon2id key of `entropy` and `salt`.
pub fn seal_private_key(dk: &[u8], entropy: &[u8], salt: &[u8; 16], nonce: &[u8; 12]) -> (r: Vec<u8>)
    requires
        entropy@.len() <= 0xFFFF_FFFF,
        dk@.len() <= 0x1_0000_0000,
    ensures
        r@ == spec_wrapped_key(dk@, entropy@, salt@, nonce@),
        wrap_opens(dk@, entropy@, salt@, nonce@),
{
    let k = match argon2id_derive(entropy, salt, 32) {
        Some(k) => k,
        None => {
            assert(false);
            Vec::new()
        },
    };
    let key = to_array32(k.as_slice());
    let empty: Vec<u8> = Vec::new();
    let ct = match aes256gcm_encrypt(&key, nonce, dk, empty.as_slice()) {
        Some(c) => c,
        None => {
            assert(false);
            Vec::new()
        },
    };
    let mut out: Vec<u8> = Vec::new();
    out.extend_from_slice(salt);
    out.extend_from_slice(nonce);
    out.extend_from_slice(ct.as_slice());
    out
}

/// Why a private-key payload could not be unlocked.
#[derive(Debug, Clone, Copy, PartialEq, Eq)]
pub enum UnlockError {
    PayloadTooSmall,
    Argon2Failed,
    WrongSecret,
}

impl UnlockError {
    /// The message shown for this error.
    pub open spec fn spec_message(&self) -> Seq<char> {
        match self {
            UnlockError::PayloadTooSmall => "Encrypted private key payload too small"@,
            UnlockError::Argon2Failed => "Argon2id failed"@,
            UnlockError::WrongSecret => "Incorrect passphrase or corrupted private key"@,
        }
    }

    /// The message shown for this error.
    pub fn message(&self) -> (s: &'static str)
        ensures
            s@ == self.spec_message(),
    {
        match self {
            UnlockError::PayloadTooSmall => "Encrypted private key payload too small",
            UnlockError::Argon2Failed => "Argon2id failed",
            UnlockError::WrongSecret => "Incorrect passphrase or corrupted private key",
        }
    }
}

/// What unlocking a private-key payload with `entropy` gives.
pub open spec fn spec_unlock(payload: Seq<u8>, entropy: Seq<u8>) -> Result<Seq<u8>, UnlockError> {
    if payload.len() < 16 + 12 + 16 {
        Err(UnlockError::PayloadTooSmall)
    } else if entropy.len() > 0xFFFF_FFFF {
        Err(UnlockError::Argon2Failed)
    } else {
        match aes_gcm_open(
            wrapping_key(entropy, payload.subrange(0, 16)),
            payload.subrange(16, 28),
            payload.subrange(28, payload.len() as int),
            Seq::empty(),
        ) {
            Some(dk) => Ok(dk),
            None => Err(UnlockError::WrongSecret),
        }
    }
}

/// Decrypts a private-key payload with the wrapping key derived from
/// `entropy` and the payload's salt.
pub fn unlock_private_key(payload: &[u8], entropy: &[u8]) -> (r: Result<Vec<u8>, UnlockError>)
    ensures
        match spec_unlock(payload@, entropy@) {
            Ok(dk) => r matches Ok(v) && v@ == dk,
            Err(e) => r == Err::<Vec<u8>, UnlockError>(e),
        },
{
    if payload.len() < 16 + 12 + 16 {
        return Err(UnlockError::PayloadTooSmall);
    }
    let mut salt: Vec<u8> = Vec::with_capacity(16);
    let mut i: usize = 0;
    while i < 16
        invariant
            i <= 16,
            payload@.len() >= 44,
            salt@ =~= payload@.subrange(0, i as int),
        decreases 16 - i,
    {
        salt.push(payload[i]);
        i = i + 1;
    }
    let k = match argon2id_derive(entropy, salt.as_slice(), 32) {
        Some(k) => k,
        None => {
            return Err(UnlockError::Argon2Failed);
        },
    };
    let key = to_array32(k.as_slice());
    let nonce = to_array12(payload, 16);
    let mut ct: Vec<u8> = Vec::with_capacity(payload.len() - 28);
    let mut j: usize = 28;
    while j < payload.len()
        invariant
            28 <= j <= payload@.len(),
            ct@ =~= payload@.subrange(28, j as int),
        decreases payload@.len() - j,
    {
        ct.push(payload[j]);
        j = j + 1;
    }
    let empty: Vec<u8> = Vec::new();
    assert(empty@ =~= Seq::<u8>::empty());
    match aes256gcm_decrypt(&key, &nonce, ct.as_slice(), empty.as_slice()) {
        Some(dk) => Ok(dk),
        None => Err(UnlockError::WrongSecret),
    }
}

/// Unlocking a wrapped private key with the entropy it was wrapped with
/// gives back the private key.
pub proof fn lemma_unlock_wrapped(dk: Seq<u8>, entropy: Seq<u8>, salt: Seq<u8>, nonce: Seq<u8>)
    requires
        salt.len() == 16,
        nonce.len() == 12,
        entropy.len() <= 0xFFFF_FFFF,
        wrap_opens(dk, entropy, salt, nonce),
    ensures
        spec_unlock(spec_wrapped_key(dk, entropy, salt, nonce), entropy) == Ok::<Seq<u8>, UnlockError>(dk),
{
    let p = spec_wrapped_key(dk, entropy, salt, nonce);
    let ct = aes_gcm_seal(wrapping_key(entropy, salt), nonce, dk, Seq::empty());
    assert(p.subrange(0, 16) =~= salt);
    assert(p.subrange(16, 28) =~= nonce);
    assert(p.subrange(28, p.len() as int) =~= ct);
}


// ─── Key generation and public-key recovery ──────────────────────

/// The PEM tag of an encrypted private key, as characters.
pub open spec fn private_key_tag() -> Seq<char> {
    "ENCRYPTED ML-KEM-1024 PRIVATE KEY"@
}

/// The PEM tag of a public key, as characters.
pub open spec fn public_key_tag() -> Seq<char> {
    "ML-KEM-1024 PUBLIC KEY"@
}

/// A PEM text as written to a key file: armoured, or stripped to its Base64
/// lines for stealth keys.
pub open spec fn render_pem(pem: Seq<char>, nopemhead: bool) -> Seq<char> {
    if nopemhead {
        spec_strip_pem_headers(pem)
    } else {
        pem
    }
}

/// PEM armour that the PEM parser reads back: it starts with "-----BEGIN"
/// and its trimmed text parses to `contents`.
pub open spec fn pem_reads_back(pem: Seq<char>, contents: Seq<u8>) -> bool {
    &&& pem.len() > 11
    &&& pem.take(10) == pem_begin()
    &&& pem_contents(spec_trim(pem)) == Some(contents)
}

/// The private and public key files produced from the ML-KEM key pair
/// (`dk`, `ek`), one that key generation produces, and the wrapping nonce.
pub open spec fn key_files_of(
    priv_file: Seq<char>,
    pub_file: Seq<char>,
    entropy: Seq<u8>,
    salt: Seq<u8>,
    nopemhead: bool,
    dk: Seq<u8>,
    ek: Seq<u8>,
    nonce: Seq<u8>,
) -> bool {
    let payload = spec_wrapped_key(dk, entropy, salt, nonce);
    &&& mlkem1024_keypair(dk, ek)
    &&& dk.len() == mlkem_dk_len()
    &&& ek.len() == mlkem_ek_len()
    &&& dk.subrange(mlkem_ek_offset() as int, (mlkem_ek_offset() + mlkem_ek_len()) as int) == ek
    &&& nonce.len() == 12
    &&& wrap_opens(dk, entropy, salt, nonce)
    &&& priv_file == render_pem(pem_text(private_key_tag(), payload), nopemhead)
    &&& pub_file == render_pem(pem_text(public_key_tag(), ek), nopemhead)
    &&& key_file_facts(pem_text(private_key_tag(), payload), private_key_tag(), payload)
    &&& key_file_facts(pem_text(public_key_tag(), ek), public_key_tag(), ek)
}

/// `priv_file` and `pub_file` are the two key files of some freshly
/// generated ML-KEM-1024 key pair, the private key wrapped under `entropy`
/// and `salt`.
pub open spec fn generated_key_files(
    priv_file: Seq<char>,
    pub_file: Seq<char>,
    entropy: Seq<u8>,
    salt: Seq<u8>,
    nopemhead: bool,
) -> bool {
    exists|dk: Seq<u8>, ek: Seq<u8>, nonce: Seq<u8>|
        key_files_of(priv_file, pub_file, entropy, salt, nopemhead, dk, ek, nonce)
}

proof fn lemma_tags_plain()
    ensures
        plain_pem_tag(private_key_tag()),
        plain_pem_tag(public_key_tag()),
{
    reveal_strlit("ENCRYPTED ML-KEM-1024 PRIVATE KEY");
    reveal_strlit("ML-KEM-1024 PUBLIC KEY");
}

/// Generates an ML-KEM-1024 key pair and returns the private key file (the
/// key wrapped under the Argon2id key of the auth-mode secret and `salt`,
/// with a fresh nonce) and the public key file, PEM-armoured or stripped to
/// their Base64 lines when `nopemhead` is set.
pub fn generate_keys(
    password: &str,
    nopemhead: bool,
    auth_mode: &AuthMode,
    salt: &[u8; 16],
    hardware_response: &[u8],
) -> (r: (String, String))
    requires
        spec_key_entropy(*auth_mode, password@, hardware_response@).len() <= 0xFFFF_FFFF,
    ensures
        generated_key_files(
            r.0@,
            r.1@,
            spec_key_entropy(*auth_mode, password@, hardware_response@),
            salt@,
            nopemhead,
        ),
{
    let (dk, ek) = mlkem1024_generate();
    let entropy = key_entropy(auth_mode, password, hardware_response);
    let nonce = random_12();
    let payload = seal_private_key(dk.as_slice(), entropy.as_slice(), salt, &nonce);
    let priv_pem = pem_encode("ENCRYPTED ML-KEM-1024 PRIVATE KEY", payload.as_slice());
    let pub_pem = pem_encode("ML-KEM-1024 PUBLIC KEY", ek.as_slice());
    proof {
        lemma_tags_plain();
    }
    let priv_out = if nopemhead {
        strip_pem_headers(priv_pem.as_str())
    } else {
        priv_pem
    };
    let pub_out = if nopemhead {
        strip_pem_headers(pub_pem.as_str())
    } else {
        pub_pem
    };
    proof {
        assert(key_files_of(
            priv_out@,
            pub_out@,
            entropy@,
            salt@,
            nopemhead,
            dk@,
            ek@,
            nonce@,
        ));
    }
    (priv_out, pub_out)
}

/// A fresh random salt for wrapping a new private key.
pub fn new_key_salt() -> (r: [u8; 16]) {
    random_16()
}

/// The error text for a decrypted private key of the wrong size.
pub open spec fn bad_key_size_message() -> Seq<char> {
    "Invalid decrypted private key size (expected 3168 bytes for ML-KEM-1024)"@
}

/// What public-key recovery gives for a private key file and secret.
pub open spec fn spec_recover_public_key(priv_file: Seq<char>, entropy: Seq<u8>, nopemhead: bool) -> Result<Seq<char>, Seq<char>> {
    match spec_parse_key_blob(priv_file) {
        Err(m) => Err(m),
        Ok(payload) => match spec_unlock(payload, entropy) {
            Err(e) => Err(e.spec_message()),
            Ok(dk) => if dk.len() != mlkem_dk_len() {
                Err(bad_key_size_message())
            } else {
                Ok(render_pem(
                    pem_text(
                        public_key_tag(),
                        dk.subrange(mlkem_ek_offset() as int, (mlkem_ek_offset() + mlkem_ek_len()) as int),
                    ),
                    nopemhead,
                ))
            },
        },
    }
}

/// Unlocks a private key file and rebuilds its public key file from the
/// encapsulation key that the decapsulation key carries.
pub fn recover_public_key(
    priv_key_pem: &str,
    password: &str,
    auth_mode: &AuthMode,
    nopemhead: bool,
    hardware_response: &[u8],
) -> (r: Result<String, String>)
    ensures
        match spec_recover_public_key(
            priv_key_pem@,
            spec_key_entropy(*auth_mode, password@, hardware_response@),
            nopemhead,
        ) {
            Ok(p) => r matches Ok(s) && s@ == p,
            Err(m) => r matches Err(s) && s@ == m,
        },
{
    let payload = match parse_key_blob(priv_key_pem) {
        Ok(p) => p,
        Err(e) => {
            return Err(String::from_str(e));
        },
    };
    let entropy = key_entropy(auth_mode, password, hardware_response);
    let dk = match unlock_private_key(payload.as_slice(), entropy.as_slice()) {
        Ok(dk) => dk,
        Err(e) => {
            return Err(String::from_str(e.message()));
        },
    };
    if dk.len() != 3168 {
        return Err(String::from_str("Invalid decrypted private key size (expected 3168 bytes for ML-KEM-1024)"));
    }
    let mut ek: Vec<u8> = Vec::with_capacity(1568);
    let mut i: usize = 1536;
    while i < 1536 + 1568
        invariant
            1536 <= i <= 1536 + 1568,
            dk@.len() == 3168,
            ek@ =~= dk@.subrange(1536, i as int),
        decreases 1536 + 1568 - i,
    {
        ek.push(dk[i]);
        i = i + 1;
    }
    let pem = pem_encode("ML-KEM-1024 PUBLIC KEY", ek.as_slice());
    if nopemhead {
        Ok(strip_pem_headers(pem.as_str()))
    } else {
        Ok(pem)
    }
}

/// The salt of a private key file's payload, which the hardware token is
/// challenged with.
pub fn private_key_salt(priv_key_pem: &str) -> (r: Result<[u8; 16], String>)
    ensures
        match spec_parse_key_blob(priv_key_pem@) {
            Err(m) => r matches Err(s) && s@ == m,
            Ok(p) => if p.len() < 44 {
                r matches Err(s) && s@ == UnlockError::PayloadTooSmall.spec_message()
            } else {
                r matches Ok(salt) && salt@ == p.subrange(0, 16)
            },
        },
{
    let payload = match parse_key_blob(priv_key_pem) {
        Ok(p) => p,
        Err(e) => {
            return Err(String::from_str(e));
        },
    };
    if payload.len() < 44 {
        return Err(String::from_str(UnlockError::PayloadTooSmall.message()));
    }
    let mut salt = [0u8; 16];
    let mut i: usize = 0;
    while i < 16
        invariant
            i <= 16,
            payload@.len() >= 44,
            forall|t: int| 0 <= t < i ==> salt@[t] == payload@[t],
        decreases 16 - i,
    {
        salt[i] = payload[i];
        i = i + 1;
    }
    assert(salt@ =~= payload@.subrange(0, 16));
    Ok(salt)
}

pub(crate) proof fn lemma_armour_trim_prefix(pem: Seq<char>)
    requires
        pem.len() > 11,
        pem.take(10) == pem_begin(),
    ensures
        spec_starts_with(spec_trim(pem), pem_begin()),
{
    lemma_trim_start_skip(pem);
    assert(pem.take(10)[0] == '-');
    assert(!is_unicode_whitespace(pem[0]));
    assert(leading_ws(pem) == 0);
    assert(pem.skip(0) =~= pem);
    lemma_trim_end_take(pem);
    let t = trailing_ws(pem);
    assert(pem.take(10)[9] == 'N');
    assert(!is_unicode_whitespace(pem[9]));
    assert(9 < pem.len() - t);
    let tr = spec_trim(pem);
    assert(tr == pem.take(pem.len() - t));
    assert(tr.take(10) =~= pem.take(10));
}

/// Recovering the public key from a generated private key file, armoured
/// or stealth, with the secret it was generated under, gives the generated
/// public key file.
pub proof fn lemma_recover_generated(
    priv_file: Seq<char>,
    pub_file: Seq<char>,
    entropy: Seq<u8>,
    salt: Seq<u8>,
    nopemhead: bool,
)
    requires
        salt.len() == 16,
        entropy.len() <= 0xFFFF_FFFF,
        generated_key_files(priv_file, pub_file, entropy, salt, nopemhead),
    ensures
        spec_recover_public_key(priv_file, entropy, nopemhead) == Ok::<Seq<char>, Seq<char>>(pub_file),
{
    let (dk, ek, nonce) = choose|dk: Seq<u8>, ek: Seq<u8>, nonce: Seq<u8>|
        key_files_of(priv_file, pub_file, entropy, salt, nopemhead, dk, ek, nonce);
    let payload = spec_wrapped_key(dk, entropy, salt, nonce);
    let pem = pem_text(private_key_tag(), payload);
    lemma_key_file_reads_back(pem, private_key_tag(), payload, nopemhead);
    assert(spec_parse_key_blob(priv_file) == Ok::<Seq<u8>, Seq<char>>(payload));
    lemma_unlock_wrapped(dk, entropy, salt, nonce);
}

/// A generated public key file, armoured or stealth, reads back to a
/// 1568-byte ML-KEM-1024 encapsulation key: encryption accepts it.
pub proof fn lemma_generated_public_key_reads_back(
    priv_file: Seq<char>,
    pub_file: Seq<char>,
    entropy: Seq<u8>,
    salt: Seq<u8>,
    nopemhead: bool,
)
    requires
        generated_key_files(priv_file, pub_file, entropy, salt, nopemhead),
    ensures
        spec_parse_key_blob(pub_file) matches Ok(k) && k.len() == mlkem_ek_len(),
{
    let (dk, ek, nonce) = choose|dk: Seq<u8>, ek: Seq<u8>, nonce: Seq<u8>|
        key_files_of(priv_file, pub_file, entropy, salt, nopemhead, dk, ek, nonce);
    lemma_key_file_reads_back(pem_text(public_key_tag(), ek), public_key_tag(), ek, nopemhead);
}

} // verus!
