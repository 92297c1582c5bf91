//! Key material derived from a passphrase or from a hardware token's
//! HMAC-SHA1 response: the 20-byte secret that is programmed into a token,
//! and the deterministic Ethereum signing key.

use vstd::prelude::*;
use vstd::string::StringExecFns;
use vstd::utf8::encode_utf8;
use crate::encoding::{spec_hex, hex_chars, string_from_chars};
use crate::primitives::{argon2id, argon2id_derive, valid_secret_scalar, secret_key_is_valid,
    random_secret_key};
use crate::text::{push_str_chars, push_chars, str_chars};

verus! {

/// Shortest passphrase accepted, in characters.
pub const MIN_PASSPHRASE_CHARS: usize = 16;

/// Largest password and salt that Argon2 accepts, in bytes.
pub open spec fn argon2_max_len() -> int {
    0xFFFF_FFFF
}

/// The fixed salt of the token-secret derivation: "qcrypt_yubi_salt".
pub open spec fn hmac_secret_salt() -> Seq<u8> {
    seq![
        113u8, 99u8, 114u8, 121u8, 112u8, 116u8, 95u8, 121u8, 117u8, 98u8, 105u8, 95u8, 115u8,
        97u8, 108u8, 116u8,
    ]
}

/// The rejection of a passphrase shorter than 16 characters.
pub open spec fn short_passphrase_error() -> Seq<char> {
    "Passphrase rejected: Must be at least 16 characters."@
}

/// The 20-byte HMAC-SHA1 secret for a hardware token, derived from
/// `passphrase` with Argon2id under the fixed salt. A passphrase shorter
/// than 16 characters is rejected.
pub fn derive_hmac_secret(passphrase: &str) -> (r: Result<Vec<u8>, String>)
    requires
        encode_utf8(passphrase@).len() <= argon2_max_len(),
    ensures
        r is Err <==> passphrase@.len() < 16,
        r matches Err(e) ==> e@ == short_passphrase_error(),
        r matches Ok(k) ==> k@ == argon2id(encode_utf8(passphrase@), hmac_secret_salt(), 20),
        r matches Ok(k) ==> k@.len() == 20,
{
    let bytes = passphrase.as_bytes();
    if str_chars(passphrase).len() < MIN_PASSPHRASE_CHARS {
        return Err(String::from_str("Passphrase rejected: Must be at least 16 characters."));
    }
    let salt: [u8; 16] = [
        113u8, 99u8, 114u8, 121u8, 112u8, 116u8, 95u8, 121u8, 117u8, 98u8, 105u8, 95u8, 115u8,
        97u8, 108u8, 116u8,
    ];
    assert(salt@ == hmac_secret_salt());
    match argon2id_derive(bytes, &salt, 20) {
        Some(k) => Ok(k),
        None => {
            assert(false);
            Err(String::from_str("Argon2id derivation failed"))
        },
    }
}

/// The lowercase hex text of a token secret, as written for `ykman`.
pub fn hmac_secret_hex(secret: &[u8]) -> (r: String)
    requires
        secret@.len() <= 64,
    ensures
        r@ == spec_hex(secret@),
{
    let h = hex_chars(secret);
    string_from_chars(h.as_slice())
}

// ─── Deterministic Ethereum keys ─────────────────────────────────

/// The Argon2 salt of the Ethereum-key derivation: the salt phrase's bytes,
/// zero-padded to the 8 bytes that Argon2 requires.
pub open spec fn eth_key_salt(salt: Seq<u8>) -> Seq<u8> {
    if salt.len() < 8 {
        salt + Seq::new((8 - salt.len()) as nat, |i: int| 0u8)
    } else {
        salt
    }
}

/// The challenge sent to the hardware token: the salt phrase's bytes, cut
/// to the token's 64-byte challenge limit.
pub open spec fn eth_key_challenge(salt: Seq<u8>) -> Seq<u8> {
    if salt.len() > 64 {
        salt.take(64)
    } else {
        salt
    }
}

/// The error text of a failed Argon2 derivation.
pub open spec fn argon2_error(reason: Seq<char>) -> Seq<char> {
    "Argon2id derivation failed: "@ + reason
}

/// The error text when the derived bytes are not a valid secp256k1 key.
pub open spec fn invalid_scalar_error() -> Seq<char> {
    "Invalid scalar generated: malformed or out-of-range secret key"@
}

/// The key derived from `input` (the passphrase's bytes or the token's
/// response) and the salt phrase's bytes: Argon2id to 32 bytes, which must
/// form a valid secp256k1 secret key.
pub open spec fn spec_eth_key_from(input: Seq<u8>, salt: Seq<u8>) -> Result<Seq<u8>, Seq<char>> {
    if input.len() > argon2_max_len() {
        Err(argon2_error("password is too long"@))
    } else if salt.len() > argon2_max_len() {
        Err(argon2_error("salt is too long"@))
    } else if valid_secret_scalar(argon2id(input, eth_key_salt(salt), 32)) {
        Ok(argon2id(input, eth_key_salt(salt), 32))
    } else {
        Err(invalid_scalar_error())
    }
}

/// The deterministic Ethereum key: from the token's response when there is
/// one, else from the passphrase, which must be given and be at least 16
/// characters long.
pub open spec fn spec_derive_eth_key(
    passphrase: Option<Seq<char>>,
    hardware_response: Option<Seq<u8>>,
    salt: Seq<char>,
) -> Result<Seq<u8>, Seq<char>> {
    match hardware_response {
        Some(resp) => spec_eth_key_from(resp, encode_utf8(salt)),
        None => match passphrase {
            None => Err("Passphrase required for deterministic derivation"@),
            Some(p) => if p.len() < 16 {
                Err(short_passphrase_error())
            } else {
                spec_eth_key_from(encode_utf8(p), encode_utf8(salt))
            },
        },
    }
}

/// The Argon2 salt of the Ethereum-key derivation is the whole salt: a salt
/// of eight bytes or more is used as it is (every byte counts, so salts
/// that differ anywhere give different Argon2 salts); a shorter one is
/// followed by zero bytes up to eight.
pub proof fn lemma_eth_key_salt_is_whole(salt: Seq<u8>, other: Seq<u8>)
    ensures
        salt.len() >= 8 ==> eth_key_salt(salt) == salt,
        salt.len() < 8 ==> eth_key_salt(salt).len() == 8 && eth_key_salt(salt).take(salt.len() as int) == salt
            && forall|i: int| salt.len() <= i < 8 ==> eth_key_salt(salt)[i] == 0u8,
        salt.len() >= 8 && other.len() >= 8 && salt != other ==> eth_key_salt(salt) != eth_key_salt(other),
{
    if salt.len() < 8 {
        assert(eth_key_salt(salt).take(salt.len() as int) =~= salt);
    }
}

/// A key derived from a passphrase (of at least 16 characters) and a salt
/// phrase of at least eight bytes is Argon2id of the passphrase's bytes
/// under the salt phrase's whole bytes, 32 bytes long, when that is a valid
/// secp256k1 secret key; a token's response is used the same way.
pub proof fn lemma_eth_key_uses_whole_salt(p: Seq<char>, resp: Seq<u8>, salt: Seq<char>)
    requires
        encode_utf8(salt).len() >= 8,
        encode_utf8(salt).len() <= argon2_max_len(),
        encode_utf8(p).len() <= argon2_max_len(),
        resp.len() <= argon2_max_len(),
    ensures
        p.len() >= 16 ==> spec_derive_eth_key(Some(p), None, salt) == if valid_secret_scalar(
            argon2id(encode_utf8(p), encode_utf8(salt), 32),
        ) {
            Ok::<Seq<u8>, Seq<char>>(argon2id(encode_utf8(p), encode_utf8(salt), 32))
        } else {
            Err::<Seq<u8>, Seq<char>>(invalid_scalar_error())
        },
        spec_derive_eth_key(None, Some(resp), salt) == if valid_secret_scalar(argon2id(resp, encode_utf8(salt), 32)) {
            Ok::<Seq<u8>, Seq<char>>(argon2id(resp, encode_utf8(salt), 32))
        } else {
            Err::<Seq<u8>, Seq<char>>(invalid_scalar_error())
        },
{
    lemma_eth_key_salt_is_whole(encode_utf8(salt), encode_utf8(salt));
}

/// The view of a key-derivation result.
pub open spec fn key_result_view(r: Result<[u8; 32], String>) -> Result<Seq<u8>, Seq<char>> {
    match r {
        Ok(k) => Ok(k@),
        Err(e) => Err(e@),
    }
}

/// The challenge to send to the hardware token for the salt phrase `salt`.
pub fn yubikey_eth_challenge(salt: &str) -> (r: Vec<u8>)
    ensures
        r@ == eth_key_challenge(encode_utf8(salt@)),
{
    let b = salt.as_bytes();
    let n: usize = if b.len() > 64 { 64 } else { b.len() };
    let mut out: Vec<u8> = Vec::new();
    let mut i: usize = 0;
    while i < n
        invariant
            n <= b@.len(),
            i <= n,
            out@ =~= b@.take(i as int),
        decreases n - i,
    {
        out.push(b[i]);
        i = i + 1;
    }
    assert(b@.take(b@.len() as int) =~= b@);
    out
}

fn argon2_failure(reason: &str) -> (r: String)
    ensures
        r@ == argon2_error(reason@),
{
    let mut out: Vec<char> = Vec::new();
    push_str_chars(&mut out, "Argon2id derivation failed: ");
    push_str_chars(&mut out, reason);
    string_from_chars(out.as_slice())
}

fn eth_key_from(input: &[u8], salt: &[u8]) -> (r: Result<[u8; 32], String>)
    ensures
        key_result_view(r) == spec_eth_key_from(input@, salt@),
{
    if input.len() > 0xFFFF_FFFF {
        return Err(argon2_failure("password is too long"));
    }
    if salt.len() > 0xFFFF_FFFF {
        return Err(argon2_failure("salt is too long"));
    }
    let mut padded: Vec<u8> = Vec::new();
    padded.extend_from_slice(salt);
    while padded.len() < 8
        invariant
            salt@.len() <= 0xFFFF_FFFF,
            padded@.len() <= 8 || padded@ == salt@,
            padded@ =~= salt@ + Seq::new((padded@.len() - salt@.len()) as nat, |i: int| 0u8),
            padded@.len() >= salt@.len(),
        decreases 8 - padded@.len(),
    {
        padded.push(0u8);
    }
    assert(padded@ =~= eth_key_salt(salt@));
    let material = match argon2id_derive(input, padded.as_slice(), 32) {
        Some(k) => k,
        None => {
            assert(false);
            return Err(String::from_str("Argon2id derivation failed"));
        },
    };
    let mut key: [u8; 32] = [0u8; 32];
    let mut i: usize = 0;
    while i < 32
        invariant
            material@.len() == 32,
            i <= 32,
            forall|j: int| 0 <= j < i ==> key@[j] == material@[j],
        decreases 32 - i,
    {
        key[i] = material[i];
        i = i + 1;
    }
    assert(key@ =~= material@);
    if secret_key_is_valid(&key) {
        Ok(key)
    } else {
        Err(String::from_str("Invalid scalar generated: malformed or out-of-range secret key"))
    }
}

/// Derives the deterministic Ethereum signing key from the salt phrase and
/// either the hardware token's response to [`yubikey_eth_challenge`] (when
/// given) or the passphrase.
pub fn derive_eth_key(passphrase: Option<&str>, hardware_response: Option<&[u8]>, salt: &str) -> (r: Result<[u8; 32], String>)
    ensures
        key_result_view(r) == spec_derive_eth_key(
            match passphrase {
                Some(p) => Some(p@),
                None => None,
            },
            match hardware_response {
                Some(h) => Some(h@),
                None => None,
            },
            salt@,
        ),
{
    let salt_bytes = salt.as_bytes();
    match hardware_response {
        Some(resp) => eth_key_from(resp, salt_bytes),
        None => match passphrase {
            None => Err(String::from_str("Passphrase required for deterministic derivation")),
            Some(p) => {
                let pb = p.as_bytes();
                if str_chars(p).len() < MIN_PASSPHRASE_CHARS {
                    Err(String::from_str("Passphrase rejected: Must be at least 16 characters."))
                } else {
                    eth_key_from(pb, salt_bytes)
                }
            },
        },
    }
}

/// "0x" followed by the lowercase hex of a secret key: the form in which
/// Ethereum keys are written and read back.
pub fn eth_key_hex(sk: &[u8; 32]) -> (r: String)
    ensures
        r@ == "0x"@ + spec_hex(sk@),
{
    let h = hex_chars(sk);
    let mut out: Vec<char> = Vec::new();
    push_str_chars(&mut out, "0x");
    push_chars(&mut out, h.as_slice());
    string_from_chars(out.as_slice())
}

/// A fresh random Ethereum signing key.
pub fn generate_eth_key() -> (r: [u8; 32])
    ensures
        valid_secret_scalar(r@),
{
    random_secret_key()
}

} // verus!
