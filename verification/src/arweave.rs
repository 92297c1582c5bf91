//! Arweave ANS-104 data items signed with an Ethereum (secp256k1) key, for
//! upload through the Irys bundler: the SHA-384 deep hash, the Ethereum
//! signed-message hash, the data-item layout, the Irys account address and
//! the responses of the Irys service.

use vstd::prelude::*;
use vstd::string::StringExecFns;
use crate::encoding::{spec_decimal, decimal_ascii, spec_hex, hex_chars, spec_hex_decode, HEX_LOWER,
    is_hex_digit, hex_digit_value,
    string_from_chars, spec_decimal_chars, decimal_chars, spec_parse_u64, parse_u64, bytes_from};
use crate::primitives::{sha384, sha384hash, keccak256, keccak256_digest, valid_secret_hex, valid_secret_scalar,
    secret_key_from_hex, secp256k1_public_key, secp256k1_public_key_of,
    secp256k1_recoverable_signature, secp256k1_sign_recoverable};
use crate::text::{spec_trim, trim_chars, str_chars, chars_from, spec_after_first, after_first,
    spec_before_char, prefix_before_char, spec_after_last, after_last, push_str_chars, push_chars,
    spec_contains, is_unicode_whitespace, leading_ws, trailing_ws, lemma_trim_start_skip,
    lemma_trim_end_take};

verus! {

/// A node of the structure the deep hash runs over: a byte string or a list.
pub enum DeepHashChunk {
    Chunk(Vec<u8>),
    Chunks(Vec<DeepHashChunk>),
}

/// "blob" followed by the decimal length: the tag of a byte string.
pub open spec fn blob_tag(len: nat) -> Seq<u8> {
    seq![98u8, 108u8, 111u8, 98u8] + spec_decimal(len)
}

/// "list" followed by the decimal length: the tag of a list.
pub open spec fn list_tag(len: nat) -> Seq<u8> {
    seq![108u8, 105u8, 115u8, 116u8] + spec_decimal(len)
}

/// Deep hash of a byte string: SHA-384(SHA-384(tag) || SHA-384(bytes)).
pub open spec fn blob_hash(b: Seq<u8>) -> Seq<u8> {
    sha384(sha384(blob_tag(b.len())) + sha384(b))
}

/// The ANS-104 deep hash: a byte string hashes to
/// SHA-384(SHA-384(tag) || SHA-384(bytes)); a list folds its items' deep
/// hashes into SHA-384 of its tag, one SHA-384(acc || item) at a time.
pub open spec fn spec_deep_hash(c: DeepHashChunk) -> Seq<u8>
    decreases c, 0nat,
{
    match c {
        DeepHashChunk::Chunk(b) => blob_hash(b@),
        DeepHashChunk::Chunks(cs) => spec_deep_hash_fold(cs, 0, sha384(list_tag(cs@.len()))),
    }
}

/// Folding the items of `cs` from index `i` into `acc`.
pub open spec fn spec_deep_hash_fold(cs: Vec<DeepHashChunk>, i: int, acc: Seq<u8>) -> Seq<u8>
    decreases cs, cs@.len() - i,
{
    if 0 <= i < cs@.len() {
        spec_deep_hash_fold(cs, i + 1, sha384(acc + spec_deep_hash(cs@[i])))
    } else {
        acc
    }
}


/// The tag bytes: `prefix` followed by the decimal digits of `n`.
fn tag_bytes(prefix: [u8; 4], n: usize) -> (r: Vec<u8>)
    ensures
        r@ == prefix@ + spec_decimal(n as nat),
{
    let mut v: Vec<u8> = Vec::new();
    v.extend_from_slice(&prefix);
    let d = decimal_ascii(n as u64);
    v.extend_from_slice(d.as_slice());
    v
}

/// Deep hash of a borrowed node.
fn deep_hash_of(c: &DeepHashChunk) -> (r: Vec<u8>)
    ensures
        r@ == spec_deep_hash(*c),
        r@.len() == 48,
    decreases c, 0nat,
{
    match c {
        DeepHashChunk::Chunk(b) => {
            let tag = tag_bytes([98u8, 108u8, 111u8, 98u8], b.len());
            assert(tag@ == blob_tag(b@.len()));
            let mut cat = sha384hash(tag.as_slice());
            let hb = sha384hash(b.as_slice());
            cat.extend_from_slice(hb.as_slice());
            assert(cat@ == sha384(blob_tag(b@.len())) + sha384(b@));
            assert(spec_deep_hash(*c) == blob_hash(b@));
            sha384hash(cat.as_slice())
        },
        DeepHashChunk::Chunks(cs) => {
            let tag = tag_bytes([108u8, 105u8, 115u8, 116u8], cs.len());
            assert(tag@ == list_tag(cs@.len()));
            let acc = sha384hash(tag.as_slice());
            fold_deep_hashes(cs, 0, acc)
        },
    }
}

/// The value of ASCII decimal digits, most significant first.
pub open spec fn ascii_digits_value(d: Seq<u8>) -> int
    decreases d.len(),
{
    if d.len() == 0 {
        0
    } else {
        ascii_digits_value(d.drop_last()) * 10 + (d.last() - 48)
    }
}

/// `d` is the usual decimal writing of `n`: ASCII digits, most significant
/// first, no leading zero.
pub open spec fn is_decimal_text(d: Seq<u8>, n: nat) -> bool {
    &&& d.len() > 0
    &&& forall|i: int| 0 <= i < d.len() ==> 48 <= #[trigger] d[i] <= 57
    &&& (d.len() > 1 ==> d[0] != 48)
    &&& ascii_digits_value(d) == n
}

proof fn lemma_decimal_text(n: nat)
    ensures
        is_decimal_text(spec_decimal(n), n),
        n >= 1 ==> spec_decimal(n)[0] != 48,
    decreases n,
{
    let d = spec_decimal(n);
    if n < 10 {
        assert(d.drop_last() =~= Seq::<u8>::empty());
        assert(ascii_digits_value(d.drop_last()) == 0);
        assert(d.last() == (48 + n) as u8);
        assert(ascii_digits_value(d) == n);
    } else {
        let q = n / 10;
        let r = n % 10;
        lemma_decimal_text(q);
        assert(d.drop_last() =~= spec_decimal(q));
        assert(d.last() == (48 + r) as u8);
        assert(q * 10 + r == n) by (nonlinear_arith)
            requires
                q == n / 10,
                r == n % 10,
        ;
        assert(q >= 1);
        assert(r < 10);
        assert(ascii_digits_value(d) == ascii_digits_value(spec_decimal(q)) * 10 + r);
        assert(d[0] == spec_decimal(q)[0]);
        assert forall|i: int| 0 <= i < d.len() implies 48 <= #[trigger] d[i] <= 57 by {
            if i < d.len() - 1 {
                assert(d[i] == spec_decimal(q)[i]);
            }
        }
    }
}

/// The deep hash of a byte string `b`: SHA-384 of SHA-384 of its tag and
/// SHA-384 of `b`, where the tag is "blob" followed by the length of `b` in
/// the usual decimal writing (most significant digit first, no leading
/// zero), as Arweave computes it.
pub proof fn lemma_blob_deep_hash(b: Vec<u8>)
    ensures
        spec_deep_hash(DeepHashChunk::Chunk(b)) == sha384(sha384(blob_tag(b@.len())) + sha384(b@)),
        blob_tag(b@.len()).take(4) == seq![98u8, 108u8, 111u8, 98u8],
        is_decimal_text(blob_tag(b@.len()).skip(4), b@.len()),
{
    lemma_decimal_text(b@.len());
    assert(blob_tag(b@.len()).take(4) =~= seq![98u8, 108u8, 111u8, 98u8]);
    assert(blob_tag(b@.len()).skip(4) =~= spec_decimal(b@.len()));
}

/// The tag of a list of `n` items is "list" followed by `n` in the usual
/// decimal writing.
pub proof fn lemma_list_tag(n: nat)
    ensures
        list_tag(n).take(4) == seq![108u8, 105u8, 115u8, 116u8],
        is_decimal_text(list_tag(n).skip(4), n),
{
    lemma_decimal_text(n);
    assert(list_tag(n).take(4) =~= seq![108u8, 105u8, 115u8, 116u8]);
    assert(list_tag(n).skip(4) =~= spec_decimal(n));
}

/// Folds the deep hashes of `cs[i..]` into `acc`.
fn fold_deep_hashes(cs: &Vec<DeepHashChunk>, i: usize, acc: Vec<u8>) -> (r: Vec<u8>)
    ensures
        r@ == spec_deep_hash_fold(*cs, i as int, acc@),
        i < cs@.len() || acc@.len() == 48 ==> r@.len() == 48,
    decreases cs, cs@.len() - i,
{
    if i < cs.len() {
        let h = deep_hash_of(&cs[i]);
        let ghost acc0 = acc@;
        let mut cat = acc;
        cat.extend_from_slice(h.as_slice());
        assert(cat@ == acc0 + spec_deep_hash(cs@[i as int]));
        let next = sha384hash(cat.as_slice());
        assert(spec_deep_hash_fold(*cs, i as int, acc0)
            == spec_deep_hash_fold(*cs, i + 1, sha384(acc0 + spec_deep_hash(cs@[i as int]))));
        fold_deep_hashes(cs, i + 1, next)
    } else {
        acc
    }
}

/// The ANS-104 deep hash of `chunk` (48 bytes of SHA-384 output).
pub fn deep_hash_sync(chunk: DeepHashChunk) -> (r: Vec<u8>)
    ensures
        r@ == spec_deep_hash(chunk),
        r@.len() == 48,
{
    deep_hash_of(&chunk)
}

/// Folds the deep hashes of `chunks`, in order, into the accumulator `acc`.
pub fn deep_hash_chunks_sync(chunks: Vec<DeepHashChunk>, acc: Vec<u8>) -> (r: Vec<u8>)
    ensures
        r@ == spec_deep_hash_fold(chunks, 0, acc@),
        chunks@.len() > 0 || acc@.len() == 48 ==> r@.len() == 48,
{
    fold_deep_hashes(&chunks, 0, acc)
}

proof fn lemma_fold_suffix(c: Vec<DeepHashChunk>, b: Vec<DeepHashChunk>, off: int, j: int, x: Seq<u8>)
    requires
        0 <= off,
        0 <= j <= b@.len(),
        c@.len() == off + b@.len(),
        forall|t: int| 0 <= t < b@.len() ==> c@[off + t] == b@[t],
    ensures
        spec_deep_hash_fold(c, off + j, x) == spec_deep_hash_fold(b, j, x),
    decreases b@.len() - j,
{
    if j < b@.len() {
        assert(c@[off + j] == b@[j]);
        lemma_fold_suffix(c, b, off, j + 1, sha384(x + spec_deep_hash(b@[j])));
        assert(off + j + 1 == off + (j + 1));
    }
}

proof fn lemma_fold_prefix(c: Vec<DeepHashChunk>, a: Vec<DeepHashChunk>, i: int, acc: Seq<u8>)
    requires
        0 <= i <= a@.len(),
        a@.len() <= c@.len(),
        forall|t: int| 0 <= t < a@.len() ==> c@[t] == a@[t],
    ensures
        spec_deep_hash_fold(c, i, acc) == spec_deep_hash_fold(c, a@.len() as int, spec_deep_hash_fold(a, i, acc)),
    decreases a@.len() - i,
{
    if i < a@.len() {
        assert(c@[i] == a@[i]);
        lemma_fold_prefix(c, a, i + 1, sha384(acc + spec_deep_hash(a@[i])));
    }
}

/// Folding a list of nodes in two parts: the deep hashes of `a` followed by
/// `b`, folded into `acc`, are those of `b` folded into the result of
/// folding `a`; folding one node into `acc` is SHA-384 of `acc` and that
/// node's deep hash.
pub proof fn lemma_deep_hash_fold_concat(a: Vec<DeepHashChunk>, b: Vec<DeepHashChunk>, c: Vec<DeepHashChunk>, acc: Seq<u8>)
    requires
        c@ == a@ + b@,
    ensures
        spec_deep_hash_fold(c, 0, acc) == spec_deep_hash_fold(b, 0, spec_deep_hash_fold(a, 0, acc)),
        a@.len() == 1 ==> spec_deep_hash_fold(a, 0, acc) == sha384(acc + spec_deep_hash(a@[0])),
{
    assert forall|t: int| 0 <= t < a@.len() implies c@[t] == a@[t] by {}
    lemma_fold_prefix(c, a, 0, acc);
    assert forall|t: int| 0 <= t < b@.len() implies c@[a@.len() + t] == b@[t] by {}
    lemma_fold_suffix(c, b, a@.len() as int, 0, spec_deep_hash_fold(a, 0, acc));
    if a@.len() == 1 {
        assert(spec_deep_hash_fold(a, 0, acc) == spec_deep_hash_fold(a, 1, sha384(acc + spec_deep_hash(a@[0]))));
    }
}

// ─── Lists of byte strings ──────────────────────────────────────

/// Folding the blob hashes of `items` from index `i` into `acc`.
pub open spec fn blob_list_fold(items: Seq<Seq<u8>>, i: int, acc: Seq<u8>) -> Seq<u8>
    decreases items.len() - i,
{
    if 0 <= i < items.len() {
        blob_list_fold(items, i + 1, sha384(acc + blob_hash(items[i])))
    } else {
        acc
    }
}

/// Deep hash of a list whose items are all byte strings.
pub open spec fn blob_list_hash(items: Seq<Seq<u8>>) -> Seq<u8> {
    blob_list_fold(items, 0, sha384(list_tag(items.len())))
}

/// `c` is the byte-string node holding `b`.
pub open spec fn is_blob(c: DeepHashChunk, b: Seq<u8>) -> bool {
    match c {
        DeepHashChunk::Chunk(v) => v@ == b,
        DeepHashChunk::Chunks(_) => false,
    }
}

proof fn lemma_blob_list_fold(cs: Vec<DeepHashChunk>, items: Seq<Seq<u8>>, i: int, acc: Seq<u8>)
    requires
        cs@.len() == items.len(),
        0 <= i,
        forall|k: int| 0 <= k < items.len() ==> is_blob(#[trigger] cs@[k], items[k]),
    ensures
        spec_deep_hash_fold(cs, i, acc) == blob_list_fold(items, i, acc),
    decreases items.len() - i,
{
    if i < items.len() {
        assert(is_blob(cs@[i], items[i]));
        assert(spec_deep_hash(cs@[i]) == blob_hash(items[i]));
        lemma_blob_list_fold(cs, items, i + 1, sha384(acc + blob_hash(items[i])));
    }
}

/// A node holding a copy of `b`.
fn blob(b: &[u8]) -> (c: DeepHashChunk)
    ensures
        is_blob(c, b@),
{
    let mut v: Vec<u8> = Vec::new();
    v.extend_from_slice(b);
    assert(v@ =~= b@);
    DeepHashChunk::Chunk(v)
}

// ─── Ethereum signed messages ────────────────────────────────────

/// "\x19Ethereum Signed Message:\n", the prefix of an Ethereum signed message.
pub open spec fn eth_message_prefix() -> Seq<u8> {
    seq![
        0x19u8, 69u8, 116u8, 104u8, 101u8, 114u8, 101u8, 117u8, 109u8, 32u8, 83u8, 105u8, 103u8,
        110u8, 101u8, 100u8, 32u8, 77u8, 101u8, 115u8, 115u8, 97u8, 103u8, 101u8, 58u8, 10u8,
    ]
}

/// The EIP-191 message that is hashed for `msg`: the prefix, the decimal
/// length of `msg`, then `msg`.
pub open spec fn spec_eth_message(msg: Seq<u8>) -> Seq<u8> {
    eth_message_prefix() + spec_decimal(msg.len()) + msg
}

/// Keccak-256 of the EIP-191 signed-message form of `msg`.
pub fn eth_hash_message(msg: &[u8]) -> (r: [u8; 32])
    ensures
        r@ == keccak256(spec_eth_message(msg@)),
{
    let prefix: [u8; 26] = [
        0x19u8, 69u8, 116u8, 104u8, 101u8, 114u8, 101u8, 117u8, 109u8, 32u8, 83u8, 105u8, 103u8,
        110u8, 101u8, 100u8, 32u8, 77u8, 101u8, 115u8, 115u8, 97u8, 103u8, 101u8, 58u8, 10u8,
    ];
    let mut data: Vec<u8> = Vec::new();
    data.extend_from_slice(&prefix);
    let d = decimal_ascii(msg.len() as u64);
    data.extend_from_slice(d.as_slice());
    data.extend_from_slice(msg);
    assert(data@ == spec_eth_message(msg@));
    keccak256_digest(data.as_slice())
}

// ─── ANS-104 data items ──────────────────────────────────────────

/// The fields of a data item that are deep-hashed and signed: "dataitem",
/// format "1", signature type "3", the owner key, empty target, anchor and
/// tags, then the data.
pub open spec fn dataitem_fields(owner: Seq<u8>, data: Seq<u8>) -> Seq<Seq<u8>> {
    seq![
        seq![100u8, 97u8, 116u8, 97u8, 105u8, 116u8, 101u8, 109u8],
        seq![49u8],
        seq![51u8],
        owner,
        Seq::<u8>::empty(),
        Seq::<u8>::empty(),
        Seq::<u8>::empty(),
        data,
    ]
}

/// The 32-byte digest that an Ethereum owner signs for a data item.
pub open spec fn dataitem_digest(owner: Seq<u8>, data: Seq<u8>) -> Seq<u8> {
    keccak256(spec_eth_message(blob_list_hash(dataitem_fields(owner, data))))
}

/// The binary ANS-104 data item for `data` signed with the secret key `sk`:
/// signature type 3 (u16, little endian), the 65-byte signature r || s || v
/// with v = recovery id + 27, the 65-byte uncompressed owner key, no target,
/// no anchor, zero tags (u64 count and u64 byte length, both zero), data.
pub open spec fn spec_dataitem(sk: Seq<u8>, data: Seq<u8>) -> Seq<u8> {
    let owner = secp256k1_public_key(sk);
    let sig = secp256k1_recoverable_signature(dataitem_digest(owner, data), sk);
    seq![3u8, 0u8] + sig.0 + seq![(sig.1 + 27) as u8] + owner + Seq::new(18, |i: int| 0u8) + data
}

/// `s` with every leading "0x" removed (`trim_start_matches("0x")`).
pub open spec fn strip_hex_prefixes(s: Seq<char>) -> Seq<char>
    decreases s.len(),
{
    if s.len() >= 2 && s[0] == '0' && s[1] == 'x' {
        strip_hex_prefixes(s.skip(2))
    } else {
        s
    }
}

/// The secret-key text as it is read: leading "0x"s removed, then trimmed.
pub open spec fn clean_eth_key(s: Seq<char>) -> Seq<char> {
    spec_trim(strip_hex_prefixes(s))
}

/// The text of the secp256k1 crate's invalid-secret-key error.
pub open spec fn secret_key_error() -> Seq<char> {
    "malformed or out-of-range secret key"@
}

fn strip_hex_prefix_chars(s: &[char]) -> (r: Vec<char>)
    ensures
        r@ == strip_hex_prefixes(s@),
{
    let n = s.len();
    let mut i: usize = 0;
    assert(s@.skip(0) =~= s@);
    while n - i >= 2 && s[i] == '0' && s[i + 1] == 'x'
        invariant
            n == s@.len(),
            i <= n,
            strip_hex_prefixes(s@) == strip_hex_prefixes(s@.skip(i as int)),
        decreases n - i,
    {
        proof {
            let t = s@.skip(i as int);
            assert(t[0] == s@[i as int]);
            assert(t[1] == s@[i + 1]);
            assert(t.skip(2) =~= s@.skip(i + 2));
        }
        i = i + 2;
    }
    proof {
        let t = s@.skip(i as int);
        if t.len() >= 2 {
            assert(t[0] == s@[i as int]);
            assert(t[1] == s@[i + 1]);
        }
    }
    chars_from(s, i)
}

/// The 32 secret-key bytes spelled by `eth_key_hex` once cleaned, when they
/// form a valid secp256k1 key.
fn read_eth_key(eth_key_hex: &str) -> (r: Option<[u8; 32]>)
    ensures
        r is Some <==> valid_secret_hex(clean_eth_key(eth_key_hex@)),
        r matches Some(k) ==> k@ == spec_hex_decode(clean_eth_key(eth_key_hex@)),
{
    let chars = str_chars(eth_key_hex);
    let stripped = strip_hex_prefix_chars(chars.as_slice());
    let clean = trim_chars(stripped.as_slice());
    let clean_str = string_from_chars(clean.as_slice());
    secret_key_from_hex(clean_str.as_str())
}

/// Builds and signs the ANS-104 data item carrying `data` with the Ethereum
/// key `eth_key_hex` (hex, leading "0x"s and surrounding whitespace
/// ignored). Fails, with the secp256k1 crate's message, exactly when the
/// cleaned text is not 64 hex digits spelling a valid secret key.
pub fn sign_and_build_dataitem(data: &[u8], eth_key_hex: &str) -> (r: Result<Vec<u8>, String>)
    ensures
        match r {
            Ok(item) => valid_secret_hex(clean_eth_key(eth_key_hex@)) && item@ == spec_dataitem(
                spec_hex_decode(clean_eth_key(eth_key_hex@)),
                data@,
            ),
            Err(e) => !valid_secret_hex(clean_eth_key(eth_key_hex@)) && e@ == secret_key_error(),
        },
{
    let sk = match read_eth_key(eth_key_hex) {
        Some(k) => k,
        None => {
            return Err(String::from_str("malformed or out-of-range secret key"));
        },
    };
    let owner = secp256k1_public_key_of(&sk);
    let ghost fields = dataitem_fields(owner@, data@);
    let tag: [u8; 8] = [100u8, 97u8, 116u8, 97u8, 105u8, 116u8, 101u8, 109u8];
    let format: [u8; 1] = [49u8];
    let sig_type: [u8; 1] = [51u8];
    let empty: [u8; 0] = [];
    let c0 = blob(&tag);
    let c1 = blob(&format);
    let c2 = blob(&sig_type);
    let c3 = blob(&owner);
    let c4 = blob(&empty);
    let c5 = blob(&empty);
    let c6 = blob(&empty);
    let c7 = blob(data);
    let ghost gs = seq![c0, c1, c2, c3, c4, c5, c6, c7];
    let mut chunks: Vec<DeepHashChunk> = Vec::new();
    chunks.push(c0);
    chunks.push(c1);
    chunks.push(c2);
    chunks.push(c3);
    chunks.push(c4);
    chunks.push(c5);
    chunks.push(c6);
    chunks.push(c7);
    proof {
        assert(chunks@ =~= gs);
        assert(tag@ =~= fields[0]);
        assert(format@ =~= fields[1]);
        assert(sig_type@ =~= fields[2]);
        assert(empty@ =~= fields[4]);
        assert forall|k: int| 0 <= k < fields.len() implies is_blob(#[trigger] chunks@[k], fields[k]) by {
            assert(chunks@[k] == gs[k]);
        }
        lemma_blob_list_fold(chunks, fields, 0, sha384(list_tag(8)));
    }
    let ghost cs = chunks;
    let deep = deep_hash_sync(DeepHashChunk::Chunks(chunks));
    assert(deep@ == blob_list_hash(fields));
    let digest = eth_hash_message(deep.as_slice());
    let (sig, rec) = secp256k1_sign_recoverable(&digest, &sk);
    let mut out: Vec<u8> = Vec::new();
    out.push(3u8);
    out.push(0u8);
    out.extend_from_slice(&sig);
    out.push(rec + 27);
    out.extend_from_slice(&owner);
    let zeros: [u8; 18] = [0u8, 0u8, 0u8, 0u8, 0u8, 0u8, 0u8, 0u8, 0u8, 0u8, 0u8, 0u8, 0u8, 0u8, 0u8, 0u8, 0u8, 0u8];
    out.extend_from_slice(&zeros);
    out.extend_from_slice(data);
    proof {
        assert(zeros@ =~= Seq::new(18, |i: int| 0u8));
        assert(out@ =~= spec_dataitem(sk@, data@));
    }
    Ok(out)
}

// ─── Irys accounts and responses ─────────────────────────────────

/// The Ethereum-style account address of a secret key, as Irys reads it:
/// "0x" and the lowercase hex of the last 20 bytes of Keccak-256 of the
/// uncompressed public key without its leading 0x04 byte.
pub open spec fn spec_irys_address(sk: Seq<u8>) -> Seq<char> {
    "0x"@ + spec_hex(keccak256(secp256k1_public_key(sk).skip(1)).skip(12))
}

/// The account address of `eth_key_hex`, read as the uploader reads the key
/// it signs with: leading "0x"s and surrounding whitespace are ignored;
/// `None` when the rest is not a valid secret key.
pub fn irys_address(eth_key_hex: &str) -> (r: Option<String>)
    ensures
        r is Some <==> valid_secret_hex(clean_eth_key(eth_key_hex@)),
        r matches Some(a) ==> a@ == spec_irys_address(spec_hex_decode(clean_eth_key(eth_key_hex@))),
{
    let sk = match read_eth_key(eth_key_hex) {
        Some(k) => k,
        None => {
            return None;
        },
    };
    let public = secp256k1_public_key_of(&sk);
    let body = bytes_from(&public, 1);
    let hash = keccak256_digest(body.as_slice());
    let tail = bytes_from(&hash, 12);
    let hex = hex_chars(tail.as_slice());
    let mut out: Vec<char> = Vec::new();
    push_str_chars(&mut out, "0x");
    push_chars(&mut out, hex.as_slice());
    Some(string_from_chars(out.as_slice()))
}

/// The Irys balance query for an account address.
pub fn irys_balance_url(address: &str) -> (r: String)
    ensures
        r@ == "https://uploader.irys.xyz/account/balance/ethereum?address="@ + address@,
{
    let mut out: Vec<char> = Vec::new();
    push_str_chars(&mut out, "https://uploader.irys.xyz/account/balance/ethereum?address=");
    push_str_chars(&mut out, address);
    string_from_chars(out.as_slice())
}

/// The key that introduces the balance in an Irys balance response.
pub open spec fn balance_key() -> Seq<char> {
    "\"balance\":\""@
}

/// The balance text of a response: what follows the first `"balance":"`,
/// up to the next quote.
pub open spec fn balance_text(json: Seq<char>) -> Option<Seq<char>> {
    match spec_after_first(json, balance_key()) {
        Some(rest) => Some(spec_before_char(rest, '"')),
        None => None,
    }
}

/// A balance response shows a balance that reads as a positive `u64`.
pub open spec fn spec_balance_positive(json: Seq<char>) -> bool {
    match balance_text(json) {
        Some(t) => match spec_parse_u64(t) {
            Some(v) => v > 0,
            None => false,
        },
        None => false,
    }
}

/// Whether an Irys balance response shows a positive balance; a response
/// without a readable balance counts as none.
pub fn balance_is_positive(json: &str) -> (b: bool)
    ensures
        b == spec_balance_positive(json@),
{
    let chars = str_chars(json);
    let key = str_chars("\"balance\":\"");
    match after_first(chars.as_slice(), key.as_slice()) {
        Some(rest) => {
            let text = prefix_before_char(rest.as_slice(), '"');
            match parse_u64(text.as_slice()) {
                Some(v) => v > 0,
                None => false,
            }
        },
        None => false,
    }
}

/// The key that introduces the transaction id in an Irys upload response.
pub open spec fn id_key() -> Seq<char> {
    "\"id\":\""@
}

/// The transaction id of an upload response: what follows the first
/// `"id":"` up to the next quote, or the whole response when there is none.
pub open spec fn spec_clean_txid(response: Seq<char>) -> Seq<char> {
    match spec_after_first(response, id_key()) {
        Some(rest) => spec_before_char(rest, '"'),
        None => response,
    }
}

/// Extracts the transaction id from an Irys upload response.
pub fn clean_txid(response: &str) -> (r: String)
    ensures
        r@ == spec_clean_txid(response@),
{
    let chars = str_chars(response);
    let key = str_chars("\"id\":\"");
    match after_first(chars.as_slice(), key.as_slice()) {
        Some(rest) => {
            let text = prefix_before_char(rest.as_slice(), '"');
            string_from_chars(text.as_slice())
        },
        None => string_from_chars(chars.as_slice()),
    }
}

/// The error reported for an upload that Irys answered with a failure status.
pub fn irys_status_error(code: u16, body: &str) -> (r: String)
    ensures
        r@ == "Irys upload failed with status "@ + spec_decimal_chars(code as nat) + ": "@ + body@,
{
    let mut out: Vec<char> = Vec::new();
    push_str_chars(&mut out, "Irys upload failed with status ");
    let d = decimal_chars(code as u64);
    push_chars(&mut out, d.as_slice());
    push_str_chars(&mut out, ": ");
    push_str_chars(&mut out, body);
    string_from_chars(out.as_slice())
}

/// The transaction id named by an `ar://` style reference: what follows the
/// last "://" (the whole text when there is none).
pub open spec fn spec_arweave_txid(url: Seq<char>) -> Seq<char> {
    spec_after_last(url, "://"@)
}

/// The Irys gateway URL and the Arweave gateway URL, tried in that order,
/// for a transaction reference.
pub fn arweave_gateway_urls(url: &str) -> (r: (String, String))
    ensures
        r.0@ == "https://gateway.irys.xyz/"@ + spec_arweave_txid(url@),
        r.1@ == "https://gateway.arweave.net/"@ + spec_arweave_txid(url@),
{
    let chars = str_chars(url);
    let sep = str_chars("://");
    proof {
        reveal_strlit("://");
    }
    let txid = after_last(chars.as_slice(), sep.as_slice());
    let mut a: Vec<char> = Vec::new();
    push_str_chars(&mut a, "https://gateway.irys.xyz/");
    push_chars(&mut a, txid.as_slice());
    let mut b: Vec<char> = Vec::new();
    push_str_chars(&mut b, "https://gateway.arweave.net/");
    push_chars(&mut b, txid.as_slice());
    (string_from_chars(a.as_slice()), string_from_chars(b.as_slice()))
}

// ─── Key text ────────────────────────────────────────────────────

proof fn lemma_hex_digit_of_nibble(j: int)
    requires
        0 <= j < 16,
    ensures
        is_hex_digit(HEX_LOWER@[j]),
        hex_digit_value(HEX_LOWER@[j]) == j,
        HEX_LOWER@[j] != 'x',
        !is_unicode_whitespace(HEX_LOWER@[j]),
{
    assert(HEX_LOWER@ =~= seq!['0', '1', '2', '3', '4', '5', '6', '7', '8', '9', 'a', 'b', 'c', 'd', 'e', 'f']);
}

proof fn lemma_hex_char(k: Seq<u8>, i: int)
    requires
        0 <= i < 2 * k.len(),
    ensures
        is_hex_digit(spec_hex(k)[i]),
        spec_hex(k)[i] != 'x',
        !is_unicode_whitespace(spec_hex(k)[i]),
        i % 2 == 0 ==> hex_digit_value(spec_hex(k)[i]) == k[i / 2] / 16,
        i % 2 == 1 ==> hex_digit_value(spec_hex(k)[i]) == k[i / 2] % 16,
{
    let b = k[i / 2];
    if i % 2 == 0 {
        lemma_hex_digit_of_nibble((b / 16) as int);
    } else {
        lemma_hex_digit_of_nibble((b % 16) as int);
    }
}

/// The key text that key generation writes ("0x" and the lowercase hex of
/// the key) reads back, once cleaned for signing, as exactly that key.
pub proof fn lemma_eth_key_text_reads_back(k: Seq<u8>)
    requires
        valid_secret_scalar(k),
    ensures
        valid_secret_hex(clean_eth_key("0x"@ + spec_hex(k))),
        spec_hex_decode(clean_eth_key("0x"@ + spec_hex(k))) == k,
{
    reveal_strlit("0x");
    let h = spec_hex(k);
    let t = "0x"@ + h;
    assert(h.len() == 64);
    assert forall|i: int| 0 <= i < 64 implies is_hex_digit(#[trigger] h[i]) && h[i] != 'x'
        && !is_unicode_whitespace(h[i]) by {
        lemma_hex_char(k, i);
    }
    assert(t.skip(2) =~= h);
    assert(t[0] == '0' && t[1] == 'x');
    assert(strip_hex_prefixes(t) == strip_hex_prefixes(h));
    assert(h[1] != 'x');
    assert(strip_hex_prefixes(h) == h);
    lemma_trim_start_skip(h);
    assert(!is_unicode_whitespace(h[0]));
    assert(leading_ws(h) == 0);
    assert(h.skip(0) =~= h);
    lemma_trim_end_take(h);
    assert(!is_unicode_whitespace(h[63]));
    assert(trailing_ws(h) == 0);
    assert(h.take(64) =~= h);
    assert(clean_eth_key(t) == h);
    assert forall|i: int| 0 <= i < 32 implies #[trigger] spec_hex_decode(h)[i] == k[i] by {
        lemma_hex_char(k, 2 * i);
        lemma_hex_char(k, 2 * i + 1);
        assert((2 * i) / 2 == i);
        assert((2 * i + 1) / 2 == i);
        assert((2 * i) % 2 == 0);
        assert((2 * i + 1) % 2 == 1);
        let b = k[i];
        assert((b / 16) * 16 + b % 16 == b);
    }
    assert(spec_hex_decode(h) =~= k);
}

} // verus!
