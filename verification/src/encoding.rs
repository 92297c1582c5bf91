//! Byte and text encodings shared by the other modules: lowercase hex,
//! decimal ASCII, fixed-width big-endian integers.

use vstd::prelude::*;

verus! {

/// Lowercase hexadecimal digits.
pub const HEX_LOWER: [char; 16] = [
    '0', '1', '2', '3', '4', '5', '6', '7', '8', '9', 'a', 'b', 'c', 'd', 'e', 'f',
];

/// The `i`-th character of the lowercase hex encoding of `s`
/// (two characters per byte, high nibble first).
pub open spec fn hex_char_at(s: Seq<u8>, i: int) -> char {
    if i % 2 == 0 {
        HEX_LOWER@[(s[i / 2] / 16) as int]
    } else {
        HEX_LOWER@[(s[i / 2] % 16) as int]
    }
}

/// Lowercase hexadecimal encoding of a byte sequence.
pub open spec fn spec_hex(s: Seq<u8>) -> Seq<char> {
    Seq::new(2 * s.len(), |i: int| hex_char_at(s, i))
}

/// Calls std's `Iterator::collect` on the characters into a `String`.
/// Claims: the string holds exactly these characters, in order.
#[verifier::external_body]
pub(crate) fn string_from_chars(chars: &[char]) -> (s: String)
    ensures
        s@ == chars@,
{
    chars.iter().collect()
}

/// Lowercase hex encoding of `bytes`, two characters per byte.
pub fn hex_chars(bytes: &[u8]) -> (r: Vec<char>)
    requires
        bytes@.len() * 2 <= usize::MAX,
    ensures
        r@ == spec_hex(bytes@),
{
    let mut out: Vec<char> = Vec::new();
    let mut i: usize = 0;
    while i < bytes.len()
        invariant
            i <= bytes@.len(),
            bytes@.len() * 2 <= usize::MAX,
            out@ =~= Seq::new(2 * i as nat, |k: int| hex_char_at(bytes@, k)),
        decreases bytes@.len() - i,
    {
        let b = bytes[i];
        out.push(HEX_LOWER[(b / 16) as usize]);
        out.push(HEX_LOWER[(b % 16) as usize]);
        i = i + 1;
        assert(out@ =~= Seq::new(2 * i as nat, |k: int| hex_char_at(bytes@, k)));
    }
    out
}

/// Lowercase hex encoding of `bytes` as a `String`.
pub fn hex_encode(bytes: &[u8]) -> (r: String)
    requires
        bytes@.len() * 2 <= usize::MAX,
    ensures
        r@ == spec_hex(bytes@),
{
    let v = hex_chars(bytes);
    string_from_chars(v.as_slice())
}

/// Decimal ASCII representation of a natural number, without leading zeros.
pub open spec fn spec_decimal(n: nat) -> Seq<u8>
    decreases n,
{
    if n < 10 {
        seq![(48 + n) as u8]
    } else {
        spec_decimal(n / 10).push((48 + n % 10) as u8)
    }
}

/// Decimal ASCII digits of `n`.
pub fn decimal_ascii(n: u64) -> (r: Vec<u8>)
    ensures
        r@ == spec_decimal(n as nat),
    decreases n,
{
    if n < 10 {
        let mut v: Vec<u8> = Vec::new();
        v.push(48u8 + n as u8);
        v
    } else {
        let mut v = decimal_ascii(n / 10);
        v.push(48u8 + (n % 10) as u8);
        v
    }
}

/// Big-endian bytes of a 64-bit integer.
pub open spec fn spec_u64_be(x: u64) -> Seq<u8> {
    seq![
        (x >> 56u64) as u8,
        (x >> 48u64) as u8,
        (x >> 40u64) as u8,
        (x >> 32u64) as u8,
        (x >> 24u64) as u8,
        (x >> 16u64) as u8,
        (x >> 8u64) as u8,
        x as u8,
    ]
}

/// The 64-bit integer whose big-endian bytes are the first eight of `b`.
pub open spec fn spec_u64_from_be(b: Seq<u8>) -> u64 {
    ((b[0] as u64) << 56u64) | ((b[1] as u64) << 48u64) | ((b[2] as u64) << 40u64) | ((
    b[3] as u64) << 32u64) | ((b[4] as u64) << 24u64) | ((b[5] as u64) << 16u64) | ((
    b[6] as u64) << 8u64) | (b[7] as u64)
}

/// Big-endian bytes of a 32-bit integer.
pub open spec fn spec_u32_be(x: u32) -> Seq<u8> {
    seq![(x >> 24u32) as u8, (x >> 16u32) as u8, (x >> 8u32) as u8, x as u8]
}

/// The 32-bit integer whose big-endian bytes are the first four of `b`.
pub open spec fn spec_u32_from_be(b: Seq<u8>) -> u32 {
    ((b[0] as u32) << 24u32) | ((b[1] as u32) << 16u32) | ((b[2] as u32) << 8u32) | (b[3] as u32)
}

/// Decoding the big-endian bytes of `x` gives back `x`.
pub proof fn lemma_u64_be_roundtrip(x: u64)
    ensures
        spec_u64_from_be(spec_u64_be(x)) == x,
{
    assert(((((x >> 56u64) as u8) as u64) << 56u64) | ((((x >> 48u64) as u8) as u64) << 48u64)
        | ((((x >> 40u64) as u8) as u64) << 40u64) | ((((x >> 32u64) as u8) as u64) << 32u64)
        | ((((x >> 24u64) as u8) as u64) << 24u64) | ((((x >> 16u64) as u8) as u64) << 16u64)
        | ((((x >> 8u64) as u8) as u64) << 8u64) | ((x as u8) as u64) == x) by (bit_vector);
}

/// Decoding the big-endian bytes of `x` gives back `x`.
pub proof fn lemma_u32_be_roundtrip(x: u32)
    ensures
        spec_u32_from_be(spec_u32_be(x)) == x,
{
    assert(((((x >> 24u32) as u8) as u32) << 24u32) | ((((x >> 16u32) as u8) as u32) << 16u32)
        | ((((x >> 8u32) as u8) as u32) << 8u32) | ((x as u8) as u32) == x) by (bit_vector);
}

/// Big-endian bytes of `x`.
pub fn u64_to_be(x: u64) -> (r: [u8; 8])
    ensures
        r@ == spec_u64_be(x),
{
    let r: [u8; 8] = [
        (x >> 56u64) as u8,
        (x >> 48u64) as u8,
        (x >> 40u64) as u8,
        (x >> 32u64) as u8,
        (x >> 24u64) as u8,
        (x >> 16u64) as u8,
        (x >> 8u64) as u8,
        x as u8,
    ];
    assert(r@ =~= spec_u64_be(x));
    r
}

/// The integer whose big-endian bytes are `b[start..start + 8]`.
pub fn u64_from_be(b: &[u8], start: usize) -> (r: u64)
    requires
        start + 8 <= b@.len(),
    ensures
        r == spec_u64_from_be(b@.subrange(start as int, start + 8)),
{
    ((b[start] as u64) << 56u64) | ((b[start + 1] as u64) << 48u64) | ((b[start + 2] as u64)
        << 40u64) | ((b[start + 3] as u64) << 32u64) | ((b[start + 4] as u64) << 24u64) | ((
    b[start + 5] as u64) << 16u64) | ((b[start + 6] as u64) << 8u64) | (b[start + 7] as u64)
}

/// Big-endian bytes of `x`.
pub fn u32_to_be(x: u32) -> (r: [u8; 4])
    ensures
        r@ == spec_u32_be(x),
{
    let r: [u8; 4] = [(x >> 24u32) as u8, (x >> 16u32) as u8, (x >> 8u32) as u8, x as u8];
    assert(r@ =~= spec_u32_be(x));
    r
}

/// The integer whose big-endian bytes are `b`.
pub fn u32_from_be(b: &[u8; 4]) -> (r: u32)
    ensures
        r == spec_u32_from_be(b@),
{
    ((b[0] as u32) << 24u32) | ((b[1] as u32) << 16u32) | ((b[2] as u32) << 8u32) | (b[3] as u32)
}

} // verus!

verus! {

/// The natural number whose big-endian base-256 digits are `s`.
pub open spec fn spec_be_nat(s: Seq<u8>) -> nat
    decreases s.len(),
{
    if s.len() == 0 {
        0
    } else {
        spec_be_nat(s.drop_last()) * 256 + s.last() as nat
    }
}

/// `c` is an ASCII hexadecimal digit (either case).
pub open spec fn is_hex_digit(c: char) -> bool {
    ('0' <= c <= '9') || ('a' <= c <= 'f') || ('A' <= c <= 'F')
}

/// Value of an ASCII hexadecimal digit.
pub open spec fn hex_digit_value(c: char) -> int {
    if '0' <= c <= '9' {
        c as int - '0' as int
    } else if 'a' <= c <= 'f' {
        c as int - 'a' as int + 10
    } else {
        c as int - 'A' as int + 10
    }
}

/// The bytes spelled by a string of hexadecimal digit pairs.
pub open spec fn spec_hex_decode(s: Seq<char>) -> Seq<u8> {
    Seq::new(
        s.len() / 2,
        |i: int| (hex_digit_value(s[2 * i]) * 16 + hex_digit_value(s[2 * i + 1])) as u8,
    )
}

/// Decimal ASCII representation of `n` as characters.
pub open spec fn spec_decimal_chars(n: nat) -> Seq<char> {
    spec_decimal(n).map_values(|b: u8| b as char)
}

/// Decimal digits of `n` as characters.
pub fn decimal_chars(n: u64) -> (r: Vec<char>)
    ensures
        r@ == spec_decimal_chars(n as nat),
{
    let d = decimal_ascii(n);
    let k = d.len();
    let mut out: Vec<char> = Vec::new();
    let mut i: usize = 0;
    while i < k
        invariant
            k == d@.len(),
            i <= k,
            out@ =~= d@.take(i as int).map_values(|b: u8| b as char),
        decreases k - i,
    {
        out.push(d[i] as char);
        i = i + 1;
        assert(out@ =~= d@.take(i as int).map_values(|b: u8| b as char));
    }
    assert(d@.take(k as int) =~= d@);
    out
}

/// `c` is an ASCII decimal digit.
pub open spec fn is_ascii_digit(c: char) -> bool {
    '0' <= c <= '9'
}

/// The value of a string of decimal digits, most significant first.
pub open spec fn digits_value(d: Seq<char>) -> int
    decreases d.len(),
{
    if d.len() == 0 {
        0
    } else {
        digits_value(d.drop_last()) * 10 + (d.last() as int - '0' as int)
    }
}

/// The digits that `u64::from_str` reads: the text without one leading `+`.
pub open spec fn unsigned_digits(s: Seq<char>) -> Seq<char> {
    if s.len() > 0 && s[0] == '+' {
        s.drop_first()
    } else {
        s
    }
}

/// What `str::parse::<u64>` gives: an optional `+`, then one or more ASCII
/// digits whose value fits in 64 bits.
pub open spec fn spec_parse_u64(s: Seq<char>) -> Option<u64> {
    let d = unsigned_digits(s);
    if d.len() > 0 && (forall|i: int| 0 <= i < d.len() ==> is_ascii_digit(#[trigger] d[i]))
        && digits_value(d) <= u64::MAX {
        Some(digits_value(d) as u64)
    } else {
        None
    }
}

proof fn lemma_digits_value_prefix(d: Seq<char>, k: int)
    requires
        0 <= k <= d.len(),
        forall|i: int| 0 <= i < d.len() ==> is_ascii_digit(#[trigger] d[i]),
    ensures
        0 <= digits_value(d.take(k)) <= digits_value(d),
    decreases d.len(),
{
    if d.len() > 0 {
        let t = d.drop_last();
        assert forall|i: int| 0 <= i < t.len() implies is_ascii_digit(#[trigger] t[i]) by {
            assert(t[i] == d[i]);
        }
        assert(is_ascii_digit(d[d.len() - 1]));
        if k < d.len() {
            lemma_digits_value_prefix(t, k);
            assert(t.take(k) =~= d.take(k));
            lemma_digits_value_prefix(t, t.len() as int);
            assert(t.take(t.len() as int) =~= t);
        } else {
            lemma_digits_value_prefix(t, t.len() as int);
            assert(t.take(t.len() as int) =~= t);
            assert(d.take(k) =~= d);
        }
    } else {
        assert(d.take(k) =~= d);
    }
}

/// Rust's `str::parse::<u64>` on a character sequence.
pub fn parse_u64(s: &[char]) -> (r: Option<u64>)
    ensures
        r == spec_parse_u64(s@),
{
    let n = s.len();
    let start: usize = if n > 0 && s[0] == '+' { 1 } else { 0 };
    let ghost d = unsigned_digits(s@);
    assert(d =~= s@.skip(start as int));
    if start == n {
        return None;
    }
    let mut i: usize = start;
    while i < n
        invariant
            n == s@.len(),
            start <= i <= n,
            d == s@.skip(start as int),
            d == unsigned_digits(s@),
            forall|j: int| start <= j < i ==> is_ascii_digit(#[trigger] s@[j]),
        decreases n - i,
    {
        if !('0' <= s[i] && s[i] <= '9') {
            assert(d[i - start] == s@[i as int]);
            assert(!is_ascii_digit(d[i - start]));
            return None;
        }
        i = i + 1;
    }
    assert forall|j: int| 0 <= j < d.len() implies is_ascii_digit(#[trigger] d[j]) by {
        assert(d[j] == s@[start + j]);
    }
    let mut v: u64 = 0;
    let mut i: usize = start;
    while i < n
        invariant
            n == s@.len(),
            start <= i <= n,
            d == s@.skip(start as int),
            d == unsigned_digits(s@),
            forall|j: int| 0 <= j < d.len() ==> is_ascii_digit(#[trigger] d[j]),
            v == digits_value(d.take(i - start)),
        decreases n - i,
    {
        assert(d[i - start] == s@[i as int]);
        assert(d.take(i - start + 1).drop_last() =~= d.take(i - start));
        let c = s[i] as u32;
        let digit = (c - 48) as u64;
        let ghost k = i - start;
        assert(d.take(k + 1).last() == d[k]);
        assert(digits_value(d.take(k + 1)) == v * 10 + digit);
        proof {
            lemma_digits_value_prefix(d, k + 1);
        }
        match v.checked_mul(10) {
            Some(m) => match m.checked_add(digit) {
                Some(x) => {
                    v = x;
                },
                None => {
                    assert(digits_value(d) > u64::MAX);
                    return None;
                },
            },
            None => {
                assert(digits_value(d) > u64::MAX);
                return None;
            },
        }
        i = i + 1;
    }
    assert(d.take(n - start) =~= d);
    Some(v)
}

/// The bytes of `b` from position `start` on.
pub fn bytes_from(b: &[u8], start: usize) -> (r: Vec<u8>)
    requires
        start <= b@.len(),
    ensures
        r@ == b@.skip(start as int),
{
    let n = b.len();
    let mut out: Vec<u8> = Vec::new();
    let mut i: usize = start;
    while i < n
        invariant
            n == b@.len(),
            start <= i <= n,
            out@ =~= b@.subrange(start as int, i as int),
        decreases n - i,
    {
        out.push(b[i]);
        i = i + 1;
    }
    assert(out@ =~= b@.skip(start as int));
    out
}

} // verus!
