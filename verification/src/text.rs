//! Character-level text helpers: conversion between `&str` and character
//! vectors, Unicode whitespace trimming, prefix and substring tests.

use vstd::prelude::*;

verus! {

broadcast use vstd::string::axiom_spec_iter;

/// The characters of `s`, in order.
pub fn str_chars(s: &str) -> (r: Vec<char>)
    ensures
        r@ == s@,
{
    let mut out: Vec<char> = Vec::new();
    for c in it: s.chars()
        invariant
            out@ == it.seq().take(it.index() as int),
            it.seq() == s@,
    {
        out.push(c);
        assert(out@ =~= it.seq().take(it.index() + 1));
    }
    out
}

} // verus!

verus! {

/// Rust's `char::is_whitespace`: the Unicode `White_Space` property.
pub open spec fn is_unicode_whitespace(c: char) -> bool {
    let u = c as u32;
    (9 <= u <= 13) || u == 32 || u == 0x85 || u == 0xa0 || u == 0x1680 || (0x2000 <= u <= 0x200a)
        || u == 0x2028 || u == 0x2029 || u == 0x202f || u == 0x205f || u == 0x3000
}

/// Executable form of [`is_unicode_whitespace`].
pub fn char_is_whitespace(c: char) -> (b: bool)
    ensures
        b == is_unicode_whitespace(c),
{
    let u = c as u32;
    (9 <= u && u <= 13) || u == 32 || u == 0x85 || u == 0xa0 || u == 0x1680 || (0x2000 <= u && u
        <= 0x200a) || u == 0x2028 || u == 0x2029 || u == 0x202f || u == 0x205f || u == 0x3000
}

/// `s` with its leading whitespace removed.
pub open spec fn spec_trim_start(s: Seq<char>) -> Seq<char>
    decreases s.len(),
{
    if s.len() > 0 && is_unicode_whitespace(s[0]) {
        spec_trim_start(s.drop_first())
    } else {
        s
    }
}

/// `s` with its trailing whitespace removed.
pub open spec fn spec_trim_end(s: Seq<char>) -> Seq<char>
    decreases s.len(),
{
    if s.len() > 0 && is_unicode_whitespace(s.last()) {
        spec_trim_end(s.drop_last())
    } else {
        s
    }
}

/// Rust's `str::trim`: leading and trailing whitespace removed.
pub open spec fn spec_trim(s: Seq<char>) -> Seq<char> {
    spec_trim_end(spec_trim_start(s))
}

/// Number of leading whitespace characters of `s`.
pub open spec fn leading_ws(s: Seq<char>) -> int
    decreases s.len(),
{
    if s.len() > 0 && is_unicode_whitespace(s[0]) {
        1 + leading_ws(s.drop_first())
    } else {
        0
    }
}

/// Number of trailing whitespace characters of `s`.
pub open spec fn trailing_ws(s: Seq<char>) -> int
    decreases s.len(),
{
    if s.len() > 0 && is_unicode_whitespace(s.last()) {
        1 + trailing_ws(s.drop_last())
    } else {
        0
    }
}

/// Trimming the start drops exactly the leading whitespace.
pub proof fn lemma_trim_start_skip(s: Seq<char>)
    ensures
        0 <= leading_ws(s) <= s.len(),
        spec_trim_start(s) == s.skip(leading_ws(s)),
        forall|i: int| 0 <= i < leading_ws(s) ==> is_unicode_whitespace(#[trigger] s[i]),
        leading_ws(s) < s.len() ==> !is_unicode_whitespace(s[leading_ws(s)]),
    decreases s.len(),
{
    if s.len() > 0 && is_unicode_whitespace(s[0]) {
        lemma_trim_start_skip(s.drop_first());
        assert(s.drop_first().skip(leading_ws(s.drop_first())) =~= s.skip(leading_ws(s)));
        assert forall|i: int| 0 <= i < leading_ws(s) implies is_unicode_whitespace(
            #[trigger] s[i],
        ) by {
            if i > 0 {
                assert(s[i] == s.drop_first()[i - 1]);
            }
        }
    } else {
        assert(s.skip(0) =~= s);
    }
}

/// Trimming the end drops exactly the trailing whitespace.
pub proof fn lemma_trim_end_take(s: Seq<char>)
    ensures
        0 <= trailing_ws(s) <= s.len(),
        spec_trim_end(s) == s.take(s.len() - trailing_ws(s)),
        forall|i: int|
            s.len() - trailing_ws(s) <= i < s.len() ==> is_unicode_whitespace(#[trigger] s[i]),
        trailing_ws(s) < s.len() ==> !is_unicode_whitespace(s[s.len() - trailing_ws(s) - 1]),
    decreases s.len(),
{
    if s.len() > 0 && is_unicode_whitespace(s.last()) {
        lemma_trim_end_take(s.drop_last());
        assert(s.drop_last().take(s.drop_last().len() - trailing_ws(s.drop_last())) =~= s.take(
            s.len() - trailing_ws(s),
        ));
        assert forall|i: int|
            s.len() - trailing_ws(s) <= i < s.len() implies is_unicode_whitespace(
            #[trigger] s[i],
        ) by {
            if i < s.len() - 1 {
                assert(s[i] == s.drop_last()[i]);
            }
        }
    } else {
        assert(s.take(s.len() as int) =~= s);
    }
}

/// Rust's `str::trim` on a character sequence.
pub fn trim_chars(s: &[char]) -> (r: Vec<char>)
    ensures
        r@ == spec_trim(s@),
{
    let n = s.len();
    let mut start: usize = 0;
    while start < n && char_is_whitespace(s[start])
        invariant
            start <= n == s@.len(),
            forall|i: int| 0 <= i < start ==> is_unicode_whitespace(#[trigger] s@[i]),
        decreases n - start,
    {
        start = start + 1;
    }
    proof {
        lemma_trim_start_skip(s@);
        lemma_leading_ws_exact(s@, start as int);
    }
    let mut end: usize = n;
    while end > start && char_is_whitespace(s[end - 1])
        invariant
            start <= end <= n == s@.len(),
            forall|i: int| end <= i < n ==> is_unicode_whitespace(#[trigger] s@[i]),
        decreases end,
    {
        end = end - 1;
    }
    let mut out: Vec<char> = Vec::new();
    let mut i: usize = start;
    while i < end
        invariant
            start <= i <= end <= n == s@.len(),
            out@ =~= s@.subrange(start as int, i as int),
        decreases end - i,
    {
        out.push(s[i]);
        i = i + 1;
    }
    proof {
        let t = s@.skip(start as int);
        lemma_trim_end_take(t);
        lemma_trailing_ws_exact(t, (n - end) as int);
        assert(t.take(t.len() - trailing_ws(t)) =~= s@.subrange(start as int, end as int));
    }
    out
}

proof fn lemma_leading_ws_exact(s: Seq<char>, k: int)
    requires
        0 <= k <= s.len(),
        forall|i: int| 0 <= i < k ==> is_unicode_whitespace(#[trigger] s[i]),
        k == s.len() || !is_unicode_whitespace(s[k]),
    ensures
        leading_ws(s) == k,
    decreases k,
{
    if k > 0 {
        assert(is_unicode_whitespace(s[0]));
        assert forall|i: int| 0 <= i < k - 1 implies is_unicode_whitespace(
            #[trigger] s.drop_first()[i],
        ) by {
            assert(s.drop_first()[i] == s[i + 1]);
        }
        if k < s.len() {
            assert(s.drop_first()[k - 1] == s[k]);
        }
        lemma_leading_ws_exact(s.drop_first(), k - 1);
    }
}

proof fn lemma_trailing_ws_exact(s: Seq<char>, k: int)
    requires
        0 <= k <= s.len(),
        forall|i: int| s.len() - k <= i < s.len() ==> is_unicode_whitespace(#[trigger] s[i]),
        k == s.len() || !is_unicode_whitespace(s[s.len() - k - 1]),
    ensures
        trailing_ws(s) == k,
    decreases k,
{
    if k > 0 {
        assert(is_unicode_whitespace(s[s.len() - 1]));
        let t = s.drop_last();
        assert forall|i: int| t.len() - (k - 1) <= i < t.len() implies is_unicode_whitespace(
            #[trigger] t[i],
        ) by {
            assert(t[i] == s[i]);
        }
        if k < s.len() {
            assert(t[t.len() - (k - 1) - 1] == s[s.len() - k - 1]);
        }
        lemma_trailing_ws_exact(t, k - 1);
    }
}

/// `s` starts with `prefix`.
pub open spec fn spec_starts_with(s: Seq<char>, prefix: Seq<char>) -> bool {
    prefix.len() <= s.len() && s.take(prefix.len() as int) == prefix
}

/// Executable prefix test on character sequences.
pub fn chars_start_with(s: &[char], prefix: &[char]) -> (b: bool)
    ensures
        b == spec_starts_with(s@, prefix@),
{
    if prefix.len() > s.len() {
        return false;
    }
    let mut i: usize = 0;
    while i < prefix.len()
        invariant
            i <= prefix@.len() <= s@.len(),
            forall|j: int| 0 <= j < i ==> s@[j] == prefix@[j],
        decreases prefix@.len() - i,
    {
        if s[i] != prefix[i] {
            assert(s@.take(prefix@.len() as int)[i as int] != prefix@[i as int]);
            return false;
        }
        i = i + 1;
    }
    assert(s@.take(prefix@.len() as int) =~= prefix@);
    true
}

/// `s` ends with `suffix`.
pub open spec fn spec_ends_with(s: Seq<char>, suffix: Seq<char>) -> bool {
    suffix.len() <= s.len() && s.skip(s.len() - suffix.len()) == suffix
}

/// Executable suffix test on character sequences.
pub fn chars_end_with(s: &[char], suffix: &[char]) -> (b: bool)
    ensures
        b == spec_ends_with(s@, suffix@),
{
    if suffix.len() > s.len() {
        return false;
    }
    let n = s.len();
    let off = n - suffix.len();
    let mut i: usize = 0;
    while i < suffix.len()
        invariant
            n == s@.len(),
            i <= suffix@.len() <= s@.len(),
            off == s@.len() - suffix@.len(),
            forall|j: int| 0 <= j < i ==> s@[off + j] == suffix@[j],
        decreases suffix@.len() - i,
    {
        assert(off + i < s@.len());
        if s[off + i] != suffix[i] {
            assert(s@.skip(off as int)[i as int] != suffix@[i as int]);
            return false;
        }
        i = i + 1;
    }
    assert(s@.skip(off as int) =~= suffix@);
    true
}

/// `needle` occurs in `s` starting at position `i`.
pub open spec fn occurs_at(s: Seq<char>, needle: Seq<char>, i: int) -> bool {
    0 <= i && i + needle.len() <= s.len() && s.subrange(i, i + needle.len()) == needle
}

/// `needle` occurs somewhere in `s`.
pub open spec fn spec_contains(s: Seq<char>, needle: Seq<char>) -> bool {
    exists|i: int| occurs_at(s, needle, i)
}

/// The first position at which `needle` occurs in `s`, searching from `from`.
pub fn find_from(s: &[char], needle: &[char], from: usize) -> (r: Option<usize>)
    requires
        from <= s@.len(),
    ensures
        match r {
            Some(i) => from <= i && occurs_at(s@, needle@, i as int) && forall|j: int|
                from <= j < i ==> !occurs_at(s@, needle@, j),
            None => forall|j: int| from <= j ==> !occurs_at(s@, needle@, j),
        },
{
    if needle.len() > s.len() {
        return None;
    }
    let n = s.len();
    let last = n - needle.len();
    let mut i: usize = from;
    while i <= last
        invariant
            n == s@.len(),
            from <= i,
            last == s@.len() - needle@.len(),
            forall|j: int| from <= j < i ==> !occurs_at(s@, needle@, j),
        decreases last + 1 - i,
    {
        let mut k: usize = 0;
        let mut ok = true;
        while k < needle.len()
            invariant
                n == s@.len(),
                k <= needle@.len(),
                i <= last,
                last == s@.len() - needle@.len(),
                ok ==> forall|t: int| 0 <= t < k ==> s@[i + t] == needle@[t],
                !ok ==> !occurs_at(s@, needle@, i as int),
            decreases needle@.len() - k,
        {
            assert(i + k < s@.len());
            if s[i + k] != needle[k] {
                assert(s@.subrange(i as int, i + needle@.len())[k as int] != needle@[k as int]);
                ok = false;
            }
            k = k + 1;
        }
        if ok {
            assert(s@.subrange(i as int, i + needle@.len()) =~= needle@);
            return Some(i);
        }
        if i == last {
            return None;
        }
        i = i + 1;
    }
    None
}

/// The characters of `s` from position `start` on.
pub fn chars_from(s: &[char], start: usize) -> (r: Vec<char>)
    requires
        start <= s@.len(),
    ensures
        r@ == s@.skip(start as int),
{
    let n = s.len();
    let mut out: Vec<char> = Vec::new();
    let mut i: usize = start;
    while i < n
        invariant
            n == s@.len(),
            start <= i <= n,
            out@ =~= s@.subrange(start as int, i as int),
        decreases n - i,
    {
        out.push(s[i]);
        i = i + 1;
    }
    assert(out@ =~= s@.skip(start as int));
    out
}

/// `p` is the first position at which `needle` occurs in `s`.
pub open spec fn is_first_occurrence(s: Seq<char>, needle: Seq<char>, p: int) -> bool {
    occurs_at(s, needle, p) && forall|j: int| 0 <= j < p ==> !#[trigger] occurs_at(s, needle, j)
}

/// What follows the first occurrence of `needle` in `s`, when it occurs: the
/// second piece of `str::split`.
pub open spec fn spec_after_first(s: Seq<char>, needle: Seq<char>) -> Option<Seq<char>> {
    if exists|p: int| is_first_occurrence(s, needle, p) {
        let p = choose|p: int| is_first_occurrence(s, needle, p);
        Some(s.skip(p + needle.len()))
    } else {
        None
    }
}

/// Executable form of [`spec_after_first`]; `Some` exactly when `needle`
/// occurs in `s`.
pub fn after_first(s: &[char], needle: &[char]) -> (r: Option<Vec<char>>)
    ensures
        r is Some <==> spec_contains(s@, needle@),
        match r {
            Some(t) => spec_after_first(s@, needle@) == Some(t@),
            None => spec_after_first(s@, needle@) is None,
        },
{
    match find_from(s, needle, 0) {
        Some(i) => {
            proof {
                assert(is_first_occurrence(s@, needle@, i as int));
                let p = choose|p: int| is_first_occurrence(s@, needle@, p);
                if p < i {
                    assert(!occurs_at(s@, needle@, p));
                }
                if p > i {
                    assert(!occurs_at(s@, needle@, i as int));
                }
                assert(p == i);
            }
            let n = s.len();
            assert(occurs_at(s@, needle@, i as int));
            assert(i + needle@.len() <= n);
            Some(chars_from(s, i + needle.len()))
        },
        None => {
            proof {
                assert forall|p: int| !is_first_occurrence(s@, needle@, p) by {
                    if p >= 0 {
                        assert(!occurs_at(s@, needle@, p));
                    }
                }
                assert forall|p: int| !occurs_at(s@, needle@, p) by {
                    if p >= 0 {
                        assert(!occurs_at(s@, needle@, p));
                    }
                }
            }
            None
        },
    }
}

/// `k` is where the text before the first `c` in `s` ends: no `c` before
/// it, and either the end of `s` or a `c` at it.
pub open spec fn is_stop_index(s: Seq<char>, c: char, k: int) -> bool {
    &&& 0 <= k <= s.len()
    &&& forall|j: int| 0 <= j < k ==> #[trigger] s[j] != c
    &&& (k == s.len() || s[k] == c)
}

/// The characters of `s` before the first `c` (all of `s` when there is
/// none): the first piece of `str::split` on a character.
pub open spec fn spec_before_char(s: Seq<char>, c: char) -> Seq<char> {
    s.take(choose|k: int| is_stop_index(s, c, k))
}

/// Executable form of [`spec_before_char`].
pub fn prefix_before_char(s: &[char], c: char) -> (r: Vec<char>)
    ensures
        r@ == spec_before_char(s@, c),
{
    let n = s.len();
    let mut out: Vec<char> = Vec::new();
    let mut k: usize = 0;
    while k < n && s[k] != c
        invariant
            n == s@.len(),
            k <= n,
            forall|j: int| 0 <= j < k ==> #[trigger] s@[j] != c,
            out@ =~= s@.take(k as int),
        decreases n - k,
    {
        out.push(s[k]);
        k = k + 1;
    }
    proof {
        assert(is_stop_index(s@, c, k as int));
        let q = choose|q: int| is_stop_index(s@, c, q);
        if q < k {
            assert(s@[q] != c);
        }
        if q > k {
            assert(s@[k as int] != c);
        }
        assert(q == k);
    }
    out
}

/// `p` is the last position at which `needle` occurs in `s`.
pub open spec fn is_last_occurrence(s: Seq<char>, needle: Seq<char>, p: int) -> bool {
    occurs_at(s, needle, p) && forall|j: int| p < j ==> !#[trigger] occurs_at(s, needle, j)
}

/// What follows the last occurrence of `needle` in `s`, or all of `s` when
/// it does not occur. For a needle that cannot overlap itself (such as a
/// single character or "://") this is the last piece of `str::split`.
pub open spec fn spec_after_last(s: Seq<char>, needle: Seq<char>) -> Seq<char> {
    if exists|p: int| is_last_occurrence(s, needle, p) {
        s.skip((choose|p: int| is_last_occurrence(s, needle, p)) + needle.len())
    } else {
        s
    }
}

/// Executable form of [`spec_after_last`].
pub fn after_last(s: &[char], needle: &[char]) -> (r: Vec<char>)
    requires
        needle@.len() > 0,
    ensures
        r@ == spec_after_last(s@, needle@),
{
    let n = s.len();
    let mut found: Option<usize> = None;
    let mut from: usize = 0;
    loop
        invariant
            n == s@.len(),
            needle@.len() > 0,
            from <= n,
            match found {
                Some(p) => occurs_at(s@, needle@, p as int) && p < from && forall|j: int|
                    p < j < from ==> !#[trigger] occurs_at(s@, needle@, j),
                None => forall|j: int| 0 <= j < from ==> !#[trigger] occurs_at(s@, needle@, j),
            },
        ensures
            match found {
                Some(p) => is_last_occurrence(s@, needle@, p as int),
                None => forall|j: int| !#[trigger] occurs_at(s@, needle@, j),
            },
        decreases n - from,
    {
        match find_from(s, needle, from) {
            Some(i) => {
                found = Some(i);
                from = i + 1;
            },
            None => {
                break ;
            },
        }
    }
    match found {
        Some(p) => {
            proof {
                let q = choose|q: int| is_last_occurrence(s@, needle@, q);
                assert(is_last_occurrence(s@, needle@, p as int));
                if q < p {
                    assert(!occurs_at(s@, needle@, p as int));
                }
                if q > p {
                    assert(!occurs_at(s@, needle@, q));
                }
            }
            chars_from(s, p + needle.len())
        },
        None => {
            proof {
                assert forall|q: int| !is_last_occurrence(s@, needle@, q) by {
                    assert(!occurs_at(s@, needle@, q));
                }
            }
            chars_from(s, 0)
        },
    }
}

/// Appends the characters of `s` to `out`.
pub fn push_str_chars(out: &mut Vec<char>, s: &str)
    ensures
        final(out)@ == old(out)@ + s@,
{
    let mut v = str_chars(s);
    out.append(&mut v);
}

/// Appends the characters of `s` to `out`.
pub fn push_chars(out: &mut Vec<char>, s: &[char])
    ensures
        final(out)@ == old(out)@ + s@,
{
    let n = s.len();
    let mut i: usize = 0;
    let ghost start = out@;
    while i < n
        invariant
            n == s@.len(),
            i <= n,
            out@ =~= start + s@.take(i as int),
        decreases n - i,
    {
        out.push(s[i]);
        i = i + 1;
        assert(out@ =~= start + s@.take(i as int));
    }
    assert(s@.take(n as int) =~= s@);
}

/// Whether `needle` occurs in `s`.
pub fn contains_chars(s: &[char], needle: &[char]) -> (b: bool)
    ensures
        b == spec_contains(s@, needle@),
{
    match find_from(s, needle, 0) {
        Some(i) => {
            assert(occurs_at(s@, needle@, i as int));
            true
        },
        None => {
            assert forall|j: int| !occurs_at(s@, needle@, j) by {
                if j >= 0 {
                    assert(!occurs_at(s@, needle@, j));
                }
            }
            false
        },
    }
}

} // verus!
