//! Why key files read back: the PEM armour that the PEM parser reads, and
//! the stealth form (the armour's Base64 lines alone) that the Base64
//! decoder reads once line breaks are removed.

use vstd::prelude::*;
use vstd::seq_lib::lemma_flatten_concat;
use crate::keys::{
    spec_lines, body_lines, join_lines, spec_strip_pem_headers, spec_remove_layout, is_layout_char,
    spec_parse_key_blob, dashes, render_pem, pem_reads_back, lemma_armour_trim_prefix,
};
use crate::primitives::{
    pem_begin, plain_pem_tag, is_base64_char, base64_body, lines_of_64, pem_layout, pem_base64_of,
};
use crate::text::{
    spec_trim, spec_starts_with, is_unicode_whitespace, leading_ws, trailing_ws,
    lemma_trim_start_skip, lemma_trim_end_take,
};

verus! {

/// Every character of `s` is in the Base64 alphabet.
pub open spec fn all_base64(s: Seq<char>) -> bool {
    forall|i: int| 0 <= i < s.len() ==> is_base64_char(#[trigger] s[i])
}

/// What a PEM text produced for `contents` under `tag` is known to satisfy:
/// its armour reads back, its lines are the BEGIN line, its Base64 text in
/// 64-character lines and the END line, and that text decodes back.
pub open spec fn key_file_facts(pem: Seq<char>, tag: Seq<char>, contents: Seq<u8>) -> bool {
    &&& plain_pem_tag(tag)
    &&& pem_reads_back(pem, contents)
    &&& spec_lines(pem) == pem_layout(tag, pem_base64_of(pem))
    &&& base64_body(pem_base64_of(pem), contents)
}

proof fn lemma_base64_not_special(c: char)
    requires
        is_base64_char(c),
    ensures
        !is_unicode_whitespace(c),
        !is_layout_char(c),
        c != '-',
{
}

proof fn lemma_lines_of_64(b: Seq<char>)
    requires
        all_base64(b),
    ensures
        lines_of_64(b).flatten() == b,
        forall|i: int| 0 <= i < lines_of_64(b).len() ==> #[trigger] lines_of_64(b)[i].len() > 0
            && all_base64(lines_of_64(b)[i]),
    decreases b.len(),
{
    let ls = lines_of_64(b);
    if b.len() == 0 {
        assert(ls.flatten() =~= b);
    } else if b.len() <= 64 {
        assert(ls =~= seq![b]);
        ls.lemma_flatten_singleton();
    } else {
        let head = b.take(64);
        let rest = b.skip(64);
        assert(all_base64(rest)) by {
            assert forall|i: int| 0 <= i < rest.len() implies is_base64_char(#[trigger] rest[i]) by {
                assert(rest[i] == b[i + 64]);
            }
        }
        assert(all_base64(head)) by {
            assert forall|i: int| 0 <= i < head.len() implies is_base64_char(#[trigger] head[i]) by {
                assert(head[i] == b[i]);
            }
        }
        lemma_lines_of_64(rest);
        assert(ls == seq![head] + lines_of_64(rest));
        lemma_flatten_concat(seq![head], lines_of_64(rest));
        seq![head].lemma_flatten_singleton();
        assert(head + rest =~= b);
        assert forall|i: int| 0 <= i < ls.len() implies #[trigger] ls[i].len() > 0 && all_base64(ls[i]) by {
            if i > 0 {
                assert(ls[i] == lines_of_64(rest)[i - 1]);
            }
        }
    }
}

/// A line of the Base64 body never starts like a boundary line.
proof fn lemma_body_line_not_dashes(l: Seq<char>)
    requires
        l.len() > 0,
        all_base64(l),
    ensures
        !spec_starts_with(l, dashes()),
{
    lemma_base64_not_special(l[0]);
    if l.len() >= 5 {
        assert(l.take(5)[0] != dashes()[0]);
    }
}

proof fn lemma_body_lines_prefix(begin: Seq<char>, mid: Seq<Seq<char>>)
    requires
        spec_starts_with(begin, dashes()),
        forall|i: int| 0 <= i < mid.len() ==> !spec_starts_with(#[trigger] mid[i], dashes()),
    ensures
        body_lines(seq![begin] + mid) == mid,
    decreases mid.len(),
{
    let x = seq![begin] + mid;
    if mid.len() == 0 {
        assert(x =~= seq![begin]);
        assert(x.drop_last() =~= Seq::<Seq<char>>::empty());
        assert(x.last() == begin);
        assert(body_lines(x) == body_lines(x.drop_last()));
        assert(body_lines(x) =~= mid);
    } else {
        assert(x.drop_last() =~= seq![begin] + mid.drop_last());
        assert(x.last() == mid.last());
        assert(!spec_starts_with(mid[mid.len() - 1], dashes()));
        lemma_body_lines_prefix(begin, mid.drop_last());
        assert(body_lines(x) == body_lines(x.drop_last()).push(x.last()));
        assert(mid.drop_last().push(mid.last()) =~= mid);
    }
}

proof fn lemma_body_lines_layout(tag: Seq<char>, b: Seq<char>)
    requires
        all_base64(b),
    ensures
        body_lines(pem_layout(tag, b)) == lines_of_64(b),
{
    let begin = dashes() + seq!['B', 'E', 'G', 'I', 'N', ' '] + tag + dashes();
    let end = dashes() + seq!['E', 'N', 'D', ' '] + tag + dashes();
    let mid = lines_of_64(b);
    lemma_lines_of_64(b);
    assert(begin.take(5) =~= dashes());
    assert(end.take(5) =~= dashes());
    assert forall|i: int| 0 <= i < mid.len() implies !spec_starts_with(#[trigger] mid[i], dashes()) by {
        lemma_body_line_not_dashes(mid[i]);
    }
    let x = seq![begin] + mid;
    assert(pem_layout(tag, b) =~= x.push(end));
    assert(x.push(end).drop_last() =~= x);
    lemma_body_lines_prefix(begin, mid);
}

proof fn lemma_remove_layout_concat(a: Seq<char>, b: Seq<char>)
    ensures
        spec_remove_layout(a + b) == spec_remove_layout(a) + spec_remove_layout(b),
    decreases b.len(),
{
    if b.len() == 0 {
        assert(a + b =~= a);
        assert(spec_remove_layout(a) + spec_remove_layout(b) =~= spec_remove_layout(a));
    } else {
        assert((a + b).drop_last() =~= a + b.drop_last());
        assert((a + b).last() == b.last());
        lemma_remove_layout_concat(a, b.drop_last());
        if is_layout_char(b.last()) {
        } else {
            assert(spec_remove_layout(a) + spec_remove_layout(b.drop_last()).push(b.last())
                =~= (spec_remove_layout(a) + spec_remove_layout(b.drop_last())).push(b.last()));
        }
    }
}

proof fn lemma_remove_layout_plain(s: Seq<char>)
    requires
        all_base64(s),
    ensures
        spec_remove_layout(s) == s,
    decreases s.len(),
{
    if s.len() > 0 {
        let t = s.drop_last();
        assert(all_base64(t)) by {
            assert forall|i: int| 0 <= i < t.len() implies is_base64_char(#[trigger] t[i]) by {
                assert(t[i] == s[i]);
            }
        }
        lemma_remove_layout_plain(t);
        lemma_base64_not_special(s[s.len() - 1]);
        assert(t.push(s.last()) =~= s);
    } else {
        assert(spec_remove_layout(s) =~= s);
    }
}

proof fn lemma_join_remove_layout(ls: Seq<Seq<char>>)
    requires
        forall|i: int| 0 <= i < ls.len() ==> all_base64(#[trigger] ls[i]),
    ensures
        spec_remove_layout(join_lines(ls)) == ls.flatten(),
    decreases ls.len(),
{
    if ls.len() == 0 {
        assert(ls.flatten() =~= Seq::<char>::empty());
    } else if ls.len() == 1 {
        lemma_remove_layout_plain(ls[0]);
        ls.lemma_flatten_singleton();
    } else {
        let init = ls.drop_last();
        assert forall|i: int| 0 <= i < init.len() implies all_base64(#[trigger] init[i]) by {
            assert(init[i] == ls[i]);
        }
        lemma_join_remove_layout(init);
        let j = join_lines(init);
        assert(join_lines(ls) == j.push('\n') + ls.last());
        lemma_remove_layout_concat(j.push('\n'), ls.last());
        assert(j.push('\n').drop_last() =~= j);
        assert(is_layout_char(j.push('\n').last()));
        assert(all_base64(ls[ls.len() - 1]));
        lemma_remove_layout_plain(ls.last());
        assert(init.push(ls.last()) =~= ls);
        init.lemma_flatten_push(ls.last());
    }
}

proof fn lemma_join_ends(ls: Seq<Seq<char>>)
    requires
        ls.len() > 0,
        forall|i: int| 0 <= i < ls.len() ==> #[trigger] ls[i].len() > 0,
    ensures
        join_lines(ls).len() > 0,
        join_lines(ls)[0] == ls[0][0],
        join_lines(ls).last() == ls.last().last(),
    decreases ls.len(),
{
    if ls.len() > 1 {
        let init = ls.drop_last();
        assert forall|i: int| 0 <= i < init.len() implies #[trigger] init[i].len() > 0 by {
            assert(init[i] == ls[i]);
        }
        lemma_join_ends(init);
        assert(ls[ls.len() - 1].len() > 0);
        assert(init[0] == ls[0]);
    }
}

proof fn lemma_trim_joined(ls: Seq<Seq<char>>)
    requires
        ls.len() > 0,
        forall|i: int| 0 <= i < ls.len() ==> #[trigger] ls[i].len() > 0 && all_base64(ls[i]),
    ensures
        spec_trim(join_lines(ls).push('\n')) == join_lines(ls),
{
    let j = join_lines(ls);
    let x = j.push('\n');
    assert forall|i: int| 0 <= i < ls.len() implies #[trigger] ls[i].len() > 0 by {}
    lemma_join_ends(ls);
    assert(all_base64(ls[0]));
    assert(all_base64(ls[ls.len() - 1]));
    lemma_base64_not_special(ls[0][0]);
    lemma_base64_not_special(ls.last().last());
    assert(x[0] == j[0]);
    lemma_trim_start_skip(x);
    assert(leading_ws(x) == 0);
    assert(x.skip(0) =~= x);
    lemma_trim_end_take(x);
    assert(x.drop_last() =~= j);
    assert(is_unicode_whitespace(x.last()));
    assert(trailing_ws(j) == 0);
    assert(trailing_ws(x) == 1);
    assert(x.take(x.len() - 1) =~= j);
}

/// The stealth form of a PEM key file (its Base64 lines alone) decodes to
/// the file's contents.
pub proof fn lemma_stealth_reads_back(pem: Seq<char>, tag: Seq<char>, contents: Seq<u8>)
    requires
        spec_lines(pem) == pem_layout(tag, pem_base64_of(pem)),
        base64_body(pem_base64_of(pem), contents),
    ensures
        spec_parse_key_blob(spec_strip_pem_headers(pem)) == Ok::<Seq<u8>, Seq<char>>(contents),
{
    let b = pem_base64_of(pem);
    let ls = lines_of_64(b);
    assert(all_base64(b));
    lemma_lines_of_64(b);
    lemma_body_lines_layout(tag, b);
    assert(body_lines(spec_lines(pem)) == ls);
    let j = join_lines(ls);
    assert(spec_strip_pem_headers(pem) == j.push('\n'));
    if ls.len() == 0 {
        lemma_stealth_empty(b);
    } else {
        assert forall|i: int| 0 <= i < ls.len() implies #[trigger] ls[i].len() > 0 && all_base64(ls[i]) by {}
        lemma_trim_joined(ls);
        lemma_join_ends(ls);
        lemma_base64_not_special(ls[0][0]);
        assert(!spec_starts_with(j, pem_begin())) by {
            if j.len() >= 10 {
                assert(j.take(10)[0] != pem_begin()[0]);
            }
        }
        assert forall|i: int| 0 <= i < ls.len() implies all_base64(#[trigger] ls[i]) by {}
        lemma_join_remove_layout(ls);
    }
}

/// An empty Base64 body strips to a lone line break, which reads as the
/// empty text.
proof fn lemma_stealth_empty(b: Seq<char>)
    requires
        lines_of_64(b).len() == 0,
        all_base64(b),
    ensures
        b.len() == 0,
        spec_trim(join_lines(lines_of_64(b)).push('\n')) == Seq::<char>::empty(),
        !spec_starts_with(Seq::<char>::empty(), pem_begin()),
        spec_remove_layout(Seq::<char>::empty()) == Seq::<char>::empty(),
{
    lemma_lines_of_64(b);
    assert(b == lines_of_64(b).flatten());
    assert(lines_of_64(b).flatten() =~= Seq::<char>::empty());
    let x = join_lines(lines_of_64(b)).push('\n');
    assert(x =~= seq!['\n']);
    lemma_trim_start_skip(x);
    assert(is_unicode_whitespace(x[0]));
    assert(leading_ws(x) == 1);
    assert(x.skip(1) =~= Seq::<char>::empty());
    let e = Seq::<char>::empty();
    lemma_trim_end_take(e);
    assert(e.take(0) =~= e);
}

/// A key file, whether it keeps its PEM armour or is stripped to its Base64
/// lines, reads back to the bytes it was rendered from.
pub proof fn lemma_key_file_reads_back(pem: Seq<char>, tag: Seq<char>, contents: Seq<u8>, nopemhead: bool)
    requires
        key_file_facts(pem, tag, contents),
    ensures
        spec_parse_key_blob(render_pem(pem, nopemhead)) == Ok::<Seq<u8>, Seq<char>>(contents),
{
    if nopemhead {
        lemma_stealth_reads_back(pem, tag, contents);
    } else {
        lemma_armour_trim_prefix(pem);
    }
}

} // verus!
