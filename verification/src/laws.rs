//! What a written secret file reads back as: the header that `Secret::create`
//! writes, followed by any ciphertext, is read by `Secret::read` as the same
//! name, kind, creation time and ciphertext.

use crate::error::MfjError;
use crate::secret::{
    collect_fields, find_separator, header_chars, header_lines, joined_lines, meta_of_fields, meta_of_stanzas,
    no_fields, read_outcome, Fields, KindView, MetaView, Outcome, SecretView,
};
use crate::stanza::{
    find_byte_from, find_colon_space, is_mfj_tag, lines_from, prepend_opt, read_stanzas_spec, split_from,
    stanza_of_line, stanzas_of_lines, strip_cr, StanzaView,
};
use crate::text::{decimal, is_digit, lemma_decimal_digits, lemma_parse_decimal};
use vstd::prelude::*;
use vstd::utf8::*;

verus! {

broadcast use vstd::utf8::char_is_scalar;

proof fn lemma_encode_concat(a: Seq<char>, b: Seq<char>)
    ensures
        encode_utf8(a + b) == encode_utf8(a) + encode_utf8(b),
    decreases a.len(),
{
    if a.len() == 0 {
        assert(a + b =~= b);
        assert(encode_utf8(a) =~= Seq::<u8>::empty());
        assert(encode_utf8(a) + encode_utf8(b) =~= encode_utf8(b));
    } else {
        assert((a + b).drop_first() =~= a.drop_first() + b);
        assert((a + b)[0] == a[0]);
        lemma_encode_concat(a.drop_first(), b);
        assert(encode_utf8(a + b) =~= encode_scalar(a[0] as u32) + (encode_utf8(a.drop_first())
            + encode_utf8(b)));
    }
}

proof fn lemma_high_bytes(x: u8)
    ensures
        (0xC0u8 | x) >= 0x80,
        (0xE0u8 | x) >= 0x80,
        (0xF0u8 | x) >= 0x80,
        (0x80u8 | x) >= 0x80,
{
    assert((0xC0u8 | x) >= 0x80) by (bit_vector);
    assert((0xE0u8 | x) >= 0x80) by (bit_vector);
    assert((0xF0u8 | x) >= 0x80) by (bit_vector);
    assert((0x80u8 | x) >= 0x80) by (bit_vector);
}

/// An ASCII character encodes as its own byte; every byte of any other
/// character's encoding is at least 0x80.
proof fn lemma_scalar_bytes(c: char)
    ensures
        encode_scalar(c as u32).len() >= 1,
        (c as u32) < 0x80 ==> encode_scalar(c as u32) == seq![(c as u32) as u8],
        (c as u32) >= 0x80 ==> forall|j: int|
            0 <= j < encode_scalar(c as u32).len() ==> #[trigger] encode_scalar(c as u32)[j] >= 0x80,
{
    let u = c as u32;
    if u < 0x80 {
        assert((u & 0x7F) as u8 == u as u8) by (bit_vector)
            requires
                u < 0x80,
        ;
    } else {
        lemma_high_bytes(((u >> 6) & 0x1F) as u8);
        lemma_high_bytes(((u >> 12) & 0x0F) as u8);
        lemma_high_bytes(((u >> 18) & 0x7) as u8);
        lemma_high_bytes((u & 0x3F) as u8);
        lemma_high_bytes(((u >> 6) & 0x3F) as u8);
        lemma_high_bytes(((u >> 12) & 0x3F) as u8);
    }
}

/// The encoding of a text holds an ASCII byte `x` exactly where the text
/// holds the character `x`; in particular it holds none if the text does not.
proof fn lemma_no_ascii_byte(s: Seq<char>, ch: char)
    requires
        (ch as u32) < 0x80,
        forall|i: int| 0 <= i < s.len() ==> #[trigger] s[i] != ch,
    ensures
        forall|j: int| 0 <= j < encode_utf8(s).len() ==> #[trigger] encode_utf8(s)[j] != (ch as u32) as u8,
    decreases s.len(),
{
    let x = (ch as u32) as u8;
    if s.len() > 0 {
        lemma_scalar_bytes(s[0]);
        assert forall|i: int| 0 <= i < s.drop_first().len() implies #[trigger] s.drop_first()[i] != ch by {
            assert(s.drop_first()[i] == s[i + 1]);
        }
        lemma_no_ascii_byte(s.drop_first(), ch);
        if (s[0] as u32) == (ch as u32) {
            char_u32_cast(s[0], s[0] as u32);
            char_u32_cast(ch, ch as u32);
            assert(s[0] == ch);
        }
        let e0 = encode_scalar(s[0] as u32);
        let er = encode_utf8(s.drop_first());
        assert forall|j: int| 0 <= j < encode_utf8(s).len() implies #[trigger] encode_utf8(s)[j]
            != x by {
            if j < e0.len() {
                assert(encode_utf8(s)[j] == e0[j]);
            } else {
                assert(encode_utf8(s)[j] == er[j - e0.len()]);
            }
        }
    }
}

/// If the encoding of a text ends with an ASCII byte, the text ends with
/// that character, and the rest encodes as the rest.
proof fn lemma_last_ascii(s: Seq<char>)
    requires
        encode_utf8(s).len() > 0,
        encode_utf8(s).last() < 0x80,
    ensures
        s.len() > 0,
        (s.last() as u32) as u8 == encode_utf8(s).last(),
        (s.last() as u32) < 0x80,
        encode_utf8(s.drop_last()) == encode_utf8(s).drop_last(),
{
    if s.len() == 0 {
        assert(encode_utf8(s) =~= Seq::<u8>::empty());
    }
    let p = s.drop_last();
    let c = s.last();
    assert(s =~= p + seq![c]);
    lemma_encode_concat(p, seq![c]);
    assert(seq![c].drop_first() =~= Seq::<char>::empty());
    assert(encode_utf8(seq![c]) =~= encode_scalar(c as u32) + encode_utf8(Seq::<char>::empty()));
    assert(encode_utf8(Seq::<char>::empty()) =~= Seq::<u8>::empty());
    lemma_scalar_bytes(c);
    let e = encode_scalar(c as u32);
    assert(encode_utf8(s) =~= encode_utf8(p) + e);
    if (c as u32) >= 0x80 {
        assert(e[e.len() - 1] >= 0x80);
        assert(false);
    }
    assert(encode_utf8(s).drop_last() =~= encode_utf8(p));
}

/// The bytes of a line feed and of the separator line `---`.
proof fn lemma_newline_encoding()
    ensures
        encode_utf8("\n"@) == seq![10u8],
        encode_utf8("---\n"@) == seq![45u8, 45u8, 45u8, 10u8],
{
    reveal_strlit("\n");
    reveal_strlit("---\n");
    assert("\n"@ =~= seq!['\n']);
    assert("---\n"@ =~= seq!['-', '-', '-', '\n']);
    lemma_scalar_bytes('\n');
    lemma_scalar_bytes('-');
    reveal_with_fuel(encode_utf8, 5);
    assert(encode_utf8(seq!['\n']) =~= seq![10u8]);
    assert(encode_utf8(seq!['-', '-', '-', '\n']) =~= seq![45u8, 45u8, 45u8, 10u8]);
}

proof fn lemma_find_byte_shift(p: Seq<u8>, r: Seq<u8>, x: u8, k: int)
    requires
        0 <= k,
    ensures
        find_byte_from(p + r, x, p.len() + k) == (match find_byte_from(r, x, k) {
            Some(j) => Some(j + p.len()),
            None => None,
        }),
    decreases r.len() - k,
{
    if k < r.len() {
        assert((p + r)[p.len() + k] == r[k]);
        lemma_find_byte_shift(p, r, x, k + 1);
    }
}

proof fn lemma_find_byte_range(b: Seq<u8>, x: u8, i: int)
    ensures
        find_byte_from(b, x, i) matches Some(j) ==> i <= j < b.len() && b[j] == x,
    decreases b.len() - i,
{
    if 0 <= i < b.len() && b[i] != x {
        lemma_find_byte_range(b, x, i + 1);
    }
}

proof fn lemma_lines_shift(p: Seq<u8>, r: Seq<u8>, k: int)
    requires
        0 <= k,
    ensures
        lines_from(p + r, p.len() + k) == lines_from(r, k),
    decreases r.len() - k,
{
    let b = p + r;
    let s = p.len() + k;
    if k < r.len() {
        lemma_find_byte_shift(p, r, 10u8, k);
        lemma_find_byte_range(r, 10u8, k);
        match find_byte_from(r, 10u8, k) {
            Some(j) => {
                assert(b.subrange(s, j + p.len()) =~= r.subrange(k, j));
                lemma_lines_shift(p, r, j + 1);
            },
            None => {
                assert(b.subrange(s, b.len() as int) =~= r.subrange(k, r.len() as int));
            },
        }
    }
}

proof fn lemma_find_byte_skip(b: Seq<u8>, x: u8, i: int, k: int)
    requires
        0 <= i <= k <= b.len(),
        forall|j: int| i <= j < k ==> #[trigger] b[j] != x,
    ensures
        find_byte_from(b, x, i) == find_byte_from(b, x, k),
    decreases k - i,
{
    if i < k {
        lemma_find_byte_skip(b, x, i + 1, k);
    }
}

/// A line has no line feed and does not end with a carriage return.
pub open spec fn plain_line(l: Seq<char>) -> bool {
    &&& forall|i: int| 0 <= i < l.len() ==> #[trigger] l[i] != '\n'
    &&& !(l.len() > 0 && l.last() == '\r')
}

/// The lines of an encoded text of plain lines are the encoded lines.
proof fn lemma_lines_of_joined(ls: Seq<Seq<char>>)
    requires
        forall|i: int| 0 <= i < ls.len() ==> plain_line(#[trigger] ls[i]),
    ensures
        lines_from(encode_utf8(joined_lines(ls)), 0) == ls.map_values(|l: Seq<char>| encode_utf8(l)),
    decreases ls.len(),
{
    if ls.len() == 0 {
        assert(encode_utf8(joined_lines(ls)) =~= Seq::<u8>::empty());
        assert(ls.map_values(|l: Seq<char>| encode_utf8(l)) =~= Seq::<Seq<u8>>::empty());
    } else {
        let l0 = ls[0];
        let rest = ls.drop_first();
        assert forall|i: int| 0 <= i < rest.len() implies plain_line(#[trigger] rest[i]) by {
            assert(rest[i] == ls[i + 1]);
        }
        lemma_lines_of_joined(rest);
        let e0 = encode_utf8(l0);
        let r = encode_utf8(joined_lines(rest));
        lemma_encode_concat(l0 + "\n"@, joined_lines(rest));
        lemma_encode_concat(l0, "\n"@);
        lemma_newline_encoding();
        let b = encode_utf8(joined_lines(ls));
        assert(joined_lines(ls) == l0 + "\n"@ + joined_lines(rest));
        assert(b =~= e0 + seq![10u8] + r);
        assert(('\n' as u32) == 10);
        assert(('\r' as u32) == 13);
        lemma_no_ascii_byte(l0, '\n');
        assert forall|j: int| 0 <= j < e0.len() implies #[trigger] b[j] != 10u8 by {
            assert(b[j] == e0[j]);
        }
        lemma_find_byte_skip(b, 10u8, 0, e0.len() as int);
        assert(b[e0.len() as int] == 10u8);
        assert(find_byte_from(b, 10u8, e0.len() as int) == Some(e0.len() as int));
        assert(b.subrange(0, e0.len() as int) =~= e0);
        if e0.len() > 0 && e0.last() == 13u8 {
            lemma_last_ascii(l0);
            assert((l0.last() as u32) == ('\r' as u32));
            char_u32_cast(l0.last(), l0.last() as u32);
            char_u32_cast('\r', '\r' as u32);
            assert(l0.last() == '\r');
            assert(false);
        }
        assert(strip_cr(e0) == e0);
        assert(b =~= (e0 + seq![10u8]) + r);
        lemma_lines_shift(e0 + seq![10u8], r, 0);
        assert(lines_from(b, 0) =~= seq![e0] + lines_from(r, 0));
        assert(ls.map_values(|l: Seq<char>| encode_utf8(l)) =~= seq![e0] + rest.map_values(
            |l: Seq<char>| encode_utf8(l),
        ));
    }
}

/// A line ends with three dashes.
pub open spec fn ends_with_dashes(l: Seq<char>) -> bool {
    l.len() >= 3 && l[l.len() - 1] == '-' && l[l.len() - 2] == '-' && l[l.len() - 3] == '-'
}

pub open spec fn separator_at(b: Seq<u8>, i: int) -> bool {
    0 <= i && i + 4 <= b.len() && b[i] == 45u8 && b[i + 1] == 45u8 && b[i + 2] == 45u8 && b[i + 3]
        == 10u8
}

proof fn lemma_sep_skip(b: Seq<u8>, i: int, k: int)
    requires
        0 <= i <= k,
        forall|j: int| i <= j < k ==> !#[trigger] separator_at(b, j),
    ensures
        find_separator(b, i) == find_separator(b, k),
    decreases k - i,
{
    if i < k {
        assert(!separator_at(b, i));
        lemma_sep_skip(b, i + 1, k);
    }
}

proof fn lemma_sep_shift(p: Seq<u8>, r: Seq<u8>, k: int)
    requires
        0 <= k,
    ensures
        find_separator(p + r, p.len() + k) == (match find_separator(r, k) {
            Some(j) => Some(j + p.len()),
            None => None,
        }),
    decreases r.len() - k,
{
    if k + 4 <= r.len() {
        let b = p + r;
        assert(b[p.len() + k] == r[k]);
        assert(b[p.len() + k + 1] == r[k + 1]);
        assert(b[p.len() + k + 2] == r[k + 2]);
        assert(b[p.len() + k + 3] == r[k + 3]);
        lemma_sep_shift(p, r, k + 1);
    }
}

proof fn lemma_ascii_last_char(l: Seq<char>, c: char)
    requires
        encode_utf8(l).len() > 0,
        (c as u32) < 0x80,
        encode_utf8(l).last() == (c as u32) as u8,
    ensures
        l.len() > 0,
        l.last() == c,
        encode_utf8(l.drop_last()) == encode_utf8(l).drop_last(),
{
    lemma_last_ascii(l);
    assert((l.last() as u32) == (c as u32));
    char_u32_cast(l.last(), l.last() as u32);
    char_u32_cast(c, c as u32);
}

/// An encoded line whose bytes end with three dashes ends with three dashes.
proof fn lemma_encoded_dashes(l: Seq<char>)
    requires
        encode_utf8(l).len() >= 3,
        encode_utf8(l)[encode_utf8(l).len() - 1] == 45u8,
        encode_utf8(l)[encode_utf8(l).len() - 2] == 45u8,
        encode_utf8(l)[encode_utf8(l).len() - 3] == 45u8,
    ensures
        ends_with_dashes(l),
{
    let e = encode_utf8(l);
    assert(('-' as u32) == 45);
    lemma_ascii_last_char(l, '-');
    let l1 = l.drop_last();
    assert(encode_utf8(l1).last() == e[e.len() - 2]);
    lemma_ascii_last_char(l1, '-');
    let l2 = l1.drop_last();
    assert(encode_utf8(l2).last() == e[e.len() - 3]);
    lemma_ascii_last_char(l2, '-');
    assert(l[l.len() - 2] == l1.last());
    assert(l[l.len() - 3] == l2.last());
}

/// In the encoded lines of a header, the first separator is the one that
/// follows them.
proof fn lemma_separator_after_lines(ls: Seq<Seq<char>>, tail: Seq<u8>)
    requires
        forall|i: int| 0 <= i < ls.len() ==> plain_line(#[trigger] ls[i]) && !ends_with_dashes(ls[i]),
    ensures
        find_separator(encode_utf8(joined_lines(ls)) + seq![45u8, 45u8, 45u8, 10u8] + tail, 0)
            == Some(encode_utf8(joined_lines(ls)).len() as int),
    decreases ls.len(),
{
    let sep = seq![45u8, 45u8, 45u8, 10u8];
    if ls.len() == 0 {
        assert(encode_utf8(joined_lines(ls)) =~= Seq::<u8>::empty());
        let b = encode_utf8(joined_lines(ls)) + sep + tail;
        assert(b[0] == 45u8 && b[1] == 45u8 && b[2] == 45u8 && b[3] == 10u8);
    } else {
        let l0 = ls[0];
        let rest = ls.drop_first();
        assert forall|i: int| 0 <= i < rest.len() implies plain_line(#[trigger] rest[i])
            && !ends_with_dashes(rest[i]) by {
            assert(rest[i] == ls[i + 1]);
        }
        lemma_separator_after_lines(rest, tail);
        let e0 = encode_utf8(l0);
        let r = encode_utf8(joined_lines(rest));
        lemma_encode_concat(l0 + "\n"@, joined_lines(rest));
        lemma_encode_concat(l0, "\n"@);
        lemma_newline_encoding();
        assert(joined_lines(ls) == l0 + "\n"@ + joined_lines(rest));
        assert(encode_utf8(joined_lines(ls)) =~= e0 + seq![10u8] + r);
        let p = e0 + seq![10u8];
        let b = encode_utf8(joined_lines(ls)) + sep + tail;
        assert(b =~= p + (r + sep + tail));
        lemma_no_ascii_byte(l0, '\n');
        assert(('\n' as u32) == 10);
        assert forall|j: int| 0 <= j < e0.len() + 1 implies !#[trigger] separator_at(b, j) by {
            assert(b[e0.len() as int] == 10u8);
            if j + 3 < e0.len() {
                assert(b[j + 3] == e0[j + 3]);
            } else if j + 3 == e0.len() {
                if separator_at(b, j) {
                    assert(b[j] == e0[e0.len() - 3]);
                    assert(b[j + 1] == e0[e0.len() - 2]);
                    assert(b[j + 2] == e0[e0.len() - 1]);
                    lemma_encoded_dashes(l0);
                }
            }
        }
        lemma_sep_skip(b, 0, (e0.len() + 1) as int);
        lemma_sep_shift(p, r + sep + tail, 0);
        assert(r + sep + tail =~= encode_utf8(joined_lines(rest)) + sep + tail);
    }
}

proof fn lemma_colon_skip(s: Seq<char>, i: int, k: int)
    requires
        0 <= i <= k,
        forall|j: int| i <= j < k && j < s.len() ==> #[trigger] s[j] != ':',
    ensures
        find_colon_space(s, i) == find_colon_space(s, k),
    decreases k - i,
{
    if i < k {
        lemma_colon_skip(s, i + 1, k);
    }
}

proof fn lemma_colon_shift(p: Seq<char>, v: Seq<char>, k: int)
    requires
        0 <= k,
    ensures
        find_colon_space(p + v, p.len() + k) == (match find_colon_space(v, k) {
            Some(j) => Some(j + p.len()),
            None => None,
        }),
    decreases v.len() - k,
{
    if k + 1 < v.len() {
        assert((p + v)[p.len() + k] == v[k]);
        assert((p + v)[p.len() + k + 1] == v[k + 1]);
        lemma_colon_shift(p, v, k + 1);
    }
}

proof fn lemma_colon_range(s: Seq<char>, i: int)
    ensures
        find_colon_space(s, i) matches Some(j) ==> i <= j && j + 2 <= s.len(),
    decreases s.len() - i,
{
    if 0 <= i && i + 1 < s.len() && !(s[i] == ':' && s[i + 1] == ' ') {
        lemma_colon_range(s, i + 1);
    }
}

proof fn lemma_split_shift(p: Seq<char>, v: Seq<char>, k: int)
    requires
        0 <= k <= v.len(),
    ensures
        split_from(p + v, p.len() + k) == split_from(v, k),
    decreases v.len() - k,
{
    lemma_colon_shift(p, v, k);
    lemma_colon_range(v, k);
    match find_colon_space(v, k) {
        Some(j) => {
            assert((p + v).subrange(p.len() + k, j + p.len()) =~= v.subrange(k, j));
            lemma_split_shift(p, v, j + 2);
        },
        None => {
            assert((p + v).subrange(p.len() + k, (p + v).len() as int) =~= v.subrange(
                k,
                v.len() as int,
            ));
        },
    }
}

/// No `": "` occurs in the text.
pub open spec fn no_colon_space(v: Seq<char>) -> bool {
    find_colon_space(v, 0) is None
}

/// The line `-> TAG: VALUE` holds the stanza `TAG` with the one argument
/// `VALUE`, when the tag is an `mfj-` tag without colons and the value holds
/// no `": "`.
proof fn lemma_stanza_line(tag: Seq<char>, val: Seq<char>)
    requires
        is_mfj_tag(tag),
        forall|j: int| 0 <= j < tag.len() ==> #[trigger] tag[j] != ':',
        no_colon_space(val),
    ensures
        stanza_of_line(seq!['-', '>', ' '] + tag + seq![':', ' '] + val) == Some(
            StanzaView { tag: tag, args: seq![val], body: seq![] },
        ),
{
    let a = seq!['-', '>', ' '];
    let c = seq![':', ' '];
    let line = a + tag + c + val;
    let t = tag.len() as int;
    assert(line[0] == '-' && line[1] == '>' && line[2] == ' ');
    assert forall|j: int| 3 <= j < 3 + t && j < line.len() implies #[trigger] line[j] != ':' by {
        assert(line[j] == tag[j - 3]);
    }
    lemma_colon_skip(line, 3, 3 + t);
    assert(line[3 + t] == ':' && line[3 + t + 1] == ' ');
    assert(find_colon_space(line, 3 + t) == Some(3 + t));
    assert(line.subrange(3, 3 + t) =~= tag);
    assert(line =~= (a + tag + c) + val);
    lemma_split_shift(a + tag + c, val, 0);
    assert(split_from(val, 0) == seq![val.subrange(0, val.len() as int)]);
    assert(val.subrange(0, val.len() as int) =~= val);
    assert(split_from(line, 3) =~= seq![tag, val]);
    assert(seq![tag, val].drop_first() =~= seq![val]);
}

/// The stanzas the lines `ls` hold, in order.
pub open spec fn stanzas_in(ls: Seq<Seq<char>>) -> Seq<StanzaView>
    decreases ls.len(),
{
    if ls.len() == 0 {
        seq![]
    } else {
        prepend_opt(stanza_of_line(ls[0]), stanzas_in(ls.drop_first()))
    }
}

/// Encoded lines that all start with `->` read as the stanzas they hold.
proof fn lemma_stanzas_of_encoded(ls: Seq<Seq<char>>)
    requires
        forall|i: int| 0 <= i < ls.len() ==> (#[trigger] ls[i]).len() >= 2 && ls[i][0] == '-'
            && ls[i][1] == '>',
    ensures
        stanzas_of_lines(ls.map_values(|l: Seq<char>| encode_utf8(l))) == Ok::<
            Seq<StanzaView>,
            crate::error::MfjError,
        >(stanzas_in(ls)),
    decreases ls.len(),
{
    let es = ls.map_values(|l: Seq<char>| encode_utf8(l));
    if ls.len() > 0 {
        let rest = ls.drop_first();
        assert forall|i: int| 0 <= i < rest.len() implies (#[trigger] rest[i]).len() >= 2
            && rest[i][0] == '-' && rest[i][1] == '>' by {
            assert(rest[i] == ls[i + 1]);
        }
        lemma_stanzas_of_encoded(rest);
        assert(es.drop_first() =~= rest.map_values(|l: Seq<char>| encode_utf8(l)));
        encode_utf8_valid_utf8(ls[0]);
        encode_utf8_decode_utf8(ls[0]);
        assert(es[0] == encode_utf8(ls[0]));
        assert(ls[0][1] != '-');
    } else {
        assert(es =~= Seq::<Seq<u8>>::empty());
    }
}

/// A header value: no line feed, no `": "`, no trailing carriage return,
/// and not ending with three dashes.
pub open spec fn header_safe(v: Seq<char>) -> bool {
    &&& plain_line(v)
    &&& !ends_with_dashes(v)
    &&& no_colon_space(v)
}

proof fn lemma_no_colon(s: Seq<char>)
    requires
        forall|i: int| 0 <= i < s.len() ==> #[trigger] s[i] != ':',
    ensures
        no_colon_space(s),
{
    lemma_colon_skip(s, 0, s.len() as int);
}

/// The prefix `-> TAG: ` of a stanza line.
pub open spec fn stanza_prefix(tag: Seq<char>) -> Seq<char> {
    seq!['-', '>', ' '] + tag + seq![':', ' ']
}

/// A stanza with one argument.
pub open spec fn one_arg(tag: Seq<char>, val: Seq<char>) -> StanzaView {
    StanzaView { tag: tag, args: seq![val], body: seq![] }
}

/// A line made of a stanza prefix and a header-safe value is a plain line
/// that starts with `->` and does not end with three dashes.
proof fn lemma_prefixed_line(tag: Seq<char>, v: Seq<char>)
    requires
        forall|i: int| 0 <= i < tag.len() ==> #[trigger] tag[i] != '\n',
        header_safe(v),
    ensures
        plain_line(stanza_prefix(tag) + v),
        !ends_with_dashes(stanza_prefix(tag) + v),
        (stanza_prefix(tag) + v).len() >= 2,
        (stanza_prefix(tag) + v)[0] == '-',
        (stanza_prefix(tag) + v)[1] == '>',
{
    let p = stanza_prefix(tag);
    let l = p + v;
    assert forall|i: int| 0 <= i < p.len() implies #[trigger] p[i] != '\n' by {
        if 3 <= i < 3 + tag.len() {
            assert(p[i] == tag[i - 3]);
        }
    }
    assert forall|i: int| 0 <= i < l.len() implies #[trigger] l[i] != '\n' by {
        if i < p.len() {
            assert(l[i] == p[i]);
        } else {
            assert(l[i] == v[i - p.len()]);
        }
    }
    let n = l.len() as int;
    assert(p[p.len() - 1] == ' ');
    assert(l[p.len() - 1] == ' ');
    if v.len() == 0 {
        assert(l[n - 1] == ' ');
    } else {
        assert(l[n - 1] == v[v.len() - 1]);
        if v.len() >= 3 {
            assert(l[n - 2] == v[v.len() - 2]);
            assert(l[n - 3] == v[v.len() - 3]);
        } else if v.len() == 1 {
            assert(l[n - 2] == ' ');
        } else {
            assert(l[n - 3] == ' ');
        }
    }
    assert(l[0] == '-' && l[1] == '>');
}

/// The header's literal lines, taken apart into prefix and value.
proof fn lemma_header_literals()
    ensures
        "-> mfj-type: env"@ == stanza_prefix("mfj-type"@) + "env"@,
        "-> mfj-type: file"@ == stanza_prefix("mfj-type"@) + "file"@,
        "-> mfj-target: "@ == stanza_prefix("mfj-target"@),
        "-> mfj-name: "@ == stanza_prefix("mfj-name"@),
        "-> mfj-created: "@ == stanza_prefix("mfj-created"@),
        "mfj-type"@ == seq!['m', 'f', 'j', '-', 't', 'y', 'p', 'e'],
        "mfj-target"@ == seq!['m', 'f', 'j', '-', 't', 'a', 'r', 'g', 'e', 't'],
        "mfj-name"@ == seq!['m', 'f', 'j', '-', 'n', 'a', 'm', 'e'],
        "mfj-created"@ == seq!['m', 'f', 'j', '-', 'c', 'r', 'e', 'a', 't', 'e', 'd'],
        "env"@ == seq!['e', 'n', 'v'],
        "file"@ == seq!['f', 'i', 'l', 'e'],
        "age-encryption.org/v1"@.len() == 21,
        "age-encryption.org/v1"@.last() == '1',
        forall|i: int| 0 <= i < "age-encryption.org/v1"@.len() ==> #[trigger] "age-encryption.org/v1"@[i] != '\n',
{
    reveal_strlit("-> mfj-type: env");
    reveal_strlit("-> mfj-type: file");
    reveal_strlit("-> mfj-target: ");
    reveal_strlit("-> mfj-name: ");
    reveal_strlit("-> mfj-created: ");
    reveal_strlit("mfj-type");
    reveal_strlit("mfj-target");
    reveal_strlit("mfj-name");
    reveal_strlit("mfj-created");
    reveal_strlit("env");
    reveal_strlit("file");
    reveal_strlit("age-encryption.org/v1");
    assert("-> mfj-type: env"@ =~= stanza_prefix("mfj-type"@) + "env"@);
    assert("-> mfj-type: file"@ =~= stanza_prefix("mfj-type"@) + "file"@);
    assert("-> mfj-target: "@ =~= stanza_prefix("mfj-target"@));
    assert("-> mfj-name: "@ =~= stanza_prefix("mfj-name"@));
    assert("-> mfj-created: "@ =~= stanza_prefix("mfj-created"@));
    assert("mfj-type"@ =~= seq!['m', 'f', 'j', '-', 't', 'y', 'p', 'e']);
    assert("mfj-target"@ =~= seq!['m', 'f', 'j', '-', 't', 'a', 'r', 'g', 'e', 't']);
    assert("mfj-name"@ =~= seq!['m', 'f', 'j', '-', 'n', 'a', 'm', 'e']);
    assert("mfj-created"@ =~= seq!['m', 'f', 'j', '-', 'c', 'r', 'e', 'a', 't', 'e', 'd']);
    assert("env"@ =~= seq!['e', 'n', 'v']);
    assert("file"@ =~= seq!['f', 'i', 'l', 'e']);
}

proof fn lemma_decimal_safe(n: nat)
    ensures
        header_safe(decimal(n)),
{
    let d = decimal(n);
    lemma_decimal_digits(n);
    assert forall|i: int| 0 <= i < d.len() implies #[trigger] d[i] != ':' && d[i] != '\n' by {
        assert(is_digit(d[i]));
    }
    lemma_no_colon(d);
    assert(is_digit(d[d.len() - 1]));
}

/// The stanzas the lines of a secret header (after the first) hold.
pub open spec fn header_stanzas(name: Seq<char>, kind: KindView, created: u64) -> Seq<StanzaView> {
    let n = one_arg("mfj-name"@, name);
    let c = one_arg("mfj-created"@, decimal(created as nat));
    match kind {
        KindView::Env => seq![one_arg("mfj-type"@, "env"@), n, c],
        KindView::File(t) => seq![one_arg("mfj-type"@, "file"@), one_arg("mfj-target"@, t), n, c],
    }
}

proof fn lemma_literal_stanza(tag: Seq<char>, val: Seq<char>)
    requires
        is_mfj_tag(tag),
        forall|j: int| 0 <= j < tag.len() ==> #[trigger] tag[j] != ':' && tag[j] != '\n',
        header_safe(val),
    ensures
        stanza_of_line(stanza_prefix(tag) + val) == Some(one_arg(tag, val)),
        plain_line(stanza_prefix(tag) + val),
        !ends_with_dashes(stanza_prefix(tag) + val),
        (stanza_prefix(tag) + val).len() >= 2,
        (stanza_prefix(tag) + val)[0] == '-',
        (stanza_prefix(tag) + val)[1] == '>',
{
    lemma_stanza_line(tag, val);
    lemma_prefixed_line(tag, val);
}

/// Every line of a header with safe values is plain and not a separator;
/// the lines after the first are stanza lines holding `header_stanzas`.
proof fn lemma_header_lines(name: Seq<char>, kind: KindView, created: u64)
    requires
        header_safe(name),
        kind matches KindView::File(t) ==> header_safe(t),
    ensures
        forall|i: int|
            0 <= i < header_lines(name, kind, created).len() ==> plain_line(
                #[trigger] header_lines(name, kind, created)[i],
            ) && !ends_with_dashes(header_lines(name, kind, created)[i]),
        header_lines(name, kind, created).len() > 0,
        forall|i: int|
            0 <= i < header_lines(name, kind, created).drop_first().len() ==> (
            #[trigger] header_lines(name, kind, created).drop_first()[i]).len() >= 2
                && header_lines(name, kind, created).drop_first()[i][0] == '-'
                && header_lines(name, kind, created).drop_first()[i][1] == '>',
        stanzas_in(header_lines(name, kind, created).drop_first()) == header_stanzas(
            name,
            kind,
            created,
        ),
{
    lemma_header_literals();
    lemma_decimal_safe(created as nat);
    let ls = header_lines(name, kind, created);
    let rest = ls.drop_first();
    let dec = decimal(created as nat);
    let first = "age-encryption.org/v1"@;
    assert(!ends_with_dashes(first));
    assert(plain_line(first));
    let env = "env"@;
    let file = "file"@;
    assert(header_safe(env)) by {
        lemma_no_colon(env);
    }
    assert(header_safe(file)) by {
        lemma_no_colon(file);
    }
    let tt = "mfj-type"@;
    let tn = "mfj-name"@;
    let tc = "mfj-created"@;
    let tg = "mfj-target"@;
    lemma_literal_stanza(tn, name);
    lemma_literal_stanza(tc, dec);
    match kind {
        KindView::Env => {
            lemma_literal_stanza(tt, env);
            assert(rest =~= seq![stanza_prefix(tt) + env, stanza_prefix(tn) + name, stanza_prefix(tc) + dec]);
            let r2 = rest.drop_first().drop_first();
            assert(r2.drop_first() =~= Seq::<Seq<char>>::empty());
            assert(r2[0] == stanza_prefix(tc) + dec);
            assert(stanzas_in(r2.drop_first()) =~= Seq::<StanzaView>::empty());
            assert(stanzas_in(r2) =~= seq![one_arg(tc, dec)]);
            assert(stanzas_in(rest.drop_first()) =~= seq![one_arg(tn, name), one_arg(tc, dec)]);
            assert(stanzas_in(rest) =~= header_stanzas(name, kind, created));
        },
        KindView::File(t) => {
            lemma_literal_stanza(tt, file);
            lemma_literal_stanza(tg, t);
            assert(rest =~= seq![
                stanza_prefix(tt) + file,
                stanza_prefix(tg) + t,
                stanza_prefix(tn) + name,
                stanza_prefix(tc) + dec,
            ]);
            let r3 = rest.drop_first().drop_first().drop_first();
            assert(r3.drop_first() =~= Seq::<Seq<char>>::empty());
            assert(r3[0] == stanza_prefix(tc) + dec);
            assert(stanzas_in(r3.drop_first()) =~= Seq::<StanzaView>::empty());
            assert(stanzas_in(r3) =~= seq![one_arg(tc, dec)]);
            assert(stanzas_in(rest.drop_first().drop_first()) =~= seq![one_arg(tn, name), one_arg(tc, dec)]);
            assert(stanzas_in(rest.drop_first()) =~= seq![one_arg(tg, t), one_arg(tn, name), one_arg(tc, dec)]);
            assert(stanzas_in(rest) =~= header_stanzas(name, kind, created));
        },
    }
}

/// The stanzas of a secret header record its name, kind and creation time.
proof fn lemma_header_meta(name: Seq<char>, kind: KindView, created: u64)
    ensures
        meta_of_stanzas(header_stanzas(name, kind, created)) == Outcome::Value(
            MetaView { name: name, kind: kind, created: created },
        ),
{
    lemma_header_literals();
    lemma_parse_decimal(created);
    let tt = "mfj-type"@;
    let tn = "mfj-name"@;
    let tc = "mfj-created"@;
    let tg = "mfj-target"@;
    assert(tt[4] != tn[4]);
    assert(tt != tn);
    assert(tg.len() != tn.len() && tg.len() != tt.len());
    assert(tc.len() != tn.len() && tc.len() != tt.len() && tc.len() != tg.len());
    let dec = decimal(created as nat);
    let st = header_stanzas(name, kind, created);
    let f0 = no_fields();
    let empty = Seq::<StanzaView>::empty();
    match kind {
        KindView::Env => {
            let f1 = Fields { kind: Some("env"@), ..f0 };
            let f2 = Fields { name: Some(name), ..f1 };
            let f3 = Fields { created: Some(created), ..f2 };
            let s1 = st.drop_first();
            let s2 = s1.drop_first();
            assert(s1 =~= seq![one_arg(tn, name), one_arg(tc, dec)]);
            assert(s2 =~= seq![one_arg(tc, dec)]);
            assert(s2.drop_first() =~= empty);
            assert(collect_fields(s2.drop_first(), f3) == Ok::<Fields, MfjError>(f3));
            assert(collect_fields(s2, f2) == collect_fields(s2.drop_first(), f3));
            assert(collect_fields(s1, f1) == collect_fields(s2, f2));
            assert(collect_fields(st, f0) == collect_fields(s1, f1));
            assert(meta_of_fields(f3) == Outcome::Value(MetaView { name: name, kind: kind, created: created }));
        },
        KindView::File(t) => {
            let f1 = Fields { kind: Some("file"@), ..f0 };
            let f2 = Fields { target: Some(t), ..f1 };
            let f3 = Fields { name: Some(name), ..f2 };
            let f4 = Fields { created: Some(created), ..f3 };
            let s1 = st.drop_first();
            let s2 = s1.drop_first();
            let s3 = s2.drop_first();
            assert(s1 =~= seq![one_arg(tg, t), one_arg(tn, name), one_arg(tc, dec)]);
            assert(s2 =~= seq![one_arg(tn, name), one_arg(tc, dec)]);
            assert(s3 =~= seq![one_arg(tc, dec)]);
            assert(s3.drop_first() =~= empty);
            assert(collect_fields(s3.drop_first(), f4) == Ok::<Fields, MfjError>(f4));
            assert(collect_fields(s3, f3) == collect_fields(s3.drop_first(), f4));
            assert(collect_fields(s2, f2) == collect_fields(s3, f3));
            assert(collect_fields(s1, f1) == collect_fields(s2, f2));
            assert(collect_fields(st, f0) == collect_fields(s1, f1));
            assert("file"@ != "env"@);
            assert(meta_of_fields(f4) == Outcome::Value(MetaView { name: name, kind: kind, created: created }));
        },
    }
}

/// What a secret file reads back as: the file written for a name, a kind
/// and a creation time, followed by any ciphertext, reads as a secret with
/// that name, kind, creation time and ciphertext, provided that the name
/// (and a file secret's target) holds no line feed and no `": "`, does not
/// end with a carriage return and does not end with `---`.
pub proof fn lemma_secret_file_roundtrip(
    name: Seq<char>,
    kind: KindView,
    created: u64,
    ciphertext: Seq<u8>,
)
    requires
        header_safe(name),
        kind matches KindView::File(t) ==> header_safe(t),
    ensures
        read_outcome(encode_utf8(header_chars(name, kind, created)) + ciphertext) == Outcome::Value(
            SecretView {
                meta: MetaView { name: name, kind: kind, created: created },
                ciphertext: ciphertext,
            },
        ),
{
    let ls = header_lines(name, kind, created);
    lemma_header_lines(name, kind, created);
    lemma_header_meta(name, kind, created);
    let j = joined_lines(ls);
    let e = encode_utf8(j);
    lemma_encode_concat(j, "---\n"@);
    lemma_newline_encoding();
    let sep = seq![45u8, 45u8, 45u8, 10u8];
    let bytes = encode_utf8(header_chars(name, kind, created)) + ciphertext;
    assert(bytes =~= e + sep + ciphertext);
    lemma_separator_after_lines(ls, ciphertext);
    assert(find_separator(bytes, 0) == Some(e.len() as int));
    assert(bytes.take(e.len() as int) =~= e);
    assert(bytes.skip(e.len() + 4int) =~= ciphertext);
    lemma_lines_of_joined(ls);
    let es = ls.map_values(|l: Seq<char>| encode_utf8(l));
    assert(lines_from(e, 0) == es);
    assert(es.drop_first() =~= ls.drop_first().map_values(|l: Seq<char>| encode_utf8(l)));
    lemma_stanzas_of_encoded(ls.drop_first());
    assert(read_stanzas_spec(e) == Ok::<Seq<StanzaView>, MfjError>(header_stanzas(name, kind, created)));
}

/// Every valid environment secret name is a safe header value.
pub proof fn lemma_env_name_header_safe(name: Seq<char>)
    requires
        crate::name::spec_parse::<crate::name::EnvSecret>(name) is Ok,
    ensures
        header_safe(name),
{
    assert forall|i: int| 0 <= i < name.len() implies #[trigger] name[i] != ':' && name[i] != '\n'
        && name[i] != '\r' && name[i] != '-' by {
        assert(crate::name::is_env_char(name[i]));
    }
    lemma_no_colon(name);
    if name.len() > 0 {
        assert(name[name.len() - 1] != '-');
    }
}

} // verus!
