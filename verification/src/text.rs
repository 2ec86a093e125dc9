//! Small verified helpers over `str`, `String` and byte sequences: the
//! characters of a string, decimal formatting and parsing of `u64`, and
//! UTF-8 decoding of byte slices.

use core::str::Utf8Error;
use vstd::prelude::*;
use vstd::string::*;
use vstd::utf8::{decode_utf8, valid_utf8};

verus! {

broadcast use vstd::string::group_string_axioms;

/// The characters of `s`, in order.
pub fn chars_of(s: &str) -> (v: Vec<char>)
    ensures
        v@ == s@,
{
    let mut v: Vec<char> = Vec::new();
    for c in it: s.chars()
        invariant
            v@ == it.seq().take(it.index() as int),
            it.seq() == s@,
    {
        v.push(c);
    }
    v
}

/// The decimal digit character for `d < 10`.
pub open spec fn digit_char(d: nat) -> char {
    if d == 0 {
        '0'
    } else if d == 1 {
        '1'
    } else if d == 2 {
        '2'
    } else if d == 3 {
        '3'
    } else if d == 4 {
        '4'
    } else if d == 5 {
        '5'
    } else if d == 6 {
        '6'
    } else if d == 7 {
        '7'
    } else if d == 8 {
        '8'
    } else {
        '9'
    }
}

/// The value of a decimal digit character.
pub open spec fn digit_value(c: char) -> nat {
    ((c as u32) - ('0' as u32)) as nat
}

/// The decimal representation of `n`: no sign, no leading zeros.
pub open spec fn decimal(n: nat) -> Seq<char>
    decreases n,
{
    if n < 10 {
        seq![digit_char(n)]
    } else {
        decimal(n / 10).push(digit_char(n % 10))
    }
}

fn digit_str(d: u64) -> (r: &'static str)
    requires
        d < 10,
    ensures
        r@ == seq![digit_char(d as nat)],
{
    proof {
        reveal_strlit("0");
        reveal_strlit("1");
        reveal_strlit("2");
        reveal_strlit("3");
        reveal_strlit("4");
        reveal_strlit("5");
        reveal_strlit("6");
        reveal_strlit("7");
        reveal_strlit("8");
        reveal_strlit("9");
    }
    if d == 0 {
        "0"
    } else if d == 1 {
        "1"
    } else if d == 2 {
        "2"
    } else if d == 3 {
        "3"
    } else if d == 4 {
        "4"
    } else if d == 5 {
        "5"
    } else if d == 6 {
        "6"
    } else if d == 7 {
        "7"
    } else if d == 8 {
        "8"
    } else {
        "9"
    }
}

/// Formats `n` in decimal, as `Display` for `u64` does.
pub fn u64_to_decimal(n: u64) -> (s: String)
    ensures
        s@ == decimal(n as nat),
    decreases n,
{
    if n < 10 {
        let mut s = String::new();
        s.append(digit_str(n));
        s
    } else {
        let mut s = u64_to_decimal(n / 10);
        s.append(digit_str(n % 10));
        s
    }
}

/// Why a text is not a `u64` (the kinds of `core::num::IntErrorKind` that
/// an unsigned parse can report).
#[derive(Debug, Clone, Copy, PartialEq, Eq)]
pub enum IntErrorKind {
    Empty,
    InvalidDigit,
    PosOverflow,
}

pub open spec fn is_digit(c: char) -> bool {
    '0' <= c && c <= '9'
}

/// Accumulates the digits of `s` onto `acc` from left to right; the first
/// non-digit, or the first step past `u64::MAX`, ends the scan with an error.
pub open spec fn scan_digits(s: Seq<char>, acc: nat) -> Result<u64, IntErrorKind>
    decreases s.len(),
{
    if s.len() == 0 {
        Ok(acc as u64)
    } else if !is_digit(s[0]) {
        Err(IntErrorKind::InvalidDigit)
    } else if acc * 10 + digit_value(s[0]) > u64::MAX {
        Err(IntErrorKind::PosOverflow)
    } else {
        scan_digits(s.drop_first(), acc * 10 + digit_value(s[0]))
    }
}

/// The outcome of `u64::from_str` on `s`: an optional leading `+`, then at
/// least one decimal digit.
pub open spec fn parse_u64_spec(s: Seq<char>) -> Result<u64, IntErrorKind> {
    if s.len() == 0 {
        Err(IntErrorKind::Empty)
    } else if s.len() == 1 && (s[0] == '+' || s[0] == '-') {
        Err(IntErrorKind::InvalidDigit)
    } else if s[0] == '+' {
        scan_digits(s.drop_first(), 0)
    } else {
        scan_digits(s, 0)
    }
}

/// Parses a decimal `u64` as `str::parse::<u64>` does.
pub fn parse_u64(s: &str) -> (r: Result<u64, IntErrorKind>)
    ensures
        r == parse_u64_spec(s@),
{
    let v = chars_of(s);
    if v.len() == 0 {
        return Err(IntErrorKind::Empty);
    }
    if v.len() == 1 && (v[0] == '+' || v[0] == '-') {
        return Err(IntErrorKind::InvalidDigit);
    }
    let mut i: usize = if v[0] == '+' {
        1
    } else {
        0
    };
    let ghost start = i;
    let mut acc: u64 = 0;
    assert(v@.skip(start as int) =~= (if v@[0] == '+' {
        v@.drop_first()
    } else {
        v@
    }));
    assert(v@.skip(0) =~= v@);
    while i < v.len()
        invariant
            v@ == s@,
            start <= i <= v.len(),
            parse_u64_spec(s@) == scan_digits(v@.skip(i as int), acc as nat),
            v@.len() > 0,
            start == (if v@[0] == '+' {
                1int
            } else {
                0int
            }),
            !(v@.len() == 1 && (v@[0] == '+' || v@[0] == '-')),
        decreases v.len() - i,
    {
        let c = v[i];
        assert(v@.skip(i as int).drop_first() =~= v@.skip(i + 1));
        if !('0' <= c && c <= '9') {
            return Err(IntErrorKind::InvalidDigit);
        }
        let d = (c as u32 - '0' as u32) as u64;
        if acc > 1844674407370955161 || (acc == 1844674407370955161 && d > 5) {
            return Err(IntErrorKind::PosOverflow);
        }
        acc = acc * 10 + d;
        i += 1;
    }
    Ok(acc)
}

proof fn lemma_scan_digits_push(s: Seq<char>, c: char, acc: nat)
    requires
        is_digit(c),
        acc <= u64::MAX,
    ensures
        scan_digits(s.push(c), acc) == (match scan_digits(s, acc) {
            Ok(v) => if (v as nat) * 10 + digit_value(c) > u64::MAX {
                Err(IntErrorKind::PosOverflow)
            } else {
                Ok(((v as nat) * 10 + digit_value(c)) as u64)
            },
            Err(e) => Err(e),
        }),
    decreases s.len(),
{
    if s.len() == 0 {
        reveal_with_fuel(scan_digits, 2);
        assert(s.push(c).drop_first() =~= Seq::<char>::empty());
    } else {
        assert(s.push(c)[0] == s[0]);
        assert(s.push(c).drop_first() =~= s.drop_first().push(c));
        if is_digit(s[0]) && acc * 10 + digit_value(s[0]) <= u64::MAX {
            lemma_scan_digits_push(s.drop_first(), c, acc * 10 + digit_value(s[0]));
        }
    }
}

proof fn lemma_scan_digits_acc_bound(s: Seq<char>, acc: nat)
    requires
        acc <= u64::MAX,
    ensures
        scan_digits(s, acc) matches Ok(v) ==> acc <= v,
    decreases s.len(),
{
    if s.len() > 0 && is_digit(s[0]) && acc * 10 + digit_value(s[0]) <= u64::MAX {
        lemma_scan_digits_acc_bound(s.drop_first(), acc * 10 + digit_value(s[0]));
    }
}

proof fn lemma_digit_char(d: nat)
    requires
        d < 10,
    ensures
        is_digit(digit_char(d)),
        digit_value(digit_char(d)) == d,
{
}

/// Every decimal representation is made of digits and starts with a non-`+`.
pub proof fn lemma_decimal_digits(n: nat)
    ensures
        decimal(n).len() > 0,
        forall|i: int| 0 <= i < decimal(n).len() ==> is_digit(#[trigger] decimal(n)[i]),
    decreases n,
{
    if n >= 10 {
        lemma_decimal_digits(n / 10);
    }
}

/// Parsing the decimal representation of a `u64` gives the number back.
pub proof fn lemma_parse_decimal(n: u64)
    ensures
        parse_u64_spec(decimal(n as nat)) == Ok::<u64, IntErrorKind>(n),
{
    lemma_decimal_digits(n as nat);
    lemma_scan_decimal(n as nat);
}

proof fn lemma_scan_decimal(n: nat)
    requires
        n <= u64::MAX,
    ensures
        scan_digits(decimal(n), 0) == Ok::<u64, IntErrorKind>(n as u64),
    decreases n,
{
    if n < 10 {
        reveal_with_fuel(scan_digits, 2);
        lemma_digit_char(n);
        assert(decimal(n).drop_first() =~= Seq::<char>::empty());
    } else {
        lemma_scan_decimal(n / 10);
        lemma_decimal_digits(n);
        lemma_digit_char(n % 10);
        let d = digit_char(n % 10);
        lemma_scan_digits_push(decimal(n / 10), d, 0);
    }
}

/// Decodes `bytes` as UTF-8 (`core::str::from_utf8`).
///
/// Trusted: the standard library documents that the call succeeds exactly
/// when the bytes are valid UTF-8, and then returns the text they encode.
#[verifier::external_body]
pub(crate) fn str_from_utf8(bytes: &[u8]) -> (r: Result<&str, Utf8Error>)
    ensures
        r is Ok <==> valid_utf8(bytes@),
        r matches Ok(s) ==> s@ == decode_utf8(bytes@),
{
    core::str::from_utf8(bytes)
}

#[verifier::external_type_specification]
#[verifier::external_body]
pub struct ExUtf8Error(Utf8Error);

} // verus!

verus! {

/// `char::is_whitespace`: the Unicode `White_Space` property.
pub open spec fn is_whitespace(c: char) -> bool {
    let u = c as u32;
    (0x09 <= u && u <= 0x0d) || u == 0x20 || u == 0x85 || u == 0xa0 || u == 0x1680 || (0x2000 <= u
        && u <= 0x200a) || u == 0x2028 || u == 0x2029 || u == 0x202f || u == 0x205f || u == 0x3000
}

fn is_whitespace_exec(c: char) -> (b: bool)
    ensures
        b == is_whitespace(c),
{
    let u = c as u32;
    (0x09 <= u && u <= 0x0d) || u == 0x20 || u == 0x85 || u == 0xa0 || u == 0x1680 || (0x2000 <= u
        && u <= 0x200a) || u == 0x2028 || u == 0x2029 || u == 0x202f || u == 0x205f || u == 0x3000
}

/// `s` without its leading and trailing whitespace, as `str::trim`.
pub open spec fn trim_spec(s: Seq<char>) -> Seq<char> {
    let a = leading_ws(s, 0);
    let b = trailing_ws_end(s, s.len() as int, a);
    s.subrange(a, b)
}

/// The first index `>= i` that is not whitespace (or the length).
pub open spec fn leading_ws(s: Seq<char>, i: int) -> int
    decreases s.len() - i,
{
    if i < 0 || i >= s.len() {
        if i < 0 { 0 } else { s.len() as int }
    } else if is_whitespace(s[i]) {
        leading_ws(s, i + 1)
    } else {
        i
    }
}

/// The end of `s` once whitespace before `j` (down to `lo`) is removed.
pub open spec fn trailing_ws_end(s: Seq<char>, j: int, lo: int) -> int
    decreases j - lo,
{
    if j <= lo || j > s.len() {
        lo
    } else if is_whitespace(s[j - 1]) {
        trailing_ws_end(s, j - 1, lo)
    } else {
        j
    }
}

proof fn lemma_leading_ws_range(s: Seq<char>, i: int)
    requires
        0 <= i <= s.len(),
    ensures
        i <= leading_ws(s, i) <= s.len(),
    decreases s.len() - i,
{
    if i < s.len() && is_whitespace(s[i]) {
        lemma_leading_ws_range(s, i + 1);
    }
}

proof fn lemma_trailing_range(s: Seq<char>, j: int, lo: int)
    requires
        0 <= lo <= j <= s.len(),
    ensures
        lo <= trailing_ws_end(s, j, lo) <= j,
    decreases j - lo,
{
    if j > lo && is_whitespace(s[j - 1]) {
        lemma_trailing_range(s, j - 1, lo);
    }
}

/// Removes leading and trailing whitespace (`str::trim`), giving an owned text.
pub fn trim(s: &str) -> (r: String)
    ensures
        r@ == trim_spec(s@),
{
    let v = chars_of(s);
    let mut a: usize = 0;
    while a < v.len() && is_whitespace_exec(v[a])
        invariant
            v@ == s@,
            a <= v@.len(),
            leading_ws(s@, 0) == leading_ws(s@, a as int),
        decreases v.len() - a,
    {
        a += 1;
    }
    let mut b: usize = v.len();
    while b > a && is_whitespace_exec(v[b - 1])
        invariant
            v@ == s@,
            a <= b <= v@.len(),
            leading_ws(s@, 0) == a,
            trailing_ws_end(s@, s@.len() as int, a as int) == trailing_ws_end(s@, b as int, a as int),
        decreases b - a,
    {
        b -= 1;
    }
    s.substring_char(a, b).to_owned()
}

} // verus!
