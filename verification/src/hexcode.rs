//! Hexadecimal text for key bytes (the `hex` crate).

use hex::FromHexError;
use vstd::prelude::*;
use vstd::utf8::{encode_utf8, is_ascii_chars};

verus! {

#[verifier::external_type_specification]
#[verifier::external_body]
pub struct ExFromHexError(FromHexError);

/// The lower-case hexadecimal digit of `n < 16`.
pub open spec fn hex_digit(n: u8) -> char {
    if n < 10 {
        ((n + 48) as u8) as char
    } else {
        ((n + 87) as u8) as char
    }
}

/// The value of a hexadecimal digit byte (either case), if it is one.
pub open spec fn hex_value(c: u8) -> Option<u8> {
    if 48 <= c <= 57 {
        Some((c - 48) as u8)
    } else if 97 <= c <= 102 {
        Some((c - 87) as u8)
    } else if 65 <= c <= 70 {
        Some((c - 55) as u8)
    } else {
        None
    }
}

/// `hex::encode`: two lower-case digits per byte, high nibble first.
pub open spec fn hex_encode_spec(b: Seq<u8>) -> Seq<char> {
    Seq::new(
        2 * b.len(),
        |i: int|
            if i % 2 == 0 {
                hex_digit(b[i / 2] / 16)
            } else {
                hex_digit(b[i / 2] % 16)
            },
    )
}

/// `hex::decode`: an even number of digit bytes, two per output byte.
pub open spec fn hex_decode_spec(d: Seq<u8>) -> Option<Seq<u8>> {
    if d.len() % 2 != 0 {
        None
    } else if exists|i: int| 0 <= i < d.len() && (#[trigger] hex_value(d[i])) is None {
        None
    } else {
        Some(
            Seq::new(
                d.len() / 2,
                |k: int| (hex_value(d[2 * k])->0 * 16 + hex_value(d[2 * k + 1])->0) as u8,
            ),
        )
    }
}

/// `hex::encode`.
///
/// Trusted: the crate writes each byte as two lower-case digits, high
/// nibble first.
#[verifier::external_body]
pub(crate) fn hex_encode(data: &[u8]) -> (r: String)
    ensures
        r@ == hex_encode_spec(data@),
{
    hex::encode(data)
}

/// `hex::decode`.
///
/// Trusted: the crate accepts exactly an even number of digits of either
/// case and combines each pair, high nibble first.
#[verifier::external_body]
pub(crate) fn hex_decode(data: &[u8]) -> (r: Result<Vec<u8>, FromHexError>)
    ensures
        match r {
            Ok(v) => hex_decode_spec(data@) == Some(v@),
            Err(_) => hex_decode_spec(data@) is None,
        },
{
    hex::decode(data)
}

/// Hexadecimal text is ASCII.
pub proof fn lemma_hex_ascii(b: Seq<u8>)
    ensures
        is_ascii_chars(hex_encode_spec(b)),
{
    assert forall|i: int| 0 <= i < hex_encode_spec(b).len() implies '\0' <= #[trigger] hex_encode_spec(
        b,
    )[i] <= '\u{7f}' by {
        let n: u8 = if i % 2 == 0 {
            b[i / 2] / 16
        } else {
            b[i / 2] % 16
        };
        assert(n < 16);
    }
}

/// Decoding the hexadecimal text of some bytes gives the bytes back.
pub proof fn lemma_hex_roundtrip(b: Seq<u8>)
    ensures
        hex_decode_spec(encode_utf8(hex_encode_spec(b))) == Some(b),
{
    let cs = hex_encode_spec(b);
    lemma_hex_ascii(b);
    vstd::utf8::is_ascii_chars_encode_utf8(cs);
    let d = encode_utf8(cs);
    assert forall|i: int| 0 <= i < d.len() implies (#[trigger] hex_value(d[i])) == Some(
        (if i % 2 == 0 {
            b[i / 2] / 16
        } else {
            b[i / 2] % 16
        }) as u8,
    ) by {
        assert(cs[i] as u8 == d[i]);
        let n: u8 = if i % 2 == 0 {
            b[i / 2] / 16
        } else {
            b[i / 2] % 16
        };
        assert(n < 16);
    }
    assert(d.len() % 2 == 0);
    let out = Seq::new(
        d.len() / 2,
        |k: int| (hex_value(d[2 * k])->0 * 16 + hex_value(d[2 * k + 1])->0) as u8,
    );
    assert forall|k: int| 0 <= k < b.len() implies out[k] == b[k] by {
        assert(hex_value(d[2 * k]) == Some(b[k] / 16));
        assert(hex_value(d[2 * k + 1]) == Some(b[k] % 16));
    }
    assert(out =~= b);
}

} // verus!
