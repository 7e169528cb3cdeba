//! Lower-case hexadecimal text for byte strings, through the `hex` crate.
use vstd::prelude::*;
use vstd::utf8::{encode_utf8, is_ascii_chars, is_ascii_chars_encode_utf8};

verus! {

/// The ASCII code of the lower-case hex digit for a nibble `n < 16`.
pub open spec fn hex_digit(n: int) -> u8 {
    if n < 10 {
        (48 + n) as u8
    } else {
        (87 + n) as u8
    }
}

/// The lower-case hex text of `bytes`: two digits per byte, high nibble first.
pub open spec fn hex_text(bytes: Seq<u8>) -> Seq<char> {
    Seq::new(
        2 * bytes.len(),
        |i: int|
            (if i % 2 == 0 {
                hex_digit(bytes[i / 2] as int / 16)
            } else {
                hex_digit(bytes[i / 2] as int % 16)
            }) as char,
    )
}

/// The value of an ASCII hex digit, upper or lower case.
pub open spec fn hex_value(c: u8) -> Option<u8> {
    if 48 <= c <= 57 {
        Some((c - 48) as u8)
    } else if 65 <= c <= 70 {
        Some((c - 55) as u8)
    } else if 97 <= c <= 102 {
        Some((c - 87) as u8)
    } else {
        None
    }
}

/// The bytes that hex text `s` spells, or `None` when its length is odd or
/// one of its characters is not a hex digit.
pub open spec fn hex_bytes(s: Seq<u8>) -> Option<Seq<u8>> {
    if s.len() % 2 != 0 || exists|i: int| 0 <= i < s.len() && (#[trigger] hex_value(s[i])) is None {
        None
    } else {
        Some(
            Seq::new(
                s.len() / 2,
                |i: int| (hex_value(s[2 * i])->0 * 16 + hex_value(s[2 * i + 1])->0) as u8,
            ),
        )
    }
}

/// `hex::encode`: the lower-case hex text of the bytes.
#[verifier::external_body]
pub(crate) fn hex_encode(bytes: &[u8]) -> (text: String)
    ensures
        text@ == hex_text(bytes@),
{
    hex::encode(bytes)
}

/// `hex::decode`: the bytes spelled by hex text, `None` where the crate
/// returns an error (odd length or a character that is not a hex digit).
#[verifier::external_body]
pub(crate) fn hex_decode(text: &[u8]) -> (bytes: Option<Vec<u8>>)
    ensures
        bytes is None <==> hex_bytes(text@) is None,
        bytes matches Some(b) ==> hex_bytes(text@) == Some(b@),
{
    hex::decode(text).ok()
}

/// A nibble's hex digit reads back as the nibble.
proof fn lemma_hex_digit(n: int)
    requires
        0 <= n < 16,
    ensures
        hex_value(hex_digit(n)) == Some(n as u8),
        hex_digit(n) < 128,
{
}

/// Hex text is ASCII, so its UTF-8 bytes are its characters.
pub proof fn lemma_hex_text_ascii(b: Seq<u8>)
    ensures
        is_ascii_chars(hex_text(b)),
        encode_utf8(hex_text(b)).len() == hex_text(b).len(),
        forall|i: int| 0 <= i < hex_text(b).len() ==> #[trigger] encode_utf8(hex_text(b))[i] == hex_text(b)[i] as u8,
{
    let t = hex_text(b);
    assert forall|i: int| 0 <= i < t.len() implies '\0' <= #[trigger] t[i] <= '\u{7f}' by {
        lemma_hex_digit(b[i / 2] as int / 16);
        lemma_hex_digit(b[i / 2] as int % 16);
    }
    is_ascii_chars_encode_utf8(t);
}

/// Hex text reads back as the bytes it was written from.
pub proof fn lemma_hex_roundtrip(b: Seq<u8>)
    ensures
        hex_bytes(encode_utf8(hex_text(b))) == Some(b),
{
    let t = hex_text(b);
    let e = encode_utf8(t);
    lemma_hex_text_ascii(b);
    assert forall|i: int| 0 <= i < e.len() implies (#[trigger] hex_value(e[i])) is Some by {
        lemma_hex_digit(b[i / 2] as int / 16);
        lemma_hex_digit(b[i / 2] as int % 16);
        assert(e[i] == t[i] as u8);
    }
    assert(e.len() % 2 == 0);
    let r = hex_bytes(e)->0;
    assert forall|i: int| 0 <= i < b.len() implies r[i] == b[i] by {
        assert(e[2 * i] == t[2 * i] as u8);
        assert(e[2 * i + 1] == t[2 * i + 1] as u8);
        assert((2 * i) / 2 == i && (2 * i) % 2 == 0);
        assert((2 * i + 1) / 2 == i && (2 * i + 1) % 2 == 1);
        lemma_hex_digit(b[i] as int / 16);
        lemma_hex_digit(b[i] as int % 16);
        assert((b[i] as int / 16) * 16 + b[i] as int % 16 == b[i]);
    }
    assert(r =~= b);
}

} // verus!
