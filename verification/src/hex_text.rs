//! Hexadecimal text: lower-case encoding of bytes and decoding of hex
//! strings, both done by the `hex` crate.
use vstd::prelude::*;
use vstd::string::*;

verus! {

/// The lower-case hex digit for `d` in `0..16`.
pub open spec fn hex_digit_char(d: int) -> char {
    if d < 10 {
        (48 + d) as char
    } else {
        (87 + d) as char
    }
}

/// Lower-case hex of `bytes`: two digits per byte, the high nibble first.
pub open spec fn lower_hex(bytes: Seq<u8>) -> Seq<char> {
    Seq::new(
        2 * bytes.len(),
        |i: int|
            if i % 2 == 0 {
                hex_digit_char(bytes[i / 2] as int / 16)
            } else {
                hex_digit_char(bytes[i / 2] as int % 16)
            },
    )
}

/// Whether the ASCII byte `c` is a hex digit, either case.
pub open spec fn is_hex_digit(c: u8) -> bool {
    (48 <= c <= 57) || (97 <= c <= 102) || (65 <= c <= 70)
}

/// The value of the hex digit `c`.
pub open spec fn hex_value(c: u8) -> int {
    if 48 <= c <= 57 {
        c - 48
    } else if 97 <= c <= 102 {
        c - 87
    } else {
        c - 55
    }
}

/// Whether `text` is hex: an even number of hex digits.
pub open spec fn hex_decodable(text: Seq<u8>) -> bool {
    &&& text.len() % 2 == 0
    &&& forall|i: int| 0 <= i < text.len() ==> #[trigger] is_hex_digit(text[i])
}

/// The bytes that the hex `text` denotes, each from two digits.
pub open spec fn hex_decoded(text: Seq<u8>) -> Seq<u8> {
    Seq::new(
        text.len() / 2,
        |i: int| (hex_value(text[2 * i]) * 16 + hex_value(text[2 * i + 1])) as u8,
    )
}

/// `text` without a leading `0x`.
pub open spec fn strip_0x(text: Seq<u8>) -> Seq<u8> {
    if text.len() >= 2 && text[0] == 48 && text[1] == 120 {
        text.skip(2)
    } else {
        text
    }
}

/// What `hex_decode` gives: the bytes of the hex after an optional `0x`,
/// or nothing where that is not hex.
pub open spec fn hex_decode_spec(text: Seq<u8>) -> Seq<u8> {
    if hex_decodable(strip_0x(text)) {
        hex_decoded(strip_0x(text))
    } else {
        Seq::empty()
    }
}

#[verifier::external_type_specification]
#[verifier::external_body]
pub struct ExFromHexError(hex::FromHexError);

/// `hex::decode`. Its source checks that the length is even, then turns
/// each pair of digits (`0-9`, `a-f`, `A-F`) into a byte, high digit first,
/// and fails on any other character.
#[verifier::external_body]
fn hex_crate_decode(text: &[u8]) -> (decoded: Result<Vec<u8>, hex::FromHexError>)
    ensures
        decoded is Ok <==> hex_decodable(text@),
        decoded matches Ok(bytes) ==> bytes@ == hex_decoded(text@),
{
    hex::decode(text)
}

/// `hex::encode`: two lower-case digits per byte, the high nibble first.
#[verifier::external_body]
pub(crate) fn hex_crate_encode(data: &[u8]) -> (text: String)
    ensures
        text@ == lower_hex(data@),
{
    hex::encode(data)
}

/// Hex bytes of `text` after an optional `0x`; empty where that is not hex.
pub fn hex_decode_bytes(text: &[u8]) -> (bytes: Vec<u8>)
    ensures
        bytes@ == hex_decode_spec(text@),
{
    let body: &[u8] = if text.len() >= 2 && text[0] == 48u8 && text[1] == 120u8 {
        vstd::slice::slice_subrange(text, 2, text.len())
    } else {
        text
    };
    assert(body@ =~= strip_0x(text@));
    match hex_crate_decode(body) {
        Ok(bytes) => bytes,
        Err(_) => Vec::new(),
    }
}

/// The bytes that the hex string `s` denotes, after an optional `0x`;
/// empty where it is not hex.
pub fn hex_decode(s: &str) -> (bytes: Vec<u8>)
    ensures
        bytes@ == hex_decode_spec(s.spec_bytes()),
{
    hex_decode_bytes(s.as_bytes())
}

/// `0x` followed by the lower-case hex of `data`.
pub fn hex_encode(data: &[u8]) -> (text: String)
    ensures
        text@ == seq!['0', 'x'] + lower_hex(data@),
{
    let prefix = String::from_str("0x");
    proof {
        reveal_strlit("0x");
    }
    let digits = hex_crate_encode(data);
    let text = prefix.concat(digits.as_str());
    assert(text@ =~= seq!['0', 'x'] + lower_hex(data@));
    text
}

/// A hex digit's character has the ASCII code that the decoder reads back
/// as that digit.
proof fn lemma_hex_digit_char(d: int)
    requires
        0 <= d < 16,
    ensures
        '\0' <= hex_digit_char(d) <= '\u{7f}',
        is_hex_digit(hex_digit_char(d) as u8),
        hex_value(hex_digit_char(d) as u8) == d,
{
}

/// Decoding undoes encoding: the `0x`-prefixed lower-case hex of any bytes,
/// taken as UTF-8 text, decodes to those bytes (so `hex_decode` reads back
/// what `hex_encode` wrote), and so does the hex without the prefix, for
/// empty bytes too.
pub proof fn lemma_hex_roundtrip(bytes: Seq<u8>)
    ensures
        hex_decode_spec(vstd::utf8::encode_utf8(seq!['0', 'x'] + lower_hex(bytes))) == bytes,
        hex_decode_spec(vstd::utf8::encode_utf8(lower_hex(bytes))) == bytes,
{
    let hex = lower_hex(bytes);
    assert forall|i: int| 0 <= i < hex.len() implies '\0' <= #[trigger] hex[i] <= '\u{7f}' by {
        lemma_hex_digit_char(bytes[i / 2] as int / 16);
        lemma_hex_digit_char(bytes[i / 2] as int % 16);
    }
    let text = seq!['0', 'x'] + hex;
    assert(vstd::utf8::is_ascii_chars(hex));
    assert(vstd::utf8::is_ascii_chars(text));
    vstd::utf8::is_ascii_chars_encode_utf8(hex);
    vstd::utf8::is_ascii_chars_encode_utf8(text);
    let plain = vstd::utf8::encode_utf8(hex);
    let prefixed = vstd::utf8::encode_utf8(text);
    assert(prefixed[0] == 48u8);
    assert(prefixed[1] == 120u8);
    assert(strip_0x(prefixed) =~= plain) by {
        assert forall|i: int| 0 <= i < plain.len() implies #[trigger] strip_0x(prefixed)[i] == plain[i] by {
            assert(text[i + 2] == hex[i]);
        }
    }
    assert forall|i: int| 0 <= i < plain.len() implies #[trigger] is_hex_digit(plain[i]) by {
        lemma_hex_digit_char(bytes[i / 2] as int / 16);
        lemma_hex_digit_char(bytes[i / 2] as int % 16);
    }
    assert forall|i: int| 0 <= i < bytes.len() implies #[trigger] hex_decoded(plain)[i] == bytes[i] by {
        assert((2 * i) / 2 == i);
        assert((2 * i + 1) / 2 == i);
        lemma_hex_digit_char(bytes[i] as int / 16);
        lemma_hex_digit_char(bytes[i] as int % 16);
        assert(plain[2 * i] == hex[2 * i] as u8);
        assert(plain[2 * i + 1] == hex[2 * i + 1] as u8);
    }
    assert(hex_decoded(plain) =~= bytes);
    if bytes.len() > 0 {
        assert(plain[1] == hex[1] as u8);
        lemma_hex_digit_char(bytes[0] as int % 16);
        assert(strip_0x(plain) == plain);
    } else {
        assert(plain.len() == 0);
        assert(strip_0x(plain) == plain);
    }
}

} // verus!
