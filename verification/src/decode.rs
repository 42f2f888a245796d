//! Percent-decoding of form-urlencoded text.
//!
//! A raw key or value taken from a query string is decoded in three steps:
//! every `+` becomes a space, every `%XX` escape becomes the byte `XX`, and
//! the resulting bytes must form valid UTF-8. The middle step is carried out
//! by an outside percent-decoding routine; the whole pipeline is specified
//! exactly by [`form_url_decode_spec`].

use vstd::prelude::*;
use vstd::utf8::decode_utf8;
use vstd::utf8::encode_utf8;
use vstd::utf8::valid_utf8;

verus! {

/// True for the ASCII code of a hexadecimal digit, in either case.
pub open spec fn is_hex_digit(b: u8) -> bool {
    (0x30 <= b <= 0x39) || (0x41 <= b <= 0x46) || (0x61 <= b <= 0x66)
}

/// Numeric value of a hexadecimal digit given as its ASCII code.
pub open spec fn hex_val(b: u8) -> u8
    recommends
        is_hex_digit(b),
{
    if 0x30 <= b <= 0x39 {
        (b - 0x30) as u8
    } else if 0x41 <= b <= 0x46 {
        (b - 0x41 + 10) as u8
    } else {
        (b - 0x61 + 10) as u8
    }
}

/// Percent-unescaping of a byte sequence: a `%` followed by two hexadecimal
/// digits becomes the encoded byte; every other byte, including a `%` not
/// followed by two hexadecimal digits, passes through unchanged.
pub open spec fn pct_decode(s: Seq<u8>) -> Seq<u8>
    decreases s.len(),
{
    if s.len() == 0 {
        Seq::empty()
    } else if s[0] == 0x25u8 && s.len() >= 3 && is_hex_digit(s[1]) && is_hex_digit(s[2]) {
        seq![(hex_val(s[1]) * 16 + hex_val(s[2])) as u8] + pct_decode(s.skip(3))
    } else {
        seq![s[0]] + pct_decode(s.skip(1))
    }
}

/// Replacement of `+` (the form-urlencoded spelling of a space) by a space.
pub open spec fn plus_to_space(s: Seq<u8>) -> Seq<u8> {
    s.map_values(|b: u8| if b == 0x2bu8 { 0x20u8 } else { b })
}

/// What it means to form-url-decode raw bytes: `+` becomes a space, `%XX`
/// becomes the byte `XX`, and the unescaped bytes must be valid UTF-8;
/// otherwise decoding fails.
pub open spec fn form_url_decode_spec(raw: Seq<u8>) -> Option<Seq<char>> {
    let unescaped = pct_decode(plus_to_space(raw));
    if valid_utf8(unescaped) {
        Some(decode_utf8(unescaped))
    } else {
        None
    }
}

/// Replaces every `+` by a space, leaving all other bytes unchanged.
fn replace_plus(bytes: &[u8]) -> (r: Vec<u8>)
    ensures
        r@ == plus_to_space(bytes@),
{
    let mut out: Vec<u8> = Vec::new();
    let mut i: usize = 0;
    while i < bytes.len()
        invariant
            i <= bytes.len(),
            out@ == plus_to_space(bytes@.take(i as int)),
        decreases bytes@.len() - i,
    {
        let b = bytes[i];
        if b == 0x2b {
            out.push(0x20);
        } else {
            out.push(b);
        }
        proof {
            assert(bytes@.take(i + 1) =~= bytes@.take(i as int).push(bytes@[i as int]));
            assert(plus_to_space(bytes@.take(i + 1)) =~= plus_to_space(
                bytes@.take(i as int),
            ).push(if bytes@[i as int] == 0x2bu8 {
                0x20u8
            } else {
                bytes@[i as int]
            }));
        }
        i += 1;
    }
    proof {
        assert(bytes@.take(bytes@.len() as int) =~= bytes@);
    }
    out
}

/// Relies on `percent_encoding::percent_decode`: a `%` followed by two
/// hexadecimal digits yields the encoded byte, and any other byte (including
/// a `%` not followed by two hexadecimal digits) passes through unchanged.
#[verifier::external_body]
fn percent_decode_bytes(input: &[u8]) -> (r: Vec<u8>)
    ensures
        r@ == pct_decode(input@),
{
    percent_encoding::percent_decode(input).collect()
}

/// Relies on `String::from_utf8`: it succeeds exactly when the bytes are
/// valid UTF-8, and then returns the string those bytes encode.
#[verifier::external_body]
fn utf8_to_string(bytes: Vec<u8>) -> (r: Option<String>)
    ensures
        r is Some <==> valid_utf8(bytes@),
        r is Some ==> (r->0)@ == decode_utf8(bytes@),
{
    String::from_utf8(bytes).ok()
}

/// Form-url-decodes raw bytes; yields nothing when the unescaped bytes are
/// not valid UTF-8.
pub(crate) fn decode_bytes(raw: &[u8]) -> (r: Option<String>)
    ensures
        r is Some <==> form_url_decode_spec(raw@) is Some,
        r is Some ==> (r->0)@ == form_url_decode_spec(raw@)->0,
{
    let replaced = replace_plus(raw);
    let unescaped = percent_decode_bytes(replaced.as_slice());
    utf8_to_string(unescaped)
}

/// Form-url-decodes a raw string; yields nothing when decoding fails.
pub fn form_url_decode(raw: &str) -> (r: Option<String>)
    ensures
        r is Some <==> form_url_decode_spec(encode_utf8(raw@)) is Some,
        r is Some ==> (r->0)@ == form_url_decode_spec(encode_utf8(raw@))->0,
{
    decode_bytes(raw.as_bytes())
}

/// A single decoded (percent-unescaped) value taken from one `key=value`
/// pair of a query string.
#[derive(Debug)]
pub struct FormUrlDecoded {
    val: String,
}

impl View for FormUrlDecoded {
    type V = Seq<char>;

    closed spec fn view(&self) -> Seq<char> {
        self.val@
    }
}

impl FormUrlDecoded {
    /// Decodes one raw value; yields nothing when decoding fails.
    pub fn new(raw: &str) -> (r: Option<FormUrlDecoded>)
        ensures
            r is Some <==> form_url_decode_spec(encode_utf8(raw@)) is Some,
            r is Some ==> (r->0)@ == form_url_decode_spec(encode_utf8(raw@))->0,
    {
        match form_url_decode(raw) {
            Some(val) => Some(FormUrlDecoded { val }),
            None => None,
        }
    }

    /// Decodes one raw value given as bytes; yields nothing when decoding
    /// fails.
    pub(crate) fn from_bytes(raw: &[u8]) -> (r: Option<FormUrlDecoded>)
        ensures
            r is Some <==> form_url_decode_spec(raw@) is Some,
            r is Some ==> (r->0)@ == form_url_decode_spec(raw@)->0,
    {
        match decode_bytes(raw) {
            Some(val) => Some(FormUrlDecoded { val }),
            None => None,
        }
    }

    /// The decoded string content.
    pub fn val(&self) -> (r: &str)
        ensures
            r@ == self@,
    {
        self.val.as_str()
    }
}

} // verus!
