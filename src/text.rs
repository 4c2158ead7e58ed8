//! Decoding of stored text in the database's encoding.

use std::borrow::Cow;
use vstd::prelude::*;
use vstd::utf8::{decode_utf8, encode_utf8, valid_utf8};

use crate::error::{parsing_error, Result};
use crate::model::{RawText, TextEncoding};

verus! {

/// Below this many bytes, UTF-8 is checked by the standard library; from
/// here on by the SIMD validator.
pub const SIMD_CHUNK_SIZE: usize = 64;

/// The text that the UTF-16 code units `units` encode, if they are valid
/// UTF-16: a unit outside the surrogate range is a character of that value;
/// a high surrogate followed by a low one is the character they combine to;
/// any other surrogate makes the units invalid.
#[verifier::opaque]
pub open spec fn utf16_decoded(units: Seq<u16>) -> Option<Seq<char>>
    decreases units.len(),
{
    if units.len() == 0 {
        Some(Seq::empty())
    } else {
        let u = units[0] as int;
        if u < 0xd800 || u > 0xdfff {
            match utf16_decoded(units.drop_first()) {
                Some(rest) => Some(seq![u as char] + rest),
                None => None,
            }
        } else if u <= 0xdbff && units.len() >= 2 && 0xdc00 <= units[1] <= 0xdfff {
            let c = 0x10000 + (u - 0xd800) * 0x400 + (units[1] - 0xdc00);
            match utf16_decoded(units.subrange(2, units.len() as int)) {
                Some(rest) => Some(seq![c as char] + rest),
                None => None,
            }
        } else {
            None
        }
    }
}

/// The UTF-16 code units of `b`, two bytes each, in little- or big-endian
/// order; a last odd byte is left out.
pub open spec fn utf16_units(b: Seq<u8>, little: bool) -> Seq<u16> {
    Seq::new(
        b.len() / 2,
        |i: int|
            if little {
                (b[2 * i] + 256 * b[2 * i + 1]) as u16
            } else {
                (256 * b[2 * i] + b[2 * i + 1]) as u16
            },
    )
}

/// The text that the stored bytes `b` hold in encoding `enc`, if they are valid.
pub open spec fn decode_text(enc: TextEncoding, b: Seq<u8>) -> Option<Seq<char>> {
    match enc {
        TextEncoding::Utf8 => if valid_utf8(b) {
            Some(decode_utf8(b))
        } else {
            None
        },
        TextEncoding::Utf16Le => utf16_decoded(utf16_units(b, true)),
        TextEncoding::Utf16Be => utf16_decoded(utf16_units(b, false)),
    }
}

/// Relies on `std::str::from_utf8`: it accepts exactly the valid UTF-8 byte
/// strings and returns the text they encode.
#[verifier::external_body]
fn std_from_utf8<'a>(b: &'a [u8]) -> (r: Option<&'a str>)
    ensures
        match r {
            Some(s) => valid_utf8(b@) && s@ == decode_utf8(b@),
            None => !valid_utf8(b@),
        },
{
    std::str::from_utf8(b).ok()
}

/// Relies on `simdutf8::basic::from_utf8`, which accepts exactly what
/// `std::str::from_utf8` accepts and returns the same text.
#[verifier::external_body]
fn simd_from_utf8<'a>(b: &'a [u8]) -> (r: Option<&'a str>)
    ensures
        match r {
            Some(s) => valid_utf8(b@) && s@ == decode_utf8(b@),
            None => !valid_utf8(b@),
        },
{
    simdutf8::basic::from_utf8(b).ok()
}

/// Relies on `String::from_utf16`: the text that valid UTF-16 encodes, or
/// none where the units hold an unpaired surrogate.
#[verifier::external_body]
fn string_from_utf16(units: &[u16]) -> (r: Option<String>)
    ensures
        match r {
            Some(s) => utf16_decoded(units@) == Some(s@),
            None => utf16_decoded(units@) is None,
        },
{
    String::from_utf16(units).ok()
}

/// The UTF-16 code units of `b`.
fn utf16_code_units(b: &[u8], little: bool) -> (r: Vec<u16>)
    ensures
        r@ == utf16_units(b@, little),
{
    let mut units: Vec<u16> = Vec::new();
    let len = b.len();
    let n = len / 2;
    let mut i: usize = 0;
    while i < n
        invariant
            len == b@.len(),
            n == len / 2,
            i <= n,
            units@ =~= utf16_units(b@, little).subrange(0, i as int),
        decreases n - i,
    {
        let lo = b[2 * i];
        let hi = b[2 * i + 1];
        let u: u16 = if little {
            lo as u16 + 256 * hi as u16
        } else {
            256 * lo as u16 + hi as u16
        };
        units.push(u);
        i += 1;
    }
    units
}

impl<'a> RawText<'a> {
    /// The text these bytes hold in `text_encoding`; a format error where they
    /// are not valid in it. UTF-8 text is borrowed from the bytes.
    pub fn decode(&self, text_encoding: TextEncoding) -> (r: Result<Cow<'a, str>>)
        ensures
            match r {
                Ok(s) => decode_text(text_encoding, self.0@) == Some(s@),
                Err(e) => decode_text(text_encoding, self.0@) is None && e is ParsingError,
            },
    {
        match text_encoding {
            TextEncoding::Utf8 => {
                let s = if self.0.len() < SIMD_CHUNK_SIZE {
                    std_from_utf8(self.0)
                } else {
                    simd_from_utf8(self.0)
                };
                match s {
                    Some(s) => Ok(Cow::Borrowed(s)),
                    None => Err(parsing_error("invalid UTF-8 text")),
                }
            },
            TextEncoding::Utf16Le => {
                let units = utf16_code_units(self.0, true);
                match string_from_utf16(units.as_slice()) {
                    Some(s) => Ok(Cow::Owned(s)),
                    None => Err(parsing_error("invalid UTF-16LE text")),
                }
            },
            TextEncoding::Utf16Be => {
                let units = utf16_code_units(self.0, false);
                match string_from_utf16(units.as_slice()) {
                    Some(s) => Ok(Cow::Owned(s)),
                    None => Err(parsing_error("invalid UTF-16BE text")),
                }
            },
        }
    }
}

/// Decoding the UTF-8 bytes of any text gives that text back.
pub proof fn lemma_utf8_text_round_trip(s: Seq<char>)
    ensures
        decode_text(TextEncoding::Utf8, encode_utf8(s)) == Some(s),
{
    vstd::utf8::encode_utf8_valid_utf8(s);
    vstd::utf8::encode_utf8_decode_utf8(s);
}

/// The text of a decoded value, borrowed or owned.
pub fn cow_str<'b>(c: &'b Cow<'_, str>) -> (r: &'b str)
    ensures
        r@ == c@,
{
    match c {
        Cow::Borrowed(b) => b,
        Cow::Owned(o) => o.as_str(),
    }
}

} // verus!
