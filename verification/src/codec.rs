//! Text codec: little-endian 16-bit code units, padded at an odd end.

use crate::error::MsgError;
use crate::text::{string_of, strip_trailing, stripped_len};
use vstd::prelude::*;
use vstd::slice::slice_subrange;
use vstd::utf8::{decode_utf8, is_scalar, valid_utf8};

verus! {

/// The code unit made of a low and a high byte.
pub open spec fn unit_le(low: u8, high: u8) -> u16 {
    (low as int + 256 * (high as int)) as u16
}

/// The code units that `bytes` hold, two bytes each, low byte first. A last
/// byte that stands alone is the low byte of a unit whose high byte is zero.
pub open spec fn packed_units(bytes: Seq<u8>) -> Seq<u16> {
    Seq::new(
        ((bytes.len() + 1) / 2) as nat,
        |i: int| unit_le(bytes[2 * i], if 2 * i + 1 < bytes.len() { bytes[2 * i + 1] } else { 0u8 }),
    )
}

/// Packs bytes into little-endian 16-bit code units, padding an odd end with
/// a zero high byte.
pub fn pack_u8s_to_u16s_le_padded(bytes: &[u8]) -> (units: Vec<u16>)
    ensures
        units@ == packed_units(bytes@),
{
    let mut result: Vec<u16> = Vec::new();
    let mut i: usize = 0;
    while i < bytes.len()
        invariant
            i <= bytes.len(),
            i % 2 == 0 || i == bytes.len(),
            result@.len() == (i + 1) / 2,
            forall|k: int|
                0 <= k < result@.len() ==> result@[k] == #[trigger] packed_units(bytes@)[k],
        decreases bytes.len() - i,
    {
        let lsb: u8 = bytes[i];
        if bytes.len() - i >= 2 {
            let msb: u8 = bytes[i + 1];
            result.push(lsb as u16 + 256 * (msb as u16));
            i += 2;
        } else {
            result.push(lsb as u16);
            i += 1;
        }
    }
    result
}

/// Whether `unit` is the first half of a surrogate pair.
pub open spec fn is_high_surrogate(unit: u16) -> bool {
    0xD800 <= unit <= 0xDBFF
}

/// Whether `unit` is the second half of a surrogate pair.
pub open spec fn is_low_surrogate(unit: u16) -> bool {
    0xDC00 <= unit <= 0xDFFF
}

/// The scalar value that a surrogate pair stands for.
pub open spec fn pair_scalar(high: u16, low: u16) -> u32 {
    (0x1_0000 + (high - 0xD800) * 0x400 + (low - 0xDC00)) as u32
}

/// `rest` with `done` before it, where there is a rest.
pub open spec fn after(done: Seq<char>, rest: Option<Seq<char>>) -> Option<Seq<char>> {
    match rest {
        Some(chars) => Some(done + chars),
        None => None,
    }
}

/// The text that code units encode in UTF-16, or nothing where a surrogate
/// stands without its partner. A unit that is no surrogate is the character
/// of that value; a high surrogate with a low one after it is the character
/// that the pair stands for.
pub open spec fn utf16_text(units: Seq<u16>) -> Option<Seq<char>>
    decreases units.len(),
{
    if units.len() == 0 {
        Some(Seq::empty())
    } else if !is_high_surrogate(units[0]) && !is_low_surrogate(units[0]) {
        after(seq![units[0] as u32 as char], utf16_text(units.skip(1)))
    } else if is_high_surrogate(units[0]) && units.len() >= 2 && is_low_surrogate(units[1]) {
        after(seq![pair_scalar(units[0], units[1]) as char], utf16_text(units.skip(2)))
    } else {
        None
    }
}

/// Trusted: `char::from_u32`. It gives the character of the scalar value
/// `n`, and nothing where `n` is no scalar value.
#[verifier::external_body]
fn char_from_u32(n: u32) -> (r: Option<char>)
    ensures
        r == if is_scalar(n) {
            Some(n as char)
        } else {
            None::<char>
        },
{
    char::from_u32(n)
}

/// Decodes code units as UTF-16.
pub fn decode_utf16(units: &[u16]) -> (r: Option<Vec<char>>)
    ensures
        match r {
            Some(chars) => utf16_text(units@) == Some(chars@),
            None => utf16_text(units@) is None,
        },
{
    let mut out: Vec<char> = Vec::new();
    let mut i: usize = 0;
    assert(units@.skip(0) == units@);
    assert(after(out@, utf16_text(units@)) == utf16_text(units@)) by {
        if utf16_text(units@) is Some {
            assert(out@ + utf16_text(units@)->0 == utf16_text(units@)->0);
        }
    }
    while i < units.len()
        invariant
            i <= units.len(),
            utf16_text(units@) == after(out@, utf16_text(units@.skip(i as int))),
        decreases units.len() - i,
    {
        let unit: u16 = units[i];
        let ghost rest = units@.skip(i as int);
        assert(rest[0] == unit);
        if unit < 0xD800 || unit > 0xDFFF {
            match char_from_u32(unit as u32) {
                Some(c) => {
                    proof {
                        assert(rest.skip(1) == units@.skip(i + 1));
                        lemma_after_push(out@, c, utf16_text(units@.skip(i + 1)));
                    }
                    out.push(c);
                    i += 1;
                },
                None => {
                    return None;
                },
            }
        } else if unit <= 0xDBFF && units.len() - i >= 2 && 0xDC00 <= units[i + 1] && units[i + 1]
            <= 0xDFFF {
            let low: u16 = units[i + 1];
            assert(rest[1] == low);
            let n: u32 = 0x1_0000 + (unit as u32 - 0xD800) * 0x400 + (low as u32 - 0xDC00);
            match char_from_u32(n) {
                Some(c) => {
                    proof {
                        assert(rest.skip(2) == units@.skip(i + 2));
                        lemma_after_push(out@, c, utf16_text(units@.skip(i + 2)));
                    }
                    out.push(c);
                    i += 2;
                },
                None => {
                    return None;
                },
            }
        } else {
            assert(rest.len() >= 2 ==> rest[1] == units@[i + 1]);
            return None;
        }
    }
    assert(out@ + Seq::<char>::empty() == out@);
    Some(out)
}

proof fn lemma_after_push(done: Seq<char>, c: char, rest: Option<Seq<char>>)
    ensures
        after(done, after(seq![c], rest)) == after(done.push(c), rest),
{
    if rest is Some {
        assert(done + (seq![c] + rest->0) == done.push(c) + rest->0);
    }
}

/// `std::string::FromUtf8Error`, mapped to [`MsgError::Encoding`].
#[verifier::external_type_specification]
#[verifier::external_body]
pub struct ExFromUtf8Error(std::string::FromUtf8Error);

/// Trusted: `String::from_utf8`. It succeeds exactly on valid UTF-8, and the
/// string then holds the characters that the bytes encode.
#[verifier::external_body]
fn string_from_utf8(bytes: Vec<u8>) -> (r: Result<String, std::string::FromUtf8Error>)
    ensures
        r is Ok <==> valid_utf8(bytes@),
        r matches Ok(s) ==> s@ == decode_utf8(bytes@),
{
    String::from_utf8(bytes)
}

/// The text that the bytes of a text property stand for: their code units
/// decoded as UTF-16, without the NUL characters at the end. Units that are
/// no UTF-16 are an encoding error.
pub open spec fn decoded_text(bytes: Seq<u8>) -> Result<Seq<char>, MsgError> {
    match utf16_text(packed_units(bytes)) {
        Some(text) => Ok(strip_trailing(text, '\0')),
        None => Err(MsgError::Encoding),
    }
}

/// The text that the bytes of an HTML body stand for, read strictly as UTF-8.
pub open spec fn decoded_utf8(bytes: Seq<u8>) -> Result<Seq<char>, MsgError> {
    if valid_utf8(bytes) {
        Ok(decode_utf8(bytes))
    } else {
        Err(MsgError::Encoding)
    }
}

/// A text result by the characters it holds.
pub open spec fn text_view(r: Result<String, MsgError>) -> Result<Seq<char>, MsgError> {
    match r {
        Ok(s) => Ok(s@),
        Err(e) => Err(e),
    }
}

/// A binary result by the bytes it holds.
pub open spec fn bytes_view(r: Result<Vec<u8>, MsgError>) -> Result<Seq<u8>, MsgError> {
    match r {
        Ok(b) => Ok(b@),
        Err(e) => Err(e),
    }
}

/// Decodes the bytes of a text property: UTF-16, little-endian, an odd last
/// byte padded with zero, trailing NUL characters removed.
pub fn decode_text(bytes: &[u8]) -> (r: Result<String, MsgError>)
    ensures
        text_view(r) == decoded_text(bytes@),
{
    let units = pack_u8s_to_u16s_le_padded(bytes);
    match decode_utf16(units.as_slice()) {
        Some(chars) => {
            let n = stripped_len(chars.as_slice(), '\0');
            Ok(string_of(slice_subrange(chars.as_slice(), 0, n)))
        },
        None => Err(MsgError::Encoding),
    }
}

/// Decodes the bytes of an HTML body strictly as UTF-8.
pub fn decode_utf8_text(bytes: Vec<u8>) -> (r: Result<String, MsgError>)
    ensures
        text_view(r) == decoded_utf8(bytes@),
{
    match string_from_utf8(bytes) {
        Ok(s) => Ok(s),
        Err(_) => Err(MsgError::Encoding),
    }
}

/// The code units that encode `c` in UTF-16: one unit below the supplementary
/// planes, a surrogate pair within them.
pub open spec fn units_of_char(c: char) -> Seq<u16> {
    let n = c as u32;
    if n < 0x1_0000 {
        seq![n as u16]
    } else {
        seq![
            (0xD800 + (n - 0x1_0000) / 0x400) as u16,
            (0xDC00 + (n - 0x1_0000) % 0x400) as u16,
        ]
    }
}

/// The code units that encode `text` in UTF-16.
pub open spec fn utf16_units(text: Seq<char>) -> Seq<u16>
    decreases text.len(),
{
    if text.len() == 0 {
        Seq::empty()
    } else {
        units_of_char(text[0]) + utf16_units(text.skip(1))
    }
}

/// The bytes of code units, two for each, low byte first.
pub open spec fn le_bytes(units: Seq<u16>) -> Seq<u8> {
    Seq::new(
        2 * units.len(),
        |i: int|
            if i % 2 == 0 {
                (units[i / 2] % 256) as u8
            } else {
                (units[i / 2] / 256) as u8
            },
    )
}

/// The code units of the bytes of code units are those units.
pub proof fn lemma_pack_le_bytes(units: Seq<u16>)
    ensures
        packed_units(le_bytes(units)) == units,
{
    let bytes = le_bytes(units);
    assert forall|k: int| 0 <= k < units.len() implies packed_units(bytes)[k] == units[k] by {
        assert(bytes[2 * k] == (units[k] % 256) as u8);
        assert(bytes[2 * k + 1] == (units[k] / 256) as u8);
    }
    assert(packed_units(bytes) =~= units);
}

/// The code units that encode a text decode to that text.
pub proof fn lemma_utf16_round_trip(text: Seq<char>)
    ensures
        utf16_text(utf16_units(text)) == Some(text),
    decreases text.len(),
{
    if text.len() > 0 {
        let c = text[0];
        let n = c as u32;
        let rest = utf16_units(text.skip(1));
        let units = utf16_units(text);
        lemma_utf16_round_trip(text.skip(1));
        vstd::utf8::char_is_scalar(c);
        vstd::utf8::char_u32_cast(c, n);
        if n < 0x1_0000 {
            assert(units[0] == n as u16);
            assert(units.skip(1) == rest);
            assert(units[0] as u32 == n);
            assert((units[0] as u32 as char) == c);
        } else {
            let high = (0xD800 + (n - 0x1_0000) / 0x400) as u16;
            let low = (0xDC00 + (n - 0x1_0000) % 0x400) as u16;
            assert(units[0] == high);
            assert(units[1] == low);
            assert(units.skip(2) == rest);
            assert(pair_scalar(high, low) == n);
            assert((pair_scalar(high, low) as char) == c);
        }
        assert(seq![c] + text.skip(1) == text);
    }
}

/// Decoding the UTF-16 bytes of a text, low byte first, gives that text
/// without the NUL characters at its end.
pub proof fn lemma_text_round_trip(text: Seq<char>)
    ensures
        decoded_text(le_bytes(utf16_units(text))) == Ok::<Seq<char>, MsgError>(
            strip_trailing(text, '\0'),
        ),
{
    lemma_pack_le_bytes(utf16_units(text));
    lemma_utf16_round_trip(text);
}

/// Bytes of odd length decode as the same bytes with a zero byte appended:
/// an odd length alone is never an error.
pub proof fn lemma_odd_length_padding(bytes: Seq<u8>)
    requires
        bytes.len() % 2 == 1,
    ensures
        packed_units(bytes) == packed_units(bytes.push(0u8)),
        decoded_text(bytes) == decoded_text(bytes.push(0u8)),
{
    assert(packed_units(bytes) =~= packed_units(bytes.push(0u8)));
}

} // verus!
