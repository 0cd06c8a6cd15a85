//! Compressed rich text: the guard before the decompressor, and the call.

use crate::codec::text_view;
use crate::error::MsgError;
use vstd::prelude::*;

verus! {

/// `compressed_rtf::Error`, mapped to [`MsgError::Encoding`].
#[verifier::external_type_specification]
#[verifier::external_body]
pub struct ExRtfError(compressed_rtf::Error);

/// What `compressed_rtf::decompress_rtf` makes of `data`: the rich text, or
/// nothing where it reports an error.
pub uninterp spec fn rtf_text(data: Seq<u8>) -> Option<Seq<char>>;

/// The 32-bit number that stands in `data` at `at`, low byte first.
pub open spec fn le32(data: Seq<u8>, at: int) -> int {
    data[at] as int + 0x100 * (data[at + 1] as int) + 0x1_0000 * (data[at + 2] as int) + 0x100_0000
        * (data[at + 3] as int)
}

/// The compression type that marks rich text stored as it is.
pub const UNCOMPRESSED: u32 = 0x414C_454D;

/// Whether `data` is long enough for what its header announces. The header
/// is sixteen bytes: the compressed size, the raw size, the compression type
/// and a checksum. Where the type says that the text is stored as it is, the
/// raw size must lie within the data.
pub open spec fn rtf_header_fits(data: Seq<u8>) -> bool {
    &&& data.len() >= 16
    &&& le32(data, 0) + 4 <= usize::MAX
    &&& (le32(data, 8) == UNCOMPRESSED ==> le32(data, 4) + 16 <= data.len())
}

/// Trusted: `compressed_rtf::decompress_rtf`. Its outcome is a function of
/// the data alone. It slices the first sixteen bytes, and for stored text the
/// raw size after them, so the header has to fit.
#[verifier::external_body]
fn decompress(data: &[u8]) -> (r: Result<String, compressed_rtf::Error>)
    requires
        rtf_header_fits(data@),
    ensures
        match r {
            Ok(text) => rtf_text(data@) == Some(text@),
            Err(_) => rtf_text(data@) is None,
        },
{
    compressed_rtf::decompress_rtf(data)
}

/// The rich text that compressed `data` stand for. Data whose header does not
/// fit, and data that the decompressor rejects, are an encoding error.
pub open spec fn decompressed_text(data: Seq<u8>) -> Result<Seq<char>, MsgError> {
    if rtf_header_fits(data) {
        match rtf_text(data) {
            Some(text) => Ok(text),
            None => Err(MsgError::Encoding),
        }
    } else {
        Err(MsgError::Encoding)
    }
}

fn read_le32(data: &[u8], at: usize) -> (n: u32)
    requires
        at + 4 <= data.len(),
    ensures
        n == le32(data@, at as int),
{
    let b0: u32 = data[at] as u32;
    let b1: u32 = data[at + 1] as u32;
    let b2: u32 = data[at + 2] as u32;
    let b3: u32 = data[at + 3] as u32;
    b0 + 0x100 * b1 + 0x1_0000 * b2 + 0x100_0000 * b3
}

/// Whether `data` is long enough for what its header announces.
pub fn header_fits(data: &[u8]) -> (fits: bool)
    ensures
        fits == rtf_header_fits(data@),
{
    if data.len() < 16 {
        return false;
    }
    let compressed_size: u32 = read_le32(data, 0);
    let raw_size: u32 = read_le32(data, 4);
    let kind: u32 = read_le32(data, 8);
    if compressed_size as u64 > usize::MAX as u64 - 4 {
        return false;
    }
    if kind == UNCOMPRESSED {
        raw_size as u64 <= data.len() as u64 - 16
    } else {
        true
    }
}

/// Decompresses compressed rich text.
pub fn decompress_rtf_text(data: &[u8]) -> (r: Result<String, MsgError>)
    ensures
        text_view(r) == decompressed_text(data@),
{
    if !header_fits(data) {
        return Err(MsgError::Encoding);
    }
    match decompress(data) {
        Ok(text) => Ok(text),
        Err(_) => Err(MsgError::Encoding),
    }
}

} // verus!
