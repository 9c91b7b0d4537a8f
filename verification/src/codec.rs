//! Decompression of index files.  The codecs come from outside
//! implementations; suffix classification and the dispatch are verified.
use vstd::prelude::*;

use std::io::Read;

use crate::chars::{chars_of, ends_with_chars, has_suffix};

verus! {

/// The plaintext a gzip stream decodes to, a function of the bytes alone;
/// nothing for streams that do not decode.
pub uninterp spec fn gunzip_of(data: Seq<u8>) -> Option<Seq<u8>>;

/// The plaintext an xz stream decodes to, a function of the bytes alone;
/// nothing for streams that do not decode.
pub uninterp spec fn unxz_of(data: Seq<u8>) -> Option<Seq<u8>>;

/// Relies on flate2's `GzDecoder`: decodes a gzip stream to its plaintext,
/// which depends on the bytes alone; read errors mark undecodable input.
#[verifier::external_body]
fn gzip_decode(data: &[u8]) -> (r: Option<Vec<u8>>)
    ensures
        match r {
            Some(v) => gunzip_of(data@) == Some(v@),
            None => gunzip_of(data@) is None,
        },
{
    let mut decoder = flate2::bufread::GzDecoder::new(data);
    let mut out = Vec::new();
    match decoder.read_to_end(&mut out) {
        Ok(_) => Some(out),
        Err(_) => None,
    }
}

/// Relies on xz2's `XzDecoder`: decodes an xz stream to its plaintext,
/// which depends on the bytes alone; read errors mark undecodable input.
#[verifier::external_body]
fn xz_decode(data: &[u8]) -> (r: Option<Vec<u8>>)
    ensures
        match r {
            Some(v) => unxz_of(data@) == Some(v@),
            None => unxz_of(data@) is None,
        },
{
    let mut decoder = xz2::read::XzDecoder::new(data);
    let mut out = Vec::new();
    match decoder.read_to_end(&mut out) {
        Ok(_) => Some(out),
        Err(_) => None,
    }
}

/// The compression codec a filename suffix announces.
#[derive(PartialEq, Eq, Structural, Clone, Copy, Debug)]
pub enum CompressKind {
    Gz,
    Xz,
    Bz2,
}

/// The codec suffix of a filename, if it carries one.
pub open spec fn spec_compress_kind(name: Seq<char>) -> Option<CompressKind> {
    if has_suffix(name, seq!['.', 'g', 'z']) {
        Some(CompressKind::Gz)
    } else if has_suffix(name, seq!['.', 'x', 'z']) {
        Some(CompressKind::Xz)
    } else if has_suffix(name, seq!['.', 'b', 'z', '2']) {
        Some(CompressKind::Bz2)
    } else {
        None
    }
}

/// The codec suffix of a filename, if it carries one.
pub fn compress_kind(name: &[char]) -> (r: Option<CompressKind>)
    ensures
        r == spec_compress_kind(name@),
{
    let gz: [char; 3] = ['.', 'g', 'z'];
    let xz: [char; 3] = ['.', 'x', 'z'];
    let bz2: [char; 4] = ['.', 'b', 'z', '2'];
    assert(gz@ =~= seq!['.', 'g', 'z']);
    assert(xz@ =~= seq!['.', 'x', 'z']);
    assert(bz2@ =~= seq!['.', 'b', 'z', '2']);
    if ends_with_chars(name, gz.as_slice()) {
        Some(CompressKind::Gz)
    } else if ends_with_chars(name, xz.as_slice()) {
        Some(CompressKind::Xz)
    } else if ends_with_chars(name, bz2.as_slice()) {
        Some(CompressKind::Bz2)
    } else {
        None
    }
}

/// A codec failure: a suffix no codec handles, or a stream that does not
/// decode.
#[derive(Debug)]
pub enum CodecError {
    UnsupportedCodec(String),
    BadStream(String),
}

/// What decompressing `data` under a filename must yield: gzip and xz
/// streams decode; a `bz2` or unrecognized suffix is unsupported.
pub open spec fn spec_decompress(data: Seq<u8>, name: Seq<char>) -> Result<Seq<u8>, ()> {
    match spec_compress_kind(name) {
        Some(CompressKind::Gz) => match gunzip_of(data) {
            Some(v) => Ok(v),
            None => Err(()),
        },
        Some(CompressKind::Xz) => match unxz_of(data) {
            Some(v) => Ok(v),
            None => Err(()),
        },
        _ => Err(()),
    }
}

/// Decompress a buffer according to its filename suffix.
pub fn decompress(data: &[u8], name: &str) -> (r: Result<Vec<u8>, CodecError>)
    ensures
        match r {
            Ok(v) => spec_decompress(data@, name@) == Ok::<Seq<u8>, ()>(v@),
            Err(_) => spec_decompress(data@, name@) is Err,
        },
{
    let cs = chars_of(name);
    match compress_kind(cs.as_slice()) {
        Some(CompressKind::Gz) => match gzip_decode(data) {
            Some(v) => Ok(v),
            None => Err(CodecError::BadStream(crate::chars::string_of(cs.as_slice()))),
        },
        Some(CompressKind::Xz) => match xz_decode(data) {
            Some(v) => Ok(v),
            None => Err(CodecError::BadStream(crate::chars::string_of(cs.as_slice()))),
        },
        _ => Err(CodecError::UnsupportedCodec(crate::chars::string_of(cs.as_slice()))),
    }
}

/// Why a downloaded index buffer was rejected.
#[derive(Debug)]
pub enum ExtractError {
    Digest(crate::checksum::ChecksumError),
    Mismatch(String),
    Codec(CodecError),
}

/// Verify a downloaded index buffer against its expected digest and
/// decompress it by its name's suffix: the compute half of fetching one
/// compressed index.
pub fn verify_and_extract(data: &[u8], name: &str, expected: &str) -> (r: Result<
    Vec<u8>,
    ExtractError,
>)
    ensures
        match r {
            Ok(v) => {
                &&& crate::checksum::valid_sha256_hex(expected@)
                &&& crate::checksum::hex_of(crate::checksum::sha256_of(data@))
                    == crate::checksum::lower_hex(expected@)
                &&& spec_decompress(data@, name@) == Ok::<Seq<u8>, ()>(v@)
            },
            Err(e) => match e {
                ExtractError::Digest(_) => !crate::checksum::valid_sha256_hex(expected@),
                ExtractError::Mismatch(_) => crate::checksum::valid_sha256_hex(expected@)
                    && crate::checksum::hex_of(crate::checksum::sha256_of(data@))
                    != crate::checksum::lower_hex(expected@),
                ExtractError::Codec(_) => crate::checksum::valid_sha256_hex(expected@)
                    && crate::checksum::hex_of(crate::checksum::sha256_of(data@))
                    == crate::checksum::lower_hex(expected@) && spec_decompress(
                    data@,
                    name@,
                ) is Err,
            },
        },
{
    let ok = match crate::checksum::verify_checksum(data, expected) {
        Ok(b) => b,
        Err(e) => {
            return Err(ExtractError::Digest(e));
        },
    };
    if !ok {
        return Err(ExtractError::Mismatch(crate::chars::string_of(chars_of(name).as_slice())));
    }
    match decompress(data, name) {
        Ok(v) => Ok(v),
        Err(e) => Err(ExtractError::Codec(e)),
    }
}

} // verus!
