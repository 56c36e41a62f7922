//! Snappy compression through the `snap` crate's raw (unframed) format.

use vstd::prelude::*;
use super::CompressionCodec;
use crate::types::ParquetError;

verus! {

/// The error that the `snap` crate reports.
#[verifier::external_type_specification]
#[verifier::external_body]
pub struct ExSnapError(snap::Error);

/// What `snap::raw::Decoder::decompress_vec` gives for some input: the
/// decompressed bytes, or `None` where it reports an error.
pub uninterp spec fn snappy_decompressed(data: Seq<u8>) -> Option<Seq<u8>>;

/// What `snap::raw::Encoder::compress_vec` gives for some input: the compressed
/// bytes, or `None` where it reports an error.
pub uninterp spec fn snappy_compressed(data: Seq<u8>) -> Option<Seq<u8>>;

/// `snap::raw::Decoder::new().decompress_vec(data)`.
/// Claimed: it succeeds exactly where the named result is some bytes, and gives
/// them; empty input is refused (the decoder reports it as corrupt).
#[verifier::external_body]
fn raw_decompress(data: &[u8]) -> (r: Result<Vec<u8>, snap::Error>)
    ensures
        match r {
            Ok(v) => snappy_decompressed(data@) == Some(v@),
            Err(_) => snappy_decompressed(data@) is None,
        },
        data@.len() == 0 ==> r is Err,
{
    snap::raw::Decoder::new().decompress_vec(data)
}

/// `snap::raw::Encoder::new().compress_vec(data)`.
/// Claimed: it succeeds exactly where the named result is some bytes, and gives
/// them; it fails exactly where the bound on the compressed size,
/// `32 + n + n / 6` for `n` input bytes, exceeds `u32::MAX`; and what it gives
/// decompresses to the input, as `snap::raw::Decoder` is documented to
/// decompress the bytes that `Encoder` returns.
#[verifier::external_body]
fn raw_compress(data: &[u8]) -> (r: Result<Vec<u8>, snap::Error>)
    ensures
        match r {
            Ok(v) => snappy_compressed(data@) == Some(v@),
            Err(_) => snappy_compressed(data@) is None,
        },
        r is Ok <==> 32 + data@.len() + data@.len() / 6 <= 0xffff_ffff,
        r matches Ok(v) ==> snappy_decompressed(v@) == Some(data@),
{
    snap::raw::Encoder::new().compress_vec(data)
}

/// The text that `snap::Error`'s `Display` gives. Nothing is claimed of it.
#[verifier::external_body]
fn snap_error_text(e: &snap::Error) -> String {
    e.to_string()
}

/// Snappy compression codec using the `snap` crate.
#[derive(Debug, Clone, Copy, PartialEq, Eq, Structural)]
pub struct SnappyCodec;

impl CompressionCodec for SnappyCodec {
    open spec fn decompressed(&self, data: Seq<u8>) -> Option<Seq<u8>> {
        snappy_decompressed(data)
    }

    open spec fn compressed(&self, data: Seq<u8>) -> Option<Seq<u8>> {
        snappy_compressed(data)
    }

    open spec fn decompress_failure(&self) -> Seq<char> {
        "Snappy decompress error: "@
    }

    open spec fn compress_failure(&self) -> Seq<char> {
        "Snappy compress error: "@
    }

    fn decompress(&self, data: &[u8], _uncompressed_size: usize) -> (r: Result<Vec<u8>, ParquetError>) {
        match raw_decompress(data) {
            Ok(v) => Ok(v),
            Err(e) => {
                let mut msg = String::from_str("Snappy decompress error: ");
                let ghost prefix = msg@;
                let text = snap_error_text(&e);
                msg.append(text.as_str());
                assert(msg@.subrange(0, prefix.len() as int) =~= prefix);
                Err(ParquetError::DataError(msg))
            },
        }
    }

    fn compress(&self, data: &[u8]) -> (r: Result<Vec<u8>, ParquetError>) {
        match raw_compress(data) {
            Ok(v) => Ok(v),
            Err(e) => {
                let mut msg = String::from_str("Snappy compress error: ");
                let ghost prefix = msg@;
                let text = snap_error_text(&e);
                msg.append(text.as_str());
                assert(msg@.subrange(0, prefix.len() as int) =~= prefix);
                Err(ParquetError::DataError(msg))
            },
        }
    }
}

} // verus!
