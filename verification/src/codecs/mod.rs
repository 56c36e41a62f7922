//! Page compression codecs.

pub mod plain;
pub mod snappy;

use vstd::prelude::*;
use crate::types::{Compression, ParquetError, ErrorModel};
use self::plain::PlainCodec;
use self::snappy::SnappyCodec;

verus! {

/// The error reports a data error whose message starts with `prefix`.
pub open spec fn reports_failure(e: ErrorModel, prefix: Seq<char>) -> bool {
    &&& e is DataError
    &&& prefix.len() <= e->DataError_0.len()
    &&& e->DataError_0.subrange(0, prefix.len() as int) == prefix
}

/// Trait for compression/decompression codecs
pub trait CompressionCodec {
    /// What decompressing `data` gives, or `None` where the codec refuses it.
    spec fn decompressed(&self, data: Seq<u8>) -> Option<Seq<u8>>;

    /// What compressing `data` gives, or `None` where the codec refuses it.
    spec fn compressed(&self, data: Seq<u8>) -> Option<Seq<u8>>;

    /// The start of the message of a decompression error.
    spec fn decompress_failure(&self) -> Seq<char>;

    /// The start of the message of a compression error.
    spec fn compress_failure(&self) -> Seq<char>;

    fn decompress(&self, data: &[u8], uncompressed_size: usize) -> (r: Result<Vec<u8>, ParquetError>)
        ensures
            match r {
                Ok(v) => self.decompressed(data@) == Some(v@),
                Err(e) => self.decompressed(data@) is None && reports_failure(e@, self.decompress_failure()),
            },
    ;

    /// Compress `data`; what comes back decompresses to `data`.
    fn compress(&self, data: &[u8]) -> (r: Result<Vec<u8>, ParquetError>)
        ensures
            match r {
                Ok(v) => self.compressed(data@) == Some(v@),
                Err(e) => self.compressed(data@) is None && reports_failure(e@, self.compress_failure()),
            },
            r matches Ok(v) ==> self.decompressed(v@) == Some(data@),
    ;
}

/// A codec that this library implements.
#[derive(Debug, Clone, Copy, PartialEq, Eq, Structural)]
pub enum Codec {
    Plain(PlainCodec),
    Snappy(SnappyCodec),
}

impl CompressionCodec for Codec {
    open spec fn decompressed(&self, data: Seq<u8>) -> Option<Seq<u8>> {
        match self {
            Codec::Plain(c) => c.decompressed(data),
            Codec::Snappy(c) => c.decompressed(data),
        }
    }

    open spec fn compressed(&self, data: Seq<u8>) -> Option<Seq<u8>> {
        match self {
            Codec::Plain(c) => c.compressed(data),
            Codec::Snappy(c) => c.compressed(data),
        }
    }

    open spec fn decompress_failure(&self) -> Seq<char> {
        match self {
            Codec::Plain(c) => c.decompress_failure(),
            Codec::Snappy(c) => c.decompress_failure(),
        }
    }

    open spec fn compress_failure(&self) -> Seq<char> {
        match self {
            Codec::Plain(c) => c.compress_failure(),
            Codec::Snappy(c) => c.compress_failure(),
        }
    }

    fn decompress(&self, data: &[u8], uncompressed_size: usize) -> (r: Result<Vec<u8>, ParquetError>) {
        match self {
            Codec::Plain(c) => c.decompress(data, uncompressed_size),
            Codec::Snappy(c) => c.decompress(data, uncompressed_size),
        }
    }

    fn compress(&self, data: &[u8]) -> (r: Result<Vec<u8>, ParquetError>) {
        match self {
            Codec::Plain(c) => c.compress(data),
            Codec::Snappy(c) => c.compress(data),
        }
    }
}

/// The name of a compression codec, as its variant is written.
pub open spec fn compression_name(c: Compression) -> Seq<char> {
    match c {
        Compression::Uncompressed => "Uncompressed"@,
        Compression::Snappy => "Snappy"@,
        Compression::Gzip => "Gzip"@,
        Compression::Lzo => "Lzo"@,
        Compression::Brotli => "Brotli"@,
        Compression::Lz4 => "Lz4"@,
        Compression::Zstd => "Zstd"@,
    }
}

/// Factory: get the appropriate codec for a compression type
pub fn get_codec(compression: Compression) -> (r: Result<Codec, ParquetError>)
    ensures
        compression == Compression::Uncompressed ==> r == Ok::<Codec, ParquetError>(Codec::Plain(PlainCodec)),
        compression == Compression::Snappy ==> r == Ok::<Codec, ParquetError>(Codec::Snappy(SnappyCodec)),
        compression != Compression::Uncompressed && compression != Compression::Snappy ==> (r matches Err(e)
            && e@ == ErrorModel::UnsupportedCompression(compression_name(compression) + " codec not implemented"@)),
{
    let name = match compression {
        Compression::Uncompressed => {
            return Ok(Codec::Plain(PlainCodec));
        },
        Compression::Snappy => {
            return Ok(Codec::Snappy(SnappyCodec));
        },
        Compression::Gzip => "Gzip",
        Compression::Lzo => "Lzo",
        Compression::Brotli => "Brotli",
        Compression::Lz4 => "Lz4",
        Compression::Zstd => "Zstd",
    };
    let mut msg = String::from_str(name);
    msg.append(" codec not implemented");
    Err(ParquetError::UnsupportedCompression(msg))
}

} // verus!
