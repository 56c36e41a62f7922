//! The identity codec.

use vstd::prelude::*;
use super::CompressionCodec;
use crate::types::ParquetError;

verus! {

/// Identity codec — data passes through unchanged.
#[derive(Debug, Clone, Copy, PartialEq, Eq, Structural)]
pub struct PlainCodec;

impl CompressionCodec for PlainCodec {
    open spec fn decompressed(&self, data: Seq<u8>) -> Option<Seq<u8>> {
        Some(data)
    }

    open spec fn compressed(&self, data: Seq<u8>) -> Option<Seq<u8>> {
        Some(data)
    }

    open spec fn decompress_failure(&self) -> Seq<char> {
        Seq::empty()
    }

    open spec fn compress_failure(&self) -> Seq<char> {
        Seq::empty()
    }

    fn decompress(&self, data: &[u8], _uncompressed_size: usize) -> (r: Result<Vec<u8>, ParquetError>) {
        Ok(vstd::slice::slice_to_vec(data))
    }

    fn compress(&self, data: &[u8]) -> (r: Result<Vec<u8>, ParquetError>) {
        Ok(vstd::slice::slice_to_vec(data))
    }
}

} // verus!
