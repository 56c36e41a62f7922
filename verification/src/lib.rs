//! A lightweight reader for Parquet files: footer metadata decoding over a
//! hand-written Thrift Compact Protocol reader, plain-encoded column pages,
//! Snappy page decompression, a schema builder and a batching cursor.

pub mod text;
pub mod types;
pub mod thrift;
pub mod metadata;
pub mod codecs;
pub mod page;
pub mod decode;
pub mod reader;
pub mod batch_iter_advanced;
pub mod schema;
pub mod statistics;
pub mod streaming_reader;
pub mod arrow_convert;

use vstd::prelude::*;
pub use types::{Compression, Encoding, ParquetError, ParquetMetadata, ParquetType, ColumnMetadata, RowGroupMetadata};
pub use schema::{ColumnSchema, LogicalType, SchemaBuilder, TimestampUnit};
pub use decode::ColumnData;
pub use reader::ParquetReader;
pub use batch_iter_advanced::SelectiveBatchIterator;
pub use streaming_reader::StreamingParquetReader;
pub use statistics::{ColumnStatistics, StatisticsCollector};
pub use arrow_convert::ArrowConverter;
use types::{ErrorModel, MetadataModel};
use metadata::{MetadataReader, read_metadata_spec};
use batch_iter_advanced::all_columns;

verus! {

/// Parse metadata from raw Parquet file bytes.
///
/// This is a lightweight operation: only the footer is parsed, no column
/// data is read.
pub fn read_metadata(data: &[u8]) -> (r: Result<ParquetMetadata, ParquetError>)
    ensures
        match r {
            Ok(m) => read_metadata_spec(data@) == Ok::<MetadataModel, ErrorModel>(m@),
            Err(e) => read_metadata_spec(data@) == Err::<MetadataModel, ErrorModel>(e@),
        },
{
    MetadataReader::read_metadata(data)
}

/// A batch cursor over all columns of a file, `batch_size` rows at a time.
pub fn read_to_arrow_batches(data: &[u8], batch_size: usize) -> (r: Result<SelectiveBatchIterator, ParquetError>)
    ensures
        match r {
            Ok(it) => {
                &&& it.source().bytes() == data@
                &&& read_metadata_spec(data@) == Ok::<MetadataModel, ErrorModel>(it.source().meta())
                &&& it.rows_per_batch() == batch_size
                &&& it.position() == 0
                &&& it.selection() == all_columns(it.source().meta().num_columns)
            },
            Err(e) => read_metadata_spec(data@) == Err::<MetadataModel, ErrorModel>(e@),
        },
{
    let reader = match ParquetReader::new(data) {
        Ok(r) => r,
        Err(e) => {
            return Err(e);
        },
    };
    Ok(SelectiveBatchIterator::new(reader, batch_size))
}

/// A batch cursor over the given columns of a file, `batch_size` rows at a time.
pub fn read_columns_to_arrow_batches(data: &[u8], batch_size: usize, columns: Vec<usize>) -> (r: Result<
    SelectiveBatchIterator,
    ParquetError,
>)
    ensures
        match r {
            Ok(it) => {
                &&& it.source().bytes() == data@
                &&& read_metadata_spec(data@) == Ok::<MetadataModel, ErrorModel>(it.source().meta())
                &&& it.rows_per_batch() == batch_size
                &&& it.position() == 0
                &&& it.selection() == columns@
            },
            Err(e) => read_metadata_spec(data@) == Err::<MetadataModel, ErrorModel>(e@),
        },
{
    let reader = match ParquetReader::new(data) {
        Ok(r) => r,
        Err(e) => {
            return Err(e);
        },
    };
    Ok(SelectiveBatchIterator::new(reader, batch_size).with_columns(columns))
}

} // verus!
