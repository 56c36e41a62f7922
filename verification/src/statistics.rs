//! Per-column statistics drawn from a file's metadata.
//!
//! The compression ratio is kept as the two sizes it is the quotient of, so
//! that the library holds no floating-point value; formatting it is left to
//! the caller.

use vstd::prelude::*;
use crate::types::{ParquetType, ParquetMetadata, ColumnModel, ColumnMetadata};
use vstd::utf8::{encode_utf8, decode_utf8, is_char_boundary};

verus! {

/// A ratio of two sizes: compressed bytes over uncompressed bytes.
#[derive(Debug, Clone, Copy, PartialEq, Eq, Structural)]
pub struct SizeRatio {
    pub numerator: i64,
    pub denominator: i64,
}

/// Per-column statistics summary
#[derive(Debug, Clone)]
pub struct ColumnStatistics {
    pub column_name: String,
    pub physical_type: ParquetType,
    pub num_values: i64,
    pub null_count: i64,
    pub distinct_values: Option<i64>,
    pub min_value: Option<String>,
    pub max_value: Option<String>,
    pub size_bytes: i64,
    pub compression_ratio: SizeRatio,
}

/// What a column's statistics say.
pub struct StatisticsModel {
    pub column_name: Seq<char>,
    pub physical_type: ParquetType,
    pub num_values: i64,
    pub null_count: i64,
    pub distinct_values: Option<i64>,
    pub min_value: Option<Seq<char>>,
    pub max_value: Option<Seq<char>>,
    pub size_bytes: i64,
    pub compression_ratio: SizeRatio,
}

impl View for ColumnStatistics {
    type V = StatisticsModel;

    open spec fn view(&self) -> StatisticsModel {
        StatisticsModel {
            column_name: self.column_name@,
            physical_type: self.physical_type,
            num_values: self.num_values,
            null_count: self.null_count,
            distinct_values: self.distinct_values,
            min_value: match self.min_value {
                Some(s) => Some(s@),
                None => None,
            },
            max_value: match self.max_value {
                Some(s) => Some(s@),
                None => None,
            },
            size_bytes: self.size_bytes,
            compression_ratio: self.compression_ratio,
        }
    }
}

/// The compression ratio of a column chunk: compressed over uncompressed size,
/// or one where the uncompressed size is not positive.
pub open spec fn ratio_of(col: ColumnModel) -> SizeRatio {
    if col.total_uncompressed_size > 0 {
        SizeRatio { numerator: col.total_compressed_size, denominator: col.total_uncompressed_size }
    } else {
        SizeRatio { numerator: 1, denominator: 1 }
    }
}

/// The statistics of a column chunk: its name, type and number of values, its
/// uncompressed size and its compression ratio; nothing is known of nulls,
/// distinct values or bounds.
pub open spec fn statistics_of(col: ColumnModel) -> StatisticsModel {
    StatisticsModel {
        column_name: col.name,
        physical_type: col.physical_type,
        num_values: col.num_values,
        null_count: 0,
        distinct_values: None,
        min_value: None,
        max_value: None,
        size_bytes: col.total_uncompressed_size,
        compression_ratio: ratio_of(col),
    }
}

/// The models of a sequence of column statistics.
pub open spec fn statistics_models(stats: Seq<ColumnStatistics>) -> Seq<StatisticsModel> {
    stats.map_values(|s: ColumnStatistics| s@)
}

/// Collects statistics from Parquet metadata.
pub struct StatisticsCollector;

/// The statistics of one column chunk.
fn column_statistics(col: &ColumnMetadata) -> (r: ColumnStatistics)
    ensures
        r@ == statistics_of(col@),
{
    let compression_ratio = if col.total_uncompressed_size > 0 {
        SizeRatio { numerator: col.total_compressed_size, denominator: col.total_uncompressed_size }
    } else {
        SizeRatio { numerator: 1, denominator: 1 }
    };
    ColumnStatistics {
        column_name: col.name.clone(),
        physical_type: col.physical_type,
        num_values: col.num_values,
        null_count: 0,
        distinct_values: None,
        min_value: None,
        max_value: None,
        size_bytes: col.total_uncompressed_size,
        compression_ratio,
    }
}

/// The uncompressed sizes of the column chunks, added up.
pub open spec fn total_uncompressed(cols: Seq<ColumnModel>) -> int
    decreases cols.len(),
{
    if cols.len() == 0 {
        0
    } else {
        total_uncompressed(cols.drop_last()) + cols.last().total_uncompressed_size
    }
}

/// The compressed sizes of the column chunks, added up.
pub open spec fn total_compressed(cols: Seq<ColumnModel>) -> int
    decreases cols.len(),
{
    if cols.len() == 0 {
        0
    } else {
        total_compressed(cols.drop_last()) + cols.last().total_compressed_size
    }
}

impl StatisticsCollector {
    /// The total uncompressed and compressed sizes of the column chunks.
    pub fn total_sizes(metadata: &ParquetMetadata) -> (r: (i128, i128))
        ensures
            r.0 == total_uncompressed(metadata@.columns),
            r.1 == total_compressed(metadata@.columns),
    {
        let ghost cols = metadata@.columns;
        let n = metadata.columns.len();
        let mut size: i128 = 0;
        let mut compressed: i128 = 0;
        let mut i: usize = 0;
        while i < n
            invariant
                n == metadata.columns@.len(),
                cols == metadata@.columns,
                i <= n,
                size == total_uncompressed(cols.subrange(0, i as int)),
                compressed == total_compressed(cols.subrange(0, i as int)),
                -(i * 0x8000_0000_0000_0000) <= size <= i * 0x8000_0000_0000_0000,
                -(i * 0x8000_0000_0000_0000) <= compressed <= i * 0x8000_0000_0000_0000,
            decreases n - i,
        {
            proof {
                assert(cols.subrange(0, i + 1).drop_last() =~= cols.subrange(0, i as int));
                assert(cols[i as int] == metadata.columns@[i as int]@);
            }
            size = size + metadata.columns[i].total_uncompressed_size as i128;
            compressed = compressed + metadata.columns[i].total_compressed_size as i128;
            i = i + 1;
        }
        proof {
            assert(cols.subrange(0, n as int) =~= cols);
        }
        (size, compressed)
    }

    /// Build column statistics from parsed metadata, one per column chunk, in order.
    pub fn from_metadata(metadata: &ParquetMetadata) -> (r: Vec<ColumnStatistics>)
        ensures
            statistics_models(r@) == metadata@.columns.map_values(|c: ColumnModel| statistics_of(c)),
    {
        let mut stats: Vec<ColumnStatistics> = Vec::new();
        let n = metadata.columns.len();
        let mut i: usize = 0;
        while i < n
            invariant
                n == metadata.columns@.len(),
                i <= n,
                statistics_models(stats@) =~= metadata@.columns.map_values(|c: ColumnModel| statistics_of(c)).subrange(
                    0,
                    i as int,
                ),
            decreases n - i,
        {
            let s = column_statistics(&metadata.columns[i]);
            let ghost before = statistics_models(stats@);
            let ghost sm = s@;
            stats.push(s);
            assert(metadata@.columns[i as int] == metadata.columns@[i as int]@);
            assert(statistics_models(stats@) =~= before.push(sm));
            i = i + 1;
        }
        stats
    }
}

/// A column name as a table cell of at most `max_len` bytes: unchanged when it
/// fits, else its first `max_len - 1` bytes and an ellipsis.
pub open spec fn truncated(s: Seq<char>, max_len: usize) -> Seq<char> {
    let bytes = encode_utf8(s);
    if bytes.len() <= max_len {
        s
    } else {
        decode_utf8(bytes.subrange(0, max_len - 1)) + seq!['…']
    }
}

/// Truncate a string to `max_len` bytes, appending "…" if truncated. The cut
/// must fall on a character boundary.
pub fn truncate(s: &str, max_len: usize) -> (r: String)
    requires
        encode_utf8(s@).len() <= max_len || (max_len >= 1 && is_char_boundary(encode_utf8(s@), max_len - 1)),
    ensures
        r@ == truncated(s@, max_len),
{
    let byte_len = s.as_bytes().len();
    if byte_len <= max_len {
        String::from_str(s)
    } else {
        let (head, _) = s.split_at(max_len - 1);
        let mut r = String::from_str(head);
        proof {
            reveal_strlit("…");
            vstd::utf8::encode_utf8_decode_utf8(head@);
        }
        r.append("…");
        r
    }
}

} // verus!
