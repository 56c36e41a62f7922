//! The file reader: metadata on construction, columns decoded on demand.
//!
//! A column chunk is a run of pages, each a Thrift page header followed by the
//! page's bytes. Data pages are decompressed with the column's codec and their
//! plain values appended; dictionary and index pages are passed over. Reading
//! stops at the end of the chunk or once the column's number of values is
//! reached.

use vstd::prelude::*;
use crate::types::{ParquetError, ErrorModel, PageType, Compression, ColumnMetadata, ColumnModel, ParquetMetadata,
    MetadataModel};
use crate::metadata::{MetadataReader, read_metadata_spec};
use crate::page::{parse_page_header, page_header_spec, lemma_header_size_positive};
use crate::decode::{ColumnDataAccumulator, ColumnValues, ColumnData, ColumnDataModel, no_values, append_decoded,
    column_data_of};
use crate::codecs::{get_codec, CompressionCodec, compression_name, reports_failure};
use crate::codecs::snappy::snappy_decompressed;
use crate::text::{decimal, decimal_u64};

verus! {

/// The start of the message of a failed Snappy decompression; the rest is the
/// decoder's own text.
pub open spec fn snappy_failure() -> ErrorModel {
    ErrorModel::DataError("Snappy decompress error: "@)
}

/// The error for a page header that reaches past the end of its column chunk.
pub open spec fn header_past_chunk() -> ErrorModel {
    ErrorModel::InvalidFile("Page header extends past end of column chunk"@)
}

/// An error as reported against the one a specification names: the same error,
/// or, for a failed Snappy decompression, a data error with that message start.
pub open spec fn reported_as(actual: ErrorModel, expected: ErrorModel) -> bool {
    if expected == snappy_failure() {
        reports_failure(actual, "Snappy decompress error: "@)
    } else {
        actual == expected
    }
}

/// Every error is reported as itself.
pub proof fn lemma_reported_as_self(e: ErrorModel)
    ensures
        reported_as(e, e),
{
    if e == snappy_failure() {
        let p = "Snappy decompress error: "@;
        assert(e->DataError_0.subrange(0, p.len() as int) =~= p);
    }
}

/// The bytes of a page once its compression is undone.
pub open spec fn page_contents(c: Compression, page: Seq<u8>) -> Result<Seq<u8>, ErrorModel> {
    match c {
        Compression::Uncompressed => Ok(page),
        Compression::Snappy => match snappy_decompressed(page) {
            Some(v) => Ok(v),
            None => Err(snappy_failure()),
        },
        _ => Err(ErrorModel::UnsupportedCompression(compression_name(c) + " codec not implemented"@)),
    }
}

/// The values of the pages of a column chunk from `pos` on, with `read` values
/// counted so far and `acc` gathered. A page's data runs for its compressed
/// size after its header, cut off at the end of the chunk. A data page adds
/// its number of values, read as plain values of the column's type; other
/// pages are passed over.
pub open spec fn decode_pages(d: Seq<u8>, pos: int, read: int, col: ColumnModel, acc: ColumnValues) -> Result<
    ColumnValues,
    ErrorModel,
>
    decreases d.len() - pos,
{
    if pos < 0 || pos >= d.len() || read >= col.num_values {
        Ok(acc)
    } else {
        match page_header_spec(d.subrange(pos, d.len() as int)) {
            Err(e) => Err(e),
            Ok(h) => {
                let start = pos + h.header_size;
                if start > d.len() {
                    Err(header_past_chunk())
                } else {
                    let end = if start + h.compressed_size < d.len() {
                        start + h.compressed_size
                    } else {
                        d.len() as int
                    };
                    proof {
                        lemma_header_size_positive(d.subrange(pos, d.len() as int));
                    }
                    if h.page_type == PageType::DataPage || h.page_type == PageType::DataPageV2 {
                        match page_contents(col.compression, d.subrange(start, end)) {
                            Err(e) => Err(e),
                            Ok(values) => decode_pages(
                                d,
                                end,
                                read + h.num_values,
                                col,
                                append_decoded(acc, values, col.physical_type, (h.num_values as usize) as nat),
                            ),
                        }
                    } else {
                        decode_pages(d, end, read, col, acc)
                    }
                }
            },
        }
    }
}

/// The column data that a whole column chunk decodes to.
pub open spec fn chunk_spec(chunk: Seq<u8>, col: ColumnModel) -> Result<ColumnDataModel, ErrorModel> {
    match decode_pages(chunk, 0, 0, col, no_values()) {
        Ok(v) => Ok(column_data_of(v, col.physical_type)),
        Err(e) => Err(e),
    }
}

/// The message for a column whose data offset lies past the end of the file.
pub open spec fn offset_message(i: usize, offset: usize, size: nat) -> Seq<char> {
    "Column "@ + decimal(i as int) + " data offset "@ + decimal(offset as int) + " exceeds file size "@ + decimal(
        size as int,
    )
}

/// Reading column `i` of a file with the given bytes and metadata: its chunk
/// starts at the column's data offset and runs for its compressed size, cut
/// off at the end of the file.
pub open spec fn column_read_spec(data: Seq<u8>, m: MetadataModel, i: usize) -> Result<ColumnDataModel, ErrorModel> {
    if i >= m.columns.len() {
        Err(ErrorModel::ColumnOutOfRange(i))
    } else {
        let col = m.columns[i as int];
        let offset = col.data_offset as usize;
        if offset >= data.len() {
            Err(ErrorModel::DataError(offset_message(i, offset, data.len())))
        } else {
            let size = col.total_compressed_size as usize;
            let end = if offset + size < data.len() {
                offset + size
            } else {
                data.len() as int
            };
            chunk_spec(data.subrange(offset as int, end), col)
        }
    }
}

/// The outcome of a column read agrees with its specification.
pub open spec fn read_agrees(r: Result<ColumnData, ParquetError>, s: Result<ColumnDataModel, ErrorModel>) -> bool {
    match r {
        Ok(c) => s == Ok::<ColumnDataModel, ErrorModel>(c@),
        Err(e) => s matches Err(se) && reported_as(e@, se),
    }
}

/// Appends the decimal rendering of a count.
fn push_count(s: &mut String, n: usize)
    ensures
        final(s)@ == old(s)@ + decimal(n as int),
{
    let d = decimal_u64(n as u64);
    s.append(d.as_str());
}

/// Skip repetition and definition level data in a data page. Flat schemas of
/// required columns have none, so the whole page is values.
fn skip_levels<'a>(data: &'a [u8], _col_meta: &ColumnMetadata) -> (r: Result<&'a [u8], ParquetError>)
    ensures
        r matches Ok(s) && s@ == data@,
{
    Ok(data)
}

/// Decode the pages of a column chunk.
fn decode_column_pages(chunk_data: &[u8], col_meta: &ColumnMetadata) -> (r: Result<ColumnData, ParquetError>)
    ensures
        read_agrees(r, chunk_spec(chunk_data@, col_meta@)),
{
    let len = chunk_data.len();
    let mut pos: usize = 0;
    let mut all_values = ColumnDataAccumulator::new(col_meta.physical_type);
    let mut values_read: i128 = 0;
    let ghost d = chunk_data@;
    let ghost col = col_meta@;
    while pos < len && values_read < col_meta.num_values as i128
        invariant
            len == d.len(),
            d == chunk_data@,
            col == col_meta@,
            pos <= len,
            -(pos * 0x8000_0000) <= values_read <= pos * 0x8000_0000,
            all_values.value_type() == col_meta.physical_type,
            decode_pages(d, 0, 0, col, no_values()) == decode_pages(d, pos as int, values_read as int, col, all_values@),
        decreases len - pos,
    {
        let rest = vstd::slice::slice_subrange(chunk_data, pos, len);
        let h = match parse_page_header(rest) {
            Ok(h) => h,
            Err(e) => {
                proof {
                    lemma_reported_as_self(e@);
                }
                return Err(e);
            },
        };
        proof {
            lemma_header_size_positive(rest@);
        }
        if h.header_size > len - pos {
            proof {
                lemma_reported_as_self(header_past_chunk());
            }
            return Err(ParquetError::InvalidFile(String::from_str("Page header extends past end of column chunk")));
        }
        let start = pos + h.header_size;
        let end = if h.compressed_size < len - start {
            start + h.compressed_size
        } else {
            len
        };
        if h.page_type == PageType::DataPage || h.page_type == PageType::DataPageV2 {
            let page = vstd::slice::slice_subrange(chunk_data, start, end);
            let decompressed: Vec<u8> = if col_meta.compression == Compression::Uncompressed {
                vstd::slice::slice_to_vec(page)
            } else {
                let codec = match get_codec(col_meta.compression) {
                    Ok(c) => c,
                    Err(e) => {
                        proof {
                            lemma_reported_as_self(e@);
                        }
                        return Err(e);
                    },
                };
                match codec.decompress(page, h.uncompressed_size) {
                    Ok(v) => v,
                    Err(e) => {
                        return Err(e);
                    },
                }
            };
            let value_data = match skip_levels(decompressed.as_slice(), col_meta) {
                Ok(s) => s,
                Err(e) => {
                    return Err(e);
                },
            };
            match all_values.decode_and_append(value_data, col_meta.physical_type, h.num_values as usize) {
                Ok(()) => {},
                Err(e) => {
                    return Err(e);
                },
            }
            values_read = values_read + h.num_values as i128;
        }
        pos = end;
    }
    all_values.into_column_data()
}

/// Main Parquet file reader.
///
/// Holds the raw file bytes and their parsed metadata.
/// Columns are read on demand via `read_column()`.
pub struct ParquetReader {
    data: Vec<u8>,
    metadata: ParquetMetadata,
}

impl ParquetReader {
    /// The metadata is what the bytes' footer gives.
    #[verifier::type_invariant]
    spec fn well_formed(self) -> bool {
        read_metadata_spec(self.data@) == Ok::<MetadataModel, ErrorModel>(self.metadata@)
    }

    /// The file's bytes.
    pub closed spec fn bytes(&self) -> Seq<u8> {
        self.data@
    }

    /// The file's metadata.
    pub closed spec fn meta(&self) -> MetadataModel {
        self.metadata@
    }

    /// A reader's file has at most `usize::MAX` column chunks.
    pub proof fn lemma_column_count_fits(&self)
        ensures
            self.meta().columns.len() <= usize::MAX,
    {
        broadcast use vstd::std_specs::vec::axiom_spec_len;

        assert(self.metadata.columns@.len() == self.metadata.columns.len());
    }

    /// Create a new reader from raw Parquet file bytes.
    pub fn new(data: &[u8]) -> (r: Result<ParquetReader, ParquetError>)
        ensures
            match r {
                Ok(reader) => reader.bytes() == data@ && read_metadata_spec(data@) == Ok::<MetadataModel, ErrorModel>(
                    reader.meta(),
                ),
                Err(e) => read_metadata_spec(data@) == Err::<MetadataModel, ErrorModel>(e@),
            },
    {
        let metadata = match MetadataReader::read_metadata(data) {
            Ok(m) => m,
            Err(e) => {
                return Err(e);
            },
        };
        Ok(ParquetReader { data: vstd::slice::slice_to_vec(data), metadata })
    }

    /// Get parsed metadata
    pub fn metadata(&self) -> (r: &ParquetMetadata)
        ensures
            r@ == self.meta(),
            read_metadata_spec(self.bytes()) == Ok::<MetadataModel, ErrorModel>(r@),
    {
        proof {
            use_type_invariant(self);
        }
        &self.metadata
    }

    /// Total number of rows
    pub fn num_rows(&self) -> (r: i64)
        ensures
            r == self.meta().num_rows,
    {
        self.metadata.num_rows
    }

    /// Number of columns
    pub fn num_columns(&self) -> (r: usize)
        ensures
            r == self.meta().num_columns,
    {
        self.metadata.num_columns
    }

    /// Column names, in the order of the column chunks.
    pub fn column_names(&self) -> (r: Vec<&str>)
        ensures
            r@.len() == self.meta().columns.len(),
            forall|j: int| 0 <= j < r@.len() ==> r@[j]@ == self.meta().columns[j].name,
    {
        let mut names: Vec<&str> = Vec::new();
        let n = self.metadata.columns.len();
        let mut i: usize = 0;
        while i < n
            invariant
                n == self.metadata.columns@.len(),
                i <= n,
                names@.len() == i,
                forall|j: int| 0 <= j < i ==> names@[j]@ == self.metadata.columns@[j].name@,
            decreases n - i,
        {
            names.push(self.metadata.columns[i].name.as_str());
            i = i + 1;
        }
        names
    }

    /// Read and decode a single column by index.
    pub fn read_column(&self, column_index: usize) -> (r: Result<ColumnData, ParquetError>)
        ensures
            read_agrees(r, column_read_spec(self.bytes(), self.meta(), column_index)),
    {
        if column_index >= self.metadata.columns.len() {
            proof {
                lemma_reported_as_self(ErrorModel::ColumnOutOfRange(column_index));
            }
            return Err(ParquetError::ColumnOutOfRange(column_index));
        }
        let col_meta = &self.metadata.columns[column_index];
        let offset = col_meta.data_offset as usize;
        let n = self.data.len();
        if offset >= n {
            let mut msg = String::from_str("Column ");
            push_count(&mut msg, column_index);
            msg.append(" data offset ");
            push_count(&mut msg, offset);
            msg.append(" exceeds file size ");
            push_count(&mut msg, n);
            proof {
                lemma_reported_as_self(ErrorModel::DataError(msg@));
            }
            return Err(ParquetError::DataError(msg));
        }
        let size = col_meta.total_compressed_size as usize;
        let end = if size < n - offset {
            offset + size
        } else {
            n
        };
        let raw_data = vstd::slice::slice_subrange(self.data.as_slice(), offset, end);
        decode_column_pages(raw_data, col_meta)
    }
}

} // verus!
