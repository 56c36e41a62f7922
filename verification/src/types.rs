//! Physical types, encodings, codecs, page kinds, errors and the metadata model.

use vstd::prelude::*;
use crate::text::{decimal, push_decimal};

verus! {

/// The I/O error that a streaming read can report.
#[verifier::external_type_specification]
#[verifier::external_body]
pub struct ExIoError(std::io::Error);

/// Core Parquet physical types
#[derive(Debug, Clone, Copy, PartialEq, Eq, Structural)]
pub enum ParquetType {
    Boolean,
    Int32,
    Int64,
    Int96,
    Float,
    Double,
    ByteArray,
    FixedLenByteArray(i32),
}

/// The physical type that a Thrift type code denotes; a fixed-length byte
/// array gets its length later, from the schema element.
pub open spec fn parquet_type_of_code(code: i32) -> Option<ParquetType> {
    if code == 0 {
        Some(ParquetType::Boolean)
    } else if code == 1 {
        Some(ParquetType::Int32)
    } else if code == 2 {
        Some(ParquetType::Int64)
    } else if code == 3 {
        Some(ParquetType::Int96)
    } else if code == 4 {
        Some(ParquetType::Float)
    } else if code == 5 {
        Some(ParquetType::Double)
    } else if code == 6 {
        Some(ParquetType::ByteArray)
    } else if code == 7 {
        Some(ParquetType::FixedLenByteArray(0))
    } else {
        None
    }
}

/// Encoding types supported by Parquet
#[derive(Debug, Clone, Copy, PartialEq, Eq, Structural)]
pub enum Encoding {
    Plain,
    RleBitPacked,
    DeltaBinaryPacked,
    DeltaLengthByteArray,
    DeltaByteArray,
}

/// The encoding that a Thrift code denotes; unknown codes read as plain.
pub open spec fn encoding_of_code(code: i32) -> Encoding {
    if code == 4 {
        Encoding::RleBitPacked
    } else if code == 5 {
        Encoding::DeltaBinaryPacked
    } else if code == 6 {
        Encoding::DeltaLengthByteArray
    } else if code == 7 {
        Encoding::DeltaByteArray
    } else {
        Encoding::Plain
    }
}

/// Compression codecs supported by Parquet
#[derive(Debug, Clone, Copy, PartialEq, Eq, Structural)]
pub enum Compression {
    Uncompressed,
    Snappy,
    Gzip,
    Lzo,
    Brotli,
    Lz4,
    Zstd,
}

/// The codec that a Thrift compression code denotes.
pub open spec fn compression_of_code(code: i32) -> Option<Compression> {
    if code == 0 {
        Some(Compression::Uncompressed)
    } else if code == 1 {
        Some(Compression::Snappy)
    } else if code == 2 {
        Some(Compression::Gzip)
    } else if code == 3 {
        Some(Compression::Lzo)
    } else if code == 4 {
        Some(Compression::Brotli)
    } else if code == 5 {
        Some(Compression::Lz4)
    } else if code == 6 {
        Some(Compression::Zstd)
    } else {
        None
    }
}

/// Page types within a column chunk
#[derive(Debug, Clone, Copy, PartialEq, Eq, Structural)]
pub enum PageType {
    DataPage,
    IndexPage,
    DictionaryPage,
    DataPageV2,
}

/// The page type that a Thrift code denotes.
pub open spec fn page_type_of_code(code: i32) -> Option<PageType> {
    if code == 0 {
        Some(PageType::DataPage)
    } else if code == 1 {
        Some(PageType::IndexPage)
    } else if code == 2 {
        Some(PageType::DictionaryPage)
    } else if code == 3 {
        Some(PageType::DataPageV2)
    } else {
        None
    }
}

/// The physical type codes are 0 to 7, each naming a different type.
pub proof fn lemma_parquet_type_codes(a: i32, b: i32)
    ensures
        parquet_type_of_code(a) is Some <==> 0 <= a <= 7,
        parquet_type_of_code(a) is Some && parquet_type_of_code(a) == parquet_type_of_code(b) ==> a == b,
{
}

/// The compression codes are 0 to 6, each naming a different codec.
pub proof fn lemma_compression_codes(a: i32, b: i32)
    ensures
        compression_of_code(a) is Some <==> 0 <= a <= 6,
        compression_of_code(a) is Some && compression_of_code(a) == compression_of_code(b) ==> a == b,
{
}

/// The page type codes are 0 to 3, each naming a different kind of page.
pub proof fn lemma_page_type_codes(a: i32, b: i32)
    ensures
        page_type_of_code(a) is Some <==> 0 <= a <= 3,
        page_type_of_code(a) is Some && page_type_of_code(a) == page_type_of_code(b) ==> a == b,
{
}

/// The physical type codes are those of the Parquet Thrift `Type` enum:
/// BOOLEAN 0, INT32 1, INT64 2, INT96 3, FLOAT 4, DOUBLE 5, BYTE_ARRAY 6 and
/// FIXED_LEN_BYTE_ARRAY 7 (whose length comes later), and no other.
pub proof fn lemma_parquet_type_code_table(code: i32)
    ensures
        parquet_type_of_code(0) == Some(ParquetType::Boolean),
        parquet_type_of_code(1) == Some(ParquetType::Int32),
        parquet_type_of_code(2) == Some(ParquetType::Int64),
        parquet_type_of_code(3) == Some(ParquetType::Int96),
        parquet_type_of_code(4) == Some(ParquetType::Float),
        parquet_type_of_code(5) == Some(ParquetType::Double),
        parquet_type_of_code(6) == Some(ParquetType::ByteArray),
        parquet_type_of_code(7) == Some(ParquetType::FixedLenByteArray(0)),
        !(0 <= code <= 7) ==> parquet_type_of_code(code) is None,
{
}

/// The compression codes are those of the Parquet Thrift
/// `CompressionCodec` enum: UNCOMPRESSED 0, SNAPPY 1, GZIP 2, LZO 3, BROTLI 4,
/// LZ4 5 and ZSTD 6, and no other.
pub proof fn lemma_compression_code_table(code: i32)
    ensures
        compression_of_code(0) == Some(Compression::Uncompressed),
        compression_of_code(1) == Some(Compression::Snappy),
        compression_of_code(2) == Some(Compression::Gzip),
        compression_of_code(3) == Some(Compression::Lzo),
        compression_of_code(4) == Some(Compression::Brotli),
        compression_of_code(5) == Some(Compression::Lz4),
        compression_of_code(6) == Some(Compression::Zstd),
        !(0 <= code <= 6) ==> compression_of_code(code) is None,
{
}

/// The page type codes are those of the Parquet Thrift `PageType` enum:
/// DATA_PAGE 0, INDEX_PAGE 1, DICTIONARY_PAGE 2 and DATA_PAGE_V2 3, and no other.
pub proof fn lemma_page_type_code_table(code: i32)
    ensures
        page_type_of_code(0) == Some(PageType::DataPage),
        page_type_of_code(1) == Some(PageType::IndexPage),
        page_type_of_code(2) == Some(PageType::DictionaryPage),
        page_type_of_code(3) == Some(PageType::DataPageV2),
        !(0 <= code <= 3) ==> page_type_of_code(code) is None,
{
}

/// The encoding codes are those of the Parquet Thrift `Encoding` enum where
/// this library names them: RLE 4 (bit-packed hybrid), DELTA_BINARY_PACKED 5,
/// DELTA_LENGTH_BYTE_ARRAY 6 and DELTA_BYTE_ARRAY 7; PLAIN 0 and every other
/// code are taken as plain.
pub proof fn lemma_encoding_code_table(code: i32)
    ensures
        encoding_of_code(0) == Encoding::Plain,
        encoding_of_code(4) == Encoding::RleBitPacked,
        encoding_of_code(5) == Encoding::DeltaBinaryPacked,
        encoding_of_code(6) == Encoding::DeltaLengthByteArray,
        encoding_of_code(7) == Encoding::DeltaByteArray,
        !(4 <= code <= 7) ==> encoding_of_code(code) == Encoding::Plain,
{
}

/// Parquet error types
#[derive(Debug)]
pub enum ParquetError {
    IoError(std::io::Error),
    InvalidFile(String),
    UnsupportedType(String),
    UnsupportedCompression(String),
    UnsupportedEncoding(String),
    DataError(String),
    ArrowError(String),
    ColumnOutOfRange(usize),
}

/// What an error says: its kind and its message.
pub enum ErrorModel {
    Io,
    InvalidFile(Seq<char>),
    UnsupportedType(Seq<char>),
    UnsupportedCompression(Seq<char>),
    UnsupportedEncoding(Seq<char>),
    DataError(Seq<char>),
    ArrowError(Seq<char>),
    ColumnOutOfRange(usize),
}

impl View for ParquetError {
    type V = ErrorModel;

    open spec fn view(&self) -> ErrorModel {
        match self {
            ParquetError::IoError(_) => ErrorModel::Io,
            ParquetError::InvalidFile(m) => ErrorModel::InvalidFile(m@),
            ParquetError::UnsupportedType(m) => ErrorModel::UnsupportedType(m@),
            ParquetError::UnsupportedCompression(m) => ErrorModel::UnsupportedCompression(m@),
            ParquetError::UnsupportedEncoding(m) => ErrorModel::UnsupportedEncoding(m@),
            ParquetError::DataError(m) => ErrorModel::DataError(m@),
            ParquetError::ArrowError(m) => ErrorModel::ArrowError(m@),
            ParquetError::ColumnOutOfRange(i) => ErrorModel::ColumnOutOfRange(*i),
        }
    }
}

/// A message followed by the decimal rendering of `n`.
pub fn message_with_number(prefix: &str, n: i64) -> (s: String)
    ensures
        s@ == prefix@ + decimal(n as int),
{
    let mut s = String::from_str(prefix);
    push_decimal(&mut s, n);
    s
}

/// A prefix followed by the decimal rendering of a count.
pub fn message_with_count(prefix: &str, n: usize) -> (s: String)
    ensures
        s@ == prefix@ + decimal(n as int),
{
    let mut s = String::from_str(prefix);
    let d = crate::text::decimal_u64(n as u64);
    s.append(d.as_str());
    s
}

impl ParquetType {
    /// Convert from the Thrift type code to our enum
    pub fn from_thrift(code: i32) -> (r: Result<ParquetType, ParquetError>)
        ensures
            match r {
                Ok(t) => parquet_type_of_code(code) == Some(t),
                Err(e) => parquet_type_of_code(code) is None && e@ == ErrorModel::UnsupportedType(
                    "Unknown physical type code: "@ + decimal(code as int),
                ),
            },
    {
        match code {
            0 => Ok(ParquetType::Boolean),
            1 => Ok(ParquetType::Int32),
            2 => Ok(ParquetType::Int64),
            3 => Ok(ParquetType::Int96),
            4 => Ok(ParquetType::Float),
            5 => Ok(ParquetType::Double),
            6 => Ok(ParquetType::ByteArray),
            7 => Ok(ParquetType::FixedLenByteArray(0)),
            _ => Err(
                ParquetError::UnsupportedType(
                    message_with_number("Unknown physical type code: ", code as i64),
                ),
            ),
        }
    }
}

impl Encoding {
    /// Convert from the Thrift encoding code; unknown codes read as plain.
    pub fn from_thrift(code: i32) -> (r: Result<Encoding, ParquetError>)
        ensures
            r == Ok::<Encoding, ParquetError>(encoding_of_code(code)),
    {
        match code {
            0 => Ok(Encoding::Plain),
            4 => Ok(Encoding::RleBitPacked),
            5 => Ok(Encoding::DeltaBinaryPacked),
            6 => Ok(Encoding::DeltaLengthByteArray),
            7 => Ok(Encoding::DeltaByteArray),
            _ => Ok(Encoding::Plain),
        }
    }
}

impl Compression {
    /// Convert from the Thrift compression code
    pub fn from_thrift(code: i32) -> (r: Result<Compression, ParquetError>)
        ensures
            match r {
                Ok(c) => compression_of_code(code) == Some(c),
                Err(e) => compression_of_code(code) is None && e@
                    == ErrorModel::UnsupportedCompression(
                    "Unknown compression code: "@ + decimal(code as int),
                ),
            },
    {
        match code {
            0 => Ok(Compression::Uncompressed),
            1 => Ok(Compression::Snappy),
            2 => Ok(Compression::Gzip),
            3 => Ok(Compression::Lzo),
            4 => Ok(Compression::Brotli),
            5 => Ok(Compression::Lz4),
            6 => Ok(Compression::Zstd),
            _ => Err(
                ParquetError::UnsupportedCompression(
                    message_with_number("Unknown compression code: ", code as i64),
                ),
            ),
        }
    }
}

impl PageType {
    /// Convert from the Thrift page type code
    pub fn from_thrift(code: i32) -> (r: Result<PageType, ParquetError>)
        ensures
            match r {
                Ok(p) => page_type_of_code(code) == Some(p),
                Err(e) => page_type_of_code(code) is None && e@ == ErrorModel::DataError(
                    "Unknown page type: "@ + decimal(code as int),
                ),
            },
    {
        match code {
            0 => Ok(PageType::DataPage),
            1 => Ok(PageType::IndexPage),
            2 => Ok(PageType::DictionaryPage),
            3 => Ok(PageType::DataPageV2),
            _ => Err(ParquetError::DataError(message_with_number("Unknown page type: ", code as i64))),
        }
    }
}

/// Metadata for a single column chunk
#[derive(Debug)]
pub struct ColumnMetadata {
    /// Column name extracted from schema
    pub name: String,
    /// Physical type of the column
    pub physical_type: ParquetType,
    /// Encoding used
    pub encoding: Encoding,
    /// Compression codec used
    pub compression: Compression,
    /// Number of values in this column chunk
    pub num_values: i64,
    /// Byte offset of the column chunk data in the file
    pub data_offset: i64,
    /// Total compressed size in bytes
    pub total_compressed_size: i64,
    /// Total uncompressed size in bytes
    pub total_uncompressed_size: i64,
}

/// What a column chunk's metadata says, with its name as characters.
pub struct ColumnModel {
    pub name: Seq<char>,
    pub physical_type: ParquetType,
    pub encoding: Encoding,
    pub compression: Compression,
    pub num_values: i64,
    pub data_offset: i64,
    pub total_compressed_size: i64,
    pub total_uncompressed_size: i64,
}

impl View for ColumnMetadata {
    type V = ColumnModel;

    open spec fn view(&self) -> ColumnModel {
        ColumnModel {
            name: self.name@,
            physical_type: self.physical_type,
            encoding: self.encoding,
            compression: self.compression,
            num_values: self.num_values,
            data_offset: self.data_offset,
            total_compressed_size: self.total_compressed_size,
            total_uncompressed_size: self.total_uncompressed_size,
        }
    }
}

impl Clone for ColumnMetadata {
    fn clone(&self) -> (r: Self)
        ensures
            r == *self,
    {
        ColumnMetadata {
            name: self.name.clone(),
            physical_type: self.physical_type,
            encoding: self.encoding,
            compression: self.compression,
            num_values: self.num_values,
            data_offset: self.data_offset,
            total_compressed_size: self.total_compressed_size,
            total_uncompressed_size: self.total_uncompressed_size,
        }
    }
}

/// The models of a sequence of column chunks.
pub open spec fn column_models(cols: Seq<ColumnMetadata>) -> Seq<ColumnModel> {
    cols.map_values(|c: ColumnMetadata| c@)
}

/// Metadata for a row group
#[derive(Debug)]
pub struct RowGroupMetadata {
    /// Column chunks in this row group
    pub columns: Vec<ColumnMetadata>,
    /// Total number of rows
    pub num_rows: i64,
    /// Total byte size of the row group
    pub total_byte_size: i64,
}

/// What a row group's metadata says.
pub struct RowGroupModel {
    pub columns: Seq<ColumnModel>,
    pub num_rows: i64,
    pub total_byte_size: i64,
}

impl View for RowGroupMetadata {
    type V = RowGroupModel;

    open spec fn view(&self) -> RowGroupModel {
        RowGroupModel {
            columns: column_models(self.columns@),
            num_rows: self.num_rows,
            total_byte_size: self.total_byte_size,
        }
    }
}

impl Clone for RowGroupMetadata {
    fn clone(&self) -> (r: Self)
        ensures
            r@ == self@,
    {
        let columns = self.columns.clone();
        assert(column_models(columns@) =~= column_models(self.columns@));
        RowGroupMetadata { columns, num_rows: self.num_rows, total_byte_size: self.total_byte_size }
    }
}

/// The models of a sequence of row groups.
pub open spec fn row_group_models(rgs: Seq<RowGroupMetadata>) -> Seq<RowGroupModel> {
    rgs.map_values(|g: RowGroupMetadata| g@)
}

/// The character sequences of a sequence of strings.
pub open spec fn string_models(names: Seq<String>) -> Seq<Seq<char>> {
    names.map_values(|s: String| s@)
}

/// Top-level file metadata
#[derive(Debug)]
pub struct ParquetMetadata {
    /// Parquet format version
    pub version: i32,
    /// Total number of rows across all row groups
    pub num_rows: i64,
    /// Number of columns
    pub num_columns: usize,
    /// Schema element names
    pub schema_names: Vec<String>,
    /// Row groups
    pub row_groups: Vec<RowGroupMetadata>,
    /// Flattened column metadata (first row group, for convenience)
    pub columns: Vec<ColumnMetadata>,
    /// Created by string
    pub created_by: Option<String>,
}

/// What a file's metadata says.
pub struct MetadataModel {
    pub version: i32,
    pub num_rows: i64,
    pub num_columns: usize,
    pub schema_names: Seq<Seq<char>>,
    pub row_groups: Seq<RowGroupModel>,
    pub columns: Seq<ColumnModel>,
    pub created_by: Option<Seq<char>>,
}

impl View for ParquetMetadata {
    type V = MetadataModel;

    open spec fn view(&self) -> MetadataModel {
        MetadataModel {
            version: self.version,
            num_rows: self.num_rows,
            num_columns: self.num_columns,
            schema_names: string_models(self.schema_names@),
            row_groups: row_group_models(self.row_groups@),
            columns: column_models(self.columns@),
            created_by: match self.created_by {
                Some(s) => Some(s@),
                None => None,
            },
        }
    }
}

impl Clone for ParquetMetadata {
    fn clone(&self) -> (r: Self)
        ensures
            r@ == self@,
    {
        let schema_names = self.schema_names.clone();
        assert(string_models(schema_names@) =~= string_models(self.schema_names@));
        let row_groups = self.row_groups.clone();
        assert(row_group_models(row_groups@) =~= row_group_models(self.row_groups@));
        let columns = self.columns.clone();
        assert(column_models(columns@) =~= column_models(self.columns@));
        let created_by = match &self.created_by {
            Some(s) => Some(s.clone()),
            None => None,
        };
        ParquetMetadata {
            version: self.version,
            num_rows: self.num_rows,
            num_columns: self.num_columns,
            schema_names,
            row_groups,
            columns,
            created_by,
        }
    }
}

} // verus!
