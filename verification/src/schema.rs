//! Column schemas and a fluent builder for them.

use vstd::prelude::*;
use crate::types::{ParquetType, Encoding, Compression};

verus! {

/// Timestamp precision units
#[derive(Debug, Clone, Copy, PartialEq, Eq, Structural)]
pub enum TimestampUnit {
    Millis,
    Micros,
    Nanos,
}

/// Logical type annotations that give semantic meaning to physical types
#[derive(Debug, Clone, Copy, PartialEq, Eq, Structural)]
pub enum LogicalType {
    String,
    Integer,
    Float,
    Boolean,
    Timestamp(TimestampUnit),
    Date,
    Decimal { precision: u8, scale: u8 },
}

/// Schema definition for a single column
#[derive(Debug, Clone)]
pub struct ColumnSchema {
    pub name: String,
    pub physical_type: ParquetType,
    pub logical_type: LogicalType,
    pub encoding: Encoding,
    pub compression: Compression,
    pub required: bool,
}

/// What a column schema says.
pub struct ColumnSchemaModel {
    pub name: Seq<char>,
    pub physical_type: ParquetType,
    pub logical_type: LogicalType,
    pub encoding: Encoding,
    pub compression: Compression,
    pub required: bool,
}

impl View for ColumnSchema {
    type V = ColumnSchemaModel;

    open spec fn view(&self) -> ColumnSchemaModel {
        ColumnSchemaModel {
            name: self.name@,
            physical_type: self.physical_type,
            logical_type: self.logical_type,
            encoding: self.encoding,
            compression: self.compression,
            required: self.required,
        }
    }
}

/// The models of a sequence of column schemas.
pub open spec fn schema_models(cols: Seq<ColumnSchema>) -> Seq<ColumnSchemaModel> {
    cols.map_values(|c: ColumnSchema| c@)
}

/// A newly added column: plain encoding, no compression.
pub open spec fn new_column(name: Seq<char>, physical_type: ParquetType, logical_type: LogicalType, required: bool)
    -> ColumnSchemaModel {
    ColumnSchemaModel {
        name,
        physical_type,
        logical_type,
        encoding: Encoding::Plain,
        compression: Compression::Uncompressed,
        required,
    }
}

/// The columns with the last one's compression set; no change when there is none.
pub open spec fn compress_last(cols: Seq<ColumnSchemaModel>, c: Compression) -> Seq<ColumnSchemaModel> {
    if cols.len() == 0 {
        cols
    } else {
        cols.update(cols.len() - 1, ColumnSchemaModel { compression: c, ..cols.last() })
    }
}

/// The columns with the last one's encoding set; no change when there is none.
pub open spec fn encode_last(cols: Seq<ColumnSchemaModel>, e: Encoding) -> Seq<ColumnSchemaModel> {
    if cols.len() == 0 {
        cols
    } else {
        cols.update(cols.len() - 1, ColumnSchemaModel { encoding: e, ..cols.last() })
    }
}

/// The logical type inferred from a physical type.
pub open spec fn default_logical_type(t: ParquetType) -> LogicalType {
    match t {
        ParquetType::Boolean => LogicalType::Boolean,
        ParquetType::Int32 => LogicalType::Integer,
        ParquetType::Int64 => LogicalType::Integer,
        ParquetType::Float => LogicalType::Float,
        ParquetType::Double => LogicalType::Float,
        ParquetType::ByteArray => LogicalType::String,
        ParquetType::FixedLenByteArray(_) => LogicalType::String,
        ParquetType::Int96 => LogicalType::Timestamp(TimestampUnit::Nanos),
    }
}

/// Fluent builder for constructing column schemas
pub struct SchemaBuilder {
    columns: Vec<ColumnSchema>,
}

impl View for SchemaBuilder {
    type V = Seq<ColumnSchemaModel>;

    closed spec fn view(&self) -> Seq<ColumnSchemaModel> {
        schema_models(self.columns@)
    }
}

impl SchemaBuilder {
    /// A builder with no columns.
    pub fn new() -> (r: Self)
        ensures
            r@ == Seq::<ColumnSchemaModel>::empty(),
    {
        let r = SchemaBuilder { columns: Vec::new() };
        assert(r@ =~= Seq::<ColumnSchemaModel>::empty());
        r
    }

    /// Add a required column with specified types
    pub fn add_column(self, name: &str, physical_type: ParquetType, logical_type: LogicalType) -> (r: Self)
        ensures
            r@ == self@.push(new_column(name@, physical_type, logical_type, true)),
    {
        let mut this = self;
        let ghost before = this.columns@;
        this.columns.push(
            ColumnSchema {
                name: String::from_str(name),
                physical_type,
                logical_type,
                encoding: Encoding::Plain,
                compression: Compression::Uncompressed,
                required: true,
            },
        );
        assert(schema_models(this.columns@) =~= schema_models(before).push(
            new_column(name@, physical_type, logical_type, true),
        ));
        this
    }

    /// Add an optional (nullable) column
    pub fn add_optional_column(self, name: &str, physical_type: ParquetType, logical_type: LogicalType) -> (r: Self)
        ensures
            r@ == self@.push(new_column(name@, physical_type, logical_type, false)),
    {
        let mut this = self;
        let ghost before = this.columns@;
        this.columns.push(
            ColumnSchema {
                name: String::from_str(name),
                physical_type,
                logical_type,
                encoding: Encoding::Plain,
                compression: Compression::Uncompressed,
                required: false,
            },
        );
        assert(schema_models(this.columns@) =~= schema_models(before).push(
            new_column(name@, physical_type, logical_type, false),
        ));
        this
    }

    /// Set compression on the most recently added column
    pub fn with_compression(self, compression: Compression) -> (r: Self)
        ensures
            r@ == compress_last(self@, compression),
    {
        let mut this = self;
        let ghost before = schema_models(this.columns@);
        match this.columns.pop() {
            Some(col) => {
                let mut col = col;
                col.compression = compression;
                this.columns.push(col);
                assert(schema_models(this.columns@) =~= compress_last(before, compression));
            },
            None => {},
        }
        this
    }

    /// Set encoding on the most recently added column
    pub fn with_encoding(self, encoding: Encoding) -> (r: Self)
        ensures
            r@ == encode_last(self@, encoding),
    {
        let mut this = self;
        let ghost before = schema_models(this.columns@);
        match this.columns.pop() {
            Some(col) => {
                let mut col = col;
                col.encoding = encoding;
                this.columns.push(col);
                assert(schema_models(this.columns@) =~= encode_last(before, encoding));
            },
            None => {},
        }
        this
    }

    /// Consume the builder and return the column schemas
    pub fn build(self) -> (r: Vec<ColumnSchema>)
        ensures
            schema_models(r@) == self@,
            r@.len() == self@.len(),
            forall|i: int| #![trigger r@[i]] 0 <= i < r@.len() ==> r@[i]@ == self@[i],
    {
        self.columns
    }
}

impl Default for SchemaBuilder {
    fn default() -> (r: Self)
        ensures
            r@ == Seq::<ColumnSchemaModel>::empty(),
    {
        Self::new()
    }
}

impl ColumnSchema {
    /// Create a column schema with sensible defaults inferred from the physical type
    pub fn default_for_type(name: &str, parquet_type: ParquetType) -> (r: Self)
        ensures
            r@ == new_column(name@, parquet_type, default_logical_type(parquet_type), true),
    {
        let logical_type = match parquet_type {
            ParquetType::Boolean => LogicalType::Boolean,
            ParquetType::Int32 => LogicalType::Integer,
            ParquetType::Int64 => LogicalType::Integer,
            ParquetType::Float => LogicalType::Float,
            ParquetType::Double => LogicalType::Float,
            ParquetType::ByteArray => LogicalType::String,
            ParquetType::FixedLenByteArray(_) => LogicalType::String,
            ParquetType::Int96 => LogicalType::Timestamp(TimestampUnit::Nanos),
        };
        ColumnSchema {
            name: String::from_str(name),
            physical_type: parquet_type,
            logical_type,
            encoding: Encoding::Plain,
            compression: Compression::Uncompressed,
            required: true,
        }
    }
}

} // verus!
