//! What decoded columns become as Apache Arrow arrays.
//!
//! The conversion is stated on plain values: the kind of Arrow array a column
//! becomes and the values it holds. Building the Arrow arrays and record
//! batches from them is left to the caller; floats stay bit patterns here.

use vstd::prelude::*;
use vstd::utf8::{valid_utf8, decode_utf8};
use crate::types::{ParquetType, ParquetError};
use crate::decode::{ColumnData, ColumnDataModel, ColumnValues, column_data_of};

verus! {

/// The Arrow data types that Parquet physical types map to.
#[derive(Debug, Clone, Copy, PartialEq, Eq, Structural)]
pub enum ArrowType {
    Boolean,
    Int32,
    Int64,
    Float32,
    Float64,
    Utf8,
    FixedSizeBinary(i32),
}

/// The values of an Arrow array, by kind; floats as their bit patterns.
#[derive(Debug)]
pub enum ArrowValues {
    Boolean(Vec<bool>),
    Int32(Vec<i32>),
    Int64(Vec<i64>),
    Float32(Vec<u32>),
    Float64(Vec<u64>),
    Utf8(Vec<String>),
}

/// What an Arrow array holds.
pub enum ArrowValuesModel {
    Boolean(Seq<bool>),
    Int32(Seq<i32>),
    Int64(Seq<i64>),
    Float32(Seq<u32>),
    Float64(Seq<u64>),
    Utf8(Seq<Seq<char>>),
}

/// The texts of a sequence of strings.
pub open spec fn text_models(v: Seq<String>) -> Seq<Seq<char>> {
    v.map_values(|s: String| s@)
}

impl View for ArrowValues {
    type V = ArrowValuesModel;

    open spec fn view(&self) -> ArrowValuesModel {
        match self {
            ArrowValues::Boolean(v) => ArrowValuesModel::Boolean(v@),
            ArrowValues::Int32(v) => ArrowValuesModel::Int32(v@),
            ArrowValues::Int64(v) => ArrowValuesModel::Int64(v@),
            ArrowValues::Float32(v) => ArrowValuesModel::Float32(v@),
            ArrowValues::Float64(v) => ArrowValuesModel::Float64(v@),
            ArrowValues::Utf8(v) => ArrowValuesModel::Utf8(text_models(v@)),
        }
    }
}

/// The text of a byte array: its UTF-8 decoding, or empty when it is not
/// valid UTF-8.
pub open spec fn text_or_empty(b: Seq<u8>) -> Seq<char> {
    if valid_utf8(b) {
        decode_utf8(b)
    } else {
        Seq::empty()
    }
}

/// The booleans of a boolean column: a byte that is not zero is true.
pub open spec fn bools_of(s: Seq<u8>) -> Seq<bool> {
    s.map_values(|v: u8| v != 0)
}

/// The texts of a byte array column.
pub open spec fn texts_of(s: Seq<Seq<u8>>) -> Seq<Seq<char>> {
    s.map_values(|b: Seq<u8>| text_or_empty(b))
}

/// The Arrow values of a column: booleans are the bytes that are not zero,
/// byte arrays their text, and the other kinds their values unchanged.
pub open spec fn arrow_values_of(c: ColumnDataModel) -> ArrowValuesModel {
    match c {
        ColumnDataModel::Boolean(s) => ArrowValuesModel::Boolean(bools_of(s)),
        ColumnDataModel::Int32(s) => ArrowValuesModel::Int32(s),
        ColumnDataModel::Int64(s) => ArrowValuesModel::Int64(s),
        ColumnDataModel::Float(s) => ArrowValuesModel::Float32(s),
        ColumnDataModel::Double(s) => ArrowValuesModel::Float64(s),
        ColumnDataModel::ByteArray(s) => ArrowValuesModel::Utf8(texts_of(s)),
    }
}

/// The Arrow data type of a physical type: Int96 timestamps are 64-bit
/// integers, byte arrays text.
pub open spec fn arrow_type_of(t: ParquetType) -> ArrowType {
    match t {
        ParquetType::Boolean => ArrowType::Boolean,
        ParquetType::Int32 => ArrowType::Int32,
        ParquetType::Int64 => ArrowType::Int64,
        ParquetType::Int96 => ArrowType::Int64,
        ParquetType::Float => ArrowType::Float32,
        ParquetType::Double => ArrowType::Float64,
        ParquetType::ByteArray => ArrowType::Utf8,
        ParquetType::FixedLenByteArray(len) => ArrowType::FixedSizeBinary(len),
    }
}

/// The Arrow type of an array's values.
pub open spec fn arrow_values_type(v: ArrowValuesModel) -> ArrowType {
    match v {
        ArrowValuesModel::Boolean(_) => ArrowType::Boolean,
        ArrowValuesModel::Int32(_) => ArrowType::Int32,
        ArrowValuesModel::Int64(_) => ArrowType::Int64,
        ArrowValuesModel::Float32(_) => ArrowType::Float32,
        ArrowValuesModel::Float64(_) => ArrowType::Float64,
        ArrowValuesModel::Utf8(_) => ArrowType::Utf8,
    }
}

/// The Arrow type of a physical type is that of the values a column of that
/// type converts to: FLOAT columns give 32-bit floats, DOUBLE 64-bit floats,
/// INT96 64-bit integers and byte arrays text. Fixed length byte arrays are
/// the exception: their type is a fixed-size binary of their length, while
/// their values convert to text.
pub proof fn lemma_arrow_type_matches_values(v: ColumnValues, t: ParquetType)
    ensures
        !(t is FixedLenByteArray) ==> arrow_type_of(t) == arrow_values_type(arrow_values_of(column_data_of(v, t))),
        t matches ParquetType::FixedLenByteArray(w) ==> arrow_type_of(t) == ArrowType::FixedSizeBinary(w)
            && arrow_values_type(arrow_values_of(column_data_of(v, t))) == ArrowType::Utf8,
        arrow_type_of(ParquetType::Boolean) == ArrowType::Boolean,
        arrow_type_of(ParquetType::Int32) == ArrowType::Int32,
        arrow_type_of(ParquetType::Int64) == ArrowType::Int64,
        arrow_type_of(ParquetType::Int96) == ArrowType::Int64,
        arrow_type_of(ParquetType::Float) == ArrowType::Float32,
        arrow_type_of(ParquetType::Double) == ArrowType::Float64,
        arrow_type_of(ParquetType::ByteArray) == ArrowType::Utf8,
{
}

/// Converting a column keeps its number of values, and keeps each value of an
/// integer or floating-point column as it is.
pub proof fn lemma_arrow_values_keep_columns(c: ColumnDataModel)
    ensures
        c matches ColumnDataModel::Boolean(s) ==> (arrow_values_of(c) matches ArrowValuesModel::Boolean(b) && b.len()
            == s.len() && forall|i: int| 0 <= i < s.len() ==> #[trigger] b[i] == (s[i] != 0)),
        c matches ColumnDataModel::Int32(s) ==> arrow_values_of(c) == ArrowValuesModel::Int32(s),
        c matches ColumnDataModel::Int64(s) ==> arrow_values_of(c) == ArrowValuesModel::Int64(s),
        c matches ColumnDataModel::Float(s) ==> arrow_values_of(c) == ArrowValuesModel::Float32(s),
        c matches ColumnDataModel::Double(s) ==> arrow_values_of(c) == ArrowValuesModel::Float64(s),
        c matches ColumnDataModel::ByteArray(s) ==> (arrow_values_of(c) matches ArrowValuesModel::Utf8(t) && t.len()
            == s.len() && forall|i: int| 0 <= i < s.len() ==> #[trigger] t[i] == text_or_empty(s[i])),
{
}

/// `std::str::from_utf8`: the bytes as text when they are valid UTF-8.
/// Claimed, as its documentation says: it fails exactly on bytes that are not
/// valid UTF-8, and otherwise gives the text those bytes encode.
#[verifier::external_body]
fn utf8_text<'a>(bytes: &'a [u8]) -> (r: Option<&'a str>)
    ensures
        match r {
            Some(s) => valid_utf8(bytes@) && s@ == decode_utf8(bytes@),
            None => !valid_utf8(bytes@),
        },
{
    std::str::from_utf8(bytes).ok()
}

/// Converts parquet-lite column data to the values of Apache Arrow arrays.
pub struct ArrowConverter;

impl ArrowConverter {
    /// Convert a column's values to those of an Arrow array.
    pub fn column_to_arrow(col_data: &ColumnData, _physical_type: ParquetType) -> (r: Result<ArrowValues, ParquetError>)
        ensures
            r matches Ok(v) && v@ == arrow_values_of(col_data@),
    {
        match col_data {
            ColumnData::Boolean(vals) => {
                let mut bools: Vec<bool> = Vec::new();
                let mut i: usize = 0;
                while i < vals.len()
                    invariant
                        i <= vals@.len(),
                        bools@ =~= bools_of(vals@).subrange(0, i as int),
                    decreases vals@.len() - i,
                {
                    bools.push(vals[i] != 0);
                    i = i + 1;
                }
                assert(bools@ =~= bools_of(vals@));
                Ok(ArrowValues::Boolean(bools))
            },
            ColumnData::Int32(vals) => Ok(ArrowValues::Int32(vstd::slice::slice_to_vec(vals.as_slice()))),
            ColumnData::Int64(vals) => Ok(ArrowValues::Int64(vstd::slice::slice_to_vec(vals.as_slice()))),
            ColumnData::Float(vals) => Ok(ArrowValues::Float32(vstd::slice::slice_to_vec(vals.as_slice()))),
            ColumnData::Double(vals) => Ok(ArrowValues::Float64(vstd::slice::slice_to_vec(vals.as_slice()))),
            ColumnData::ByteArray(vals) => {
                let ghost bytes = col_data@->ByteArray_0;
                let mut strings: Vec<String> = Vec::new();
                let mut i: usize = 0;
                while i < vals.len()
                    invariant
                        i <= vals@.len(),
                        bytes == vals@.map_values(|b: Vec<u8>| b@),
                        text_models(strings@) =~= texts_of(bytes).subrange(0, i as int),
                    decreases vals@.len() - i,
                {
                    let text = match utf8_text(vals[i].as_slice()) {
                        Some(s) => String::from_str(s),
                        None => String::new(),
                    };
                    let ghost before = text_models(strings@);
                    let ghost t = text@;
                    strings.push(text);
                    assert(text_models(strings@) =~= before.push(t));
                    i = i + 1;
                }
                assert(text_models(strings@) =~= texts_of(bytes));
                Ok(ArrowValues::Utf8(strings))
            },
        }
    }

    /// Get the Arrow data type corresponding to a Parquet physical type.
    pub fn arrow_data_type(physical_type: ParquetType) -> (r: ArrowType)
        ensures
            r == arrow_type_of(physical_type),
    {
        match physical_type {
            ParquetType::Boolean => ArrowType::Boolean,
            ParquetType::Int32 => ArrowType::Int32,
            ParquetType::Int64 => ArrowType::Int64,
            ParquetType::Int96 => ArrowType::Int64,
            ParquetType::Float => ArrowType::Float32,
            ParquetType::Double => ArrowType::Float64,
            ParquetType::ByteArray => ArrowType::Utf8,
            ParquetType::FixedLenByteArray(len) => ArrowType::FixedSizeBinary(len),
        }
    }
}

} // verus!
