//! Plain-encoded values and the accumulator that gathers them across pages.
//!
//! Values are read little-endian. Floating-point values are kept as their
//! IEEE 754 bit patterns (`f32::to_bits` / `f64::to_bits`). A value whose bytes
//! run past the page is dropped, and so are the values after it.

use vstd::prelude::*;
use crate::types::{ParquetType, ParquetError};

verus! {

/// The little-endian unsigned value of `n` bytes at `off`.
pub open spec fn le_value(d: Seq<u8>, off: int, n: nat) -> nat
    decreases n,
{
    if n == 0 {
        0
    } else {
        d[off] as nat + 256 * le_value(d, off + 1, (n - 1) as nat)
    }
}

/// The little-endian u32 at `off`.
pub open spec fn le_u32_at(d: Seq<u8>, off: int) -> u32 {
    le_value(d, off, 4) as u32
}

/// The little-endian u64 at `off`.
pub open spec fn le_u64_at(d: Seq<u8>, off: int) -> u64 {
    le_value(d, off, 8) as u64
}

/// The smaller of two counts.
pub open spec fn min_count(a: nat, b: nat) -> nat {
    if a < b { a } else { b }
}

/// Bit `k` of a byte.
pub open spec fn bit_of(b: u8, k: usize) -> u8 {
    (b >> k) & 1
}

/// Up to `n` booleans, bit-packed least significant bit first.
pub open spec fn plain_bools(d: Seq<u8>, n: nat) -> Seq<u8> {
    Seq::new(min_count(n, 8 * d.len()), |i: int| bit_of(d[i / 8], (i % 8) as usize))
}

/// Up to `n` 32-bit integers.
pub open spec fn plain_i32s(d: Seq<u8>, n: nat) -> Seq<i32> {
    Seq::new(min_count(n, d.len() / 4), |i: int| le_u32_at(d, 4 * i) as i32)
}

/// Up to `n` 64-bit integers.
pub open spec fn plain_i64s(d: Seq<u8>, n: nat) -> Seq<i64> {
    Seq::new(min_count(n, d.len() / 8), |i: int| le_u64_at(d, 8 * i) as i64)
}

/// Up to `n` 96-bit values, each read as the 64-bit integer of its first eight bytes.
pub open spec fn plain_int96s(d: Seq<u8>, n: nat) -> Seq<i64> {
    Seq::new(min_count(n, d.len() / 12), |i: int| le_u64_at(d, 12 * i) as i64)
}

/// Up to `n` 32-bit floats, as bit patterns.
pub open spec fn plain_f32_bits(d: Seq<u8>, n: nat) -> Seq<u32> {
    Seq::new(min_count(n, d.len() / 4), |i: int| le_u32_at(d, 4 * i))
}

/// Up to `n` 64-bit floats, as bit patterns.
pub open spec fn plain_f64_bits(d: Seq<u8>, n: nat) -> Seq<u64> {
    Seq::new(min_count(n, d.len() / 8), |i: int| le_u64_at(d, 8 * i))
}

/// Up to `n` byte arrays from `pos` on, each a u32 length and that many bytes;
/// it stops at the first one that does not fit.
pub open spec fn plain_byte_arrays(d: Seq<u8>, pos: int, n: nat) -> Seq<Seq<u8>>
    decreases n,
{
    if n == 0 || pos + 4 > d.len() {
        Seq::empty()
    } else {
        let len = le_u32_at(d, pos) as int;
        if pos + 4 + len > d.len() {
            Seq::empty()
        } else {
            seq![d.subrange(pos + 4, pos + 4 + len)] + plain_byte_arrays(d, pos + 4 + len, (n - 1) as nat)
        }
    }
}

/// Up to `n` byte arrays of `width` bytes each.
pub open spec fn fixed_len_arrays(d: Seq<u8>, width: usize, n: nat) -> Seq<Seq<u8>> {
    if width == 0 {
        Seq::new(n, |i: int| Seq::<u8>::empty())
    } else {
        Seq::new(min_count(n, d.len() / (width as nat)), |i: int| d.subrange(i * width, i * width + width))
    }
}

/// The byte contents of a sequence of byte vectors.
pub open spec fn byte_vec_models(v: Seq<Vec<u8>>) -> Seq<Seq<u8>> {
    v.map_values(|b: Vec<u8>| b@)
}

/// The `i`-th of `n / w` items of width `w` lies within `n`.
proof fn lemma_item_in_bounds(i: int, n: int, w: int)
    requires
        0 <= i < n / w,
        w > 0,
        n >= 0,
    ensures
        i * w + w <= n,
        0 <= i * w,
{
    assert(i * w + w <= n) by (nonlinear_arith)
        requires
            0 <= i < n / w,
            w > 0,
            n >= 0,
    ;
    assert(0 <= i * w) by (nonlinear_arith)
        requires
            0 <= i,
            w > 0,
    ;
}

/// The little-endian u32 at `off`.
fn le_u32(data: &[u8], off: usize) -> (r: u32)
    requires
        off + 4 <= data@.len(),
    ensures
        r == le_u32_at(data@, off as int),
{
    let r = data[off] as u32 + data[off + 1] as u32 * 256 + data[off + 2] as u32 * 65536
        + data[off + 3] as u32 * 16777216;
    proof {
        reveal_with_fuel(le_value, 5);
    }
    r
}

/// The little-endian u64 at `off`.
fn le_u64(data: &[u8], off: usize) -> (r: u64)
    requires
        off + 8 <= data@.len(),
    ensures
        r == le_u64_at(data@, off as int),
{
    let r = data[off] as u64 + data[off + 1] as u64 * 256 + data[off + 2] as u64 * 65536
        + data[off + 3] as u64 * 16777216 + data[off + 4] as u64 * 4294967296
        + data[off + 5] as u64 * 1099511627776 + data[off + 6] as u64 * 281474976710656
        + data[off + 7] as u64 * 72057594037927936;
    proof {
        reveal_with_fuel(le_value, 9);
    }
    r
}

/// Decode up to `num_values` plain i32 values.
pub fn decode_plain_i32(data: &[u8], num_values: usize) -> (values: Vec<i32>)
    ensures
        values@ == plain_i32s(data@, num_values as nat),
{
    let count = if num_values < data.len() / 4 { num_values } else { data.len() / 4 };
    let mut values = Vec::new();
    let dlen = data.len();
    let mut i: usize = 0;
    while i < count
        invariant
            dlen == data@.len(),
            count == min_count(num_values as nat, data@.len() / 4),
            i <= count,
            values@ =~= plain_i32s(data@, num_values as nat).subrange(0, i as int),
        decreases count - i,
    {
        values.push(#[verifier::truncate] (le_u32(data, i * 4) as i32));
        i = i + 1;
    }
    values
}

/// Decode up to `num_values` plain i64 values.
pub fn decode_plain_i64(data: &[u8], num_values: usize) -> (values: Vec<i64>)
    ensures
        values@ == plain_i64s(data@, num_values as nat),
{
    let count = if num_values < data.len() / 8 { num_values } else { data.len() / 8 };
    let mut values = Vec::new();
    let dlen = data.len();
    let mut i: usize = 0;
    while i < count
        invariant
            dlen == data@.len(),
            count == min_count(num_values as nat, data@.len() / 8),
            i <= count,
            values@ =~= plain_i64s(data@, num_values as nat).subrange(0, i as int),
        decreases count - i,
    {
        proof {
            lemma_item_in_bounds(i as int, data@.len() as int, 8);
        }
        values.push(#[verifier::truncate] (le_u64(data, i * 8) as i64));
        i = i + 1;
    }
    values
}

/// Decode up to `num_values` plain f32 values, as bit patterns.
pub fn decode_plain_f32(data: &[u8], num_values: usize) -> (values: Vec<u32>)
    ensures
        values@ == plain_f32_bits(data@, num_values as nat),
{
    let count = if num_values < data.len() / 4 { num_values } else { data.len() / 4 };
    let mut values = Vec::new();
    let dlen = data.len();
    let mut i: usize = 0;
    while i < count
        invariant
            dlen == data@.len(),
            count == min_count(num_values as nat, data@.len() / 4),
            i <= count,
            values@ =~= plain_f32_bits(data@, num_values as nat).subrange(0, i as int),
        decreases count - i,
    {
        proof {
            lemma_item_in_bounds(i as int, data@.len() as int, 4);
        }
        values.push(le_u32(data, i * 4));
        i = i + 1;
    }
    values
}

/// Decode up to `num_values` plain f64 values, as bit patterns.
pub fn decode_plain_f64(data: &[u8], num_values: usize) -> (values: Vec<u64>)
    ensures
        values@ == plain_f64_bits(data@, num_values as nat),
{
    let count = if num_values < data.len() / 8 { num_values } else { data.len() / 8 };
    let mut values = Vec::new();
    let dlen = data.len();
    let mut i: usize = 0;
    while i < count
        invariant
            dlen == data@.len(),
            count == min_count(num_values as nat, data@.len() / 8),
            i <= count,
            values@ =~= plain_f64_bits(data@, num_values as nat).subrange(0, i as int),
        decreases count - i,
    {
        proof {
            lemma_item_in_bounds(i as int, data@.len() as int, 8);
        }
        values.push(le_u64(data, i * 8));
        i = i + 1;
    }
    values
}

/// Decode up to `num_values` plain int96 values as the i64 of their first eight bytes.
pub fn decode_plain_int96(data: &[u8], num_values: usize) -> (values: Vec<i64>)
    ensures
        values@ == plain_int96s(data@, num_values as nat),
{
    let count = if num_values < data.len() / 12 { num_values } else { data.len() / 12 };
    let mut values = Vec::new();
    let dlen = data.len();
    let mut i: usize = 0;
    while i < count
        invariant
            dlen == data@.len(),
            count == min_count(num_values as nat, data@.len() / 12),
            i <= count,
            values@ =~= plain_int96s(data@, num_values as nat).subrange(0, i as int),
        decreases count - i,
    {
        proof {
            lemma_item_in_bounds(i as int, data@.len() as int, 12);
        }
        values.push(#[verifier::truncate] (le_u64(data, i * 12) as i64));
        i = i + 1;
    }
    values
}

/// Decode up to `num_values` bit-packed booleans.
pub fn decode_plain_bool(data: &[u8], num_values: usize) -> (values: Vec<u8>)
    ensures
        values@ == plain_bools(data@, num_values as nat),
{
    let count = if data.len() <= usize::MAX / 8 && num_values > data.len() * 8 {
        data.len() * 8
    } else {
        num_values
    };
    let mut values = Vec::new();
    let dlen = data.len();
    let mut i: usize = 0;
    while i < count
        invariant
            dlen == data@.len(),
            count == min_count(num_values as nat, 8 * data@.len()),
            i <= count,
            values@ =~= plain_bools(data@, num_values as nat).subrange(0, i as int),
        decreases count - i,
    {
        let byte_idx = i / 8;
        let bit_idx = i % 8;
        values.push((data[byte_idx] >> bit_idx) & 1);
        i = i + 1;
    }
    values
}

/// Decode up to `num_values` length-prefixed byte arrays.
pub fn decode_plain_byte_array(data: &[u8], num_values: usize) -> (values: Vec<Vec<u8>>)
    ensures
        byte_vec_models(values@) == plain_byte_arrays(data@, 0, num_values as nat),
{
    let mut values: Vec<Vec<u8>> = Vec::new();
    let mut pos: usize = 0;
    let dlen = data.len();
    let mut i: usize = 0;
    while i < num_values
        invariant_except_break
            dlen == data@.len(),
            i <= num_values,
            pos <= data@.len(),
            byte_vec_models(values@) + plain_byte_arrays(data@, pos as int, (num_values - i) as nat)
                =~= plain_byte_arrays(data@, 0, num_values as nat),
        ensures
            byte_vec_models(values@) =~= plain_byte_arrays(data@, 0, num_values as nat),
        decreases num_values - i,
    {
        if data.len() < 4 || pos > data.len() - 4 {
            assert(plain_byte_arrays(data@, pos as int, (num_values - i) as nat) =~= Seq::<Seq<u8>>::empty());
            break ;
        }
        let len = le_u32(data, pos) as usize;
        if len > data.len() - pos - 4 {
            assert(plain_byte_arrays(data@, pos as int, (num_values - i) as nat) =~= Seq::<Seq<u8>>::empty());
            break ;
        }
        let item = vstd::slice::slice_to_vec(vstd::slice::slice_subrange(data, pos + 4, pos + 4 + len));
        let ghost before = byte_vec_models(values@);
        values.push(item);
        assert(byte_vec_models(values@) =~= before.push(data@.subrange(pos + 4, pos + 4 + len)));
        pos = pos + 4 + len;
        i = i + 1;
    }
    values
}

/// Decode up to `num_values` byte arrays of `width` bytes each.
pub fn decode_fixed_len_byte_array(data: &[u8], width: usize, num_values: usize) -> (values: Vec<Vec<u8>>)
    ensures
        byte_vec_models(values@) == fixed_len_arrays(data@, width, num_values as nat),
{
    let count = if width == 0 || num_values < data.len() / width { num_values } else { data.len() / width };
    let mut values: Vec<Vec<u8>> = Vec::new();
    let dlen = data.len();
    let mut i: usize = 0;
    while i < count
        invariant
            dlen == data@.len(),
            width == 0 ==> count == num_values,
            width > 0 ==> count == min_count(num_values as nat, data@.len() / (width as nat)),
            i <= count,
            byte_vec_models(values@) =~= fixed_len_arrays(data@, width, num_values as nat).subrange(0, i as int),
        decreases count - i,
    {
        let ghost before = byte_vec_models(values@);
        if width == 0 {
            values.push(Vec::new());
            assert(fixed_len_arrays(data@, width, num_values as nat)[i as int] == Seq::<u8>::empty());
        } else {
            proof {
                lemma_item_in_bounds(i as int, data@.len() as int, width as int);
            }
            let start = i * width;
            values.push(vstd::slice::slice_to_vec(vstd::slice::slice_subrange(data, start, start + width)));
            assert(fixed_len_arrays(data@, width, num_values as nat)[i as int] == data@.subrange(
                start as int,
                start + width,
            ));
        }
        assert(byte_vec_models(values@) =~= before.push(fixed_len_arrays(data@, width, num_values as nat)[i as int]));
        assert(byte_vec_models(values@) =~= fixed_len_arrays(data@, width, num_values as nat).subrange(0, i + 1));
        i = i + 1;
    }
    values
}

/// The values gathered from the pages of a column so far, one sequence per
/// kind of value.
pub struct ColumnValues {
    pub booleans: Seq<u8>,
    pub int32s: Seq<i32>,
    pub int64s: Seq<i64>,
    pub floats: Seq<u32>,
    pub doubles: Seq<u64>,
    pub byte_arrays: Seq<Seq<u8>>,
}

/// No values yet.
pub open spec fn no_values() -> ColumnValues {
    ColumnValues {
        booleans: Seq::empty(),
        int32s: Seq::empty(),
        int64s: Seq::empty(),
        floats: Seq::empty(),
        doubles: Seq::empty(),
        byte_arrays: Seq::empty(),
    }
}

/// The values after a page of `n` plain values of type `t` is decoded.
pub open spec fn append_decoded(acc: ColumnValues, d: Seq<u8>, t: ParquetType, n: nat) -> ColumnValues {
    match t {
        ParquetType::Boolean => ColumnValues { booleans: acc.booleans + plain_bools(d, n), ..acc },
        ParquetType::Int32 => ColumnValues { int32s: acc.int32s + plain_i32s(d, n), ..acc },
        ParquetType::Int64 => ColumnValues { int64s: acc.int64s + plain_i64s(d, n), ..acc },
        ParquetType::Int96 => ColumnValues { int64s: acc.int64s + plain_int96s(d, n), ..acc },
        ParquetType::Float => ColumnValues { floats: acc.floats + plain_f32_bits(d, n), ..acc },
        ParquetType::Double => ColumnValues { doubles: acc.doubles + plain_f64_bits(d, n), ..acc },
        ParquetType::ByteArray => ColumnValues { byte_arrays: acc.byte_arrays + plain_byte_arrays(d, 0, n), ..acc },
        ParquetType::FixedLenByteArray(w) => ColumnValues {
            byte_arrays: acc.byte_arrays + fixed_len_arrays(d, w as usize, n),
            ..acc
        },
    }
}

/// Decoding a page appends, to the values of the page's physical type, the
/// plain values of that type: booleans one bit each, INT32 and FLOAT four
/// little-endian bytes each, INT64 and DOUBLE eight, INT96 twelve (of which the
/// first eight give the value), byte arrays a length and its bytes, and fixed
/// length byte arrays their width; the other kinds of values stay as they were.
pub proof fn lemma_append_decoded_by_type(acc: ColumnValues, d: Seq<u8>, n: nat, w: i32)
    ensures
        append_decoded(acc, d, ParquetType::Boolean, n) == (ColumnValues {
            booleans: acc.booleans + plain_bools(d, n),
            ..acc
        }),
        append_decoded(acc, d, ParquetType::Int32, n) == (ColumnValues { int32s: acc.int32s + plain_i32s(d, n), ..acc }),
        append_decoded(acc, d, ParquetType::Int64, n) == (ColumnValues { int64s: acc.int64s + plain_i64s(d, n), ..acc }),
        append_decoded(acc, d, ParquetType::Int96, n) == (ColumnValues {
            int64s: acc.int64s + plain_int96s(d, n),
            ..acc
        }),
        append_decoded(acc, d, ParquetType::Float, n) == (ColumnValues {
            floats: acc.floats + plain_f32_bits(d, n),
            ..acc
        }),
        append_decoded(acc, d, ParquetType::Double, n) == (ColumnValues {
            doubles: acc.doubles + plain_f64_bits(d, n),
            ..acc
        }),
        append_decoded(acc, d, ParquetType::ByteArray, n) == (ColumnValues {
            byte_arrays: acc.byte_arrays + plain_byte_arrays(d, 0, n),
            ..acc
        }),
        append_decoded(acc, d, ParquetType::FixedLenByteArray(w), n) == (ColumnValues {
            byte_arrays: acc.byte_arrays + fixed_len_arrays(d, w as usize, n),
            ..acc
        }),
{
}

/// Plain values of a fixed width: as many as asked for or as fit whole in the
/// page, whichever is fewer, value `i` being the little-endian number in the
/// bytes from `width * i` on (for INT96, its first eight bytes).
pub proof fn lemma_plain_value_layout(d: Seq<u8>, n: nat)
    ensures
        plain_i32s(d, n).len() == min_count(n, d.len() / 4),
        forall|i: int| 0 <= i < plain_i32s(d, n).len() ==> #[trigger] plain_i32s(d, n)[i] == le_value(d, 4 * i, 4) as u32 as i32,
        plain_f32_bits(d, n).len() == min_count(n, d.len() / 4),
        forall|i: int| 0 <= i < plain_f32_bits(d, n).len() ==> #[trigger] plain_f32_bits(d, n)[i] == le_value(d, 4 * i, 4) as u32,
        plain_i64s(d, n).len() == min_count(n, d.len() / 8),
        forall|i: int| 0 <= i < plain_i64s(d, n).len() ==> #[trigger] plain_i64s(d, n)[i] == le_value(d, 8 * i, 8) as u64 as i64,
        plain_f64_bits(d, n).len() == min_count(n, d.len() / 8),
        forall|i: int| 0 <= i < plain_f64_bits(d, n).len() ==> #[trigger] plain_f64_bits(d, n)[i] == le_value(d, 8 * i, 8) as u64,
        plain_int96s(d, n).len() == min_count(n, d.len() / 12),
        forall|i: int| 0 <= i < plain_int96s(d, n).len() ==> #[trigger] plain_int96s(d, n)[i] == le_value(d, 12 * i, 8) as u64 as i64,
        plain_bools(d, n).len() == min_count(n, 8 * d.len()),
        forall|i: int| 0 <= i < plain_bools(d, n).len() ==> #[trigger] plain_bools(d, n)[i] == (d[i / 8] >> ((i % 8) as usize)) & 1,
{
}

/// The little-endian value of bytes: the first byte is the lowest, each next
/// one counts 256 times more.
pub proof fn lemma_le_value_bytes(d: Seq<u8>, off: int)
    ensures
        le_value(d, off, 1) == d[off] as nat,
        le_value(d, off, 2) == d[off] as nat + 256 * d[off + 1] as nat,
        le_value(d, off, 4) == d[off] as nat + 256 * d[off + 1] as nat + 65536 * d[off + 2] as nat + 16777216
            * d[off + 3] as nat,
{
    reveal_with_fuel(le_value, 5);
}

/// The column data of each physical type: INT96 values are 64-bit integers,
/// fixed length byte arrays byte arrays, and every other type its own kind.
pub proof fn lemma_column_data_kinds(v: ColumnValues, w: i32)
    ensures
        column_data_of(v, ParquetType::Boolean) == ColumnDataModel::Boolean(v.booleans),
        column_data_of(v, ParquetType::Int32) == ColumnDataModel::Int32(v.int32s),
        column_data_of(v, ParquetType::Int64) == ColumnDataModel::Int64(v.int64s),
        column_data_of(v, ParquetType::Int96) == ColumnDataModel::Int64(v.int64s),
        column_data_of(v, ParquetType::Float) == ColumnDataModel::Float(v.floats),
        column_data_of(v, ParquetType::Double) == ColumnDataModel::Double(v.doubles),
        column_data_of(v, ParquetType::ByteArray) == ColumnDataModel::ByteArray(v.byte_arrays),
        column_data_of(v, ParquetType::FixedLenByteArray(w)) == ColumnDataModel::ByteArray(v.byte_arrays),
{
}

/// Decoded column data variants; floats are their IEEE 754 bit patterns.
#[derive(Debug, Clone)]
pub enum ColumnData {
    Boolean(Vec<u8>),
    Int32(Vec<i32>),
    Int64(Vec<i64>),
    Float(Vec<u32>),
    Double(Vec<u64>),
    ByteArray(Vec<Vec<u8>>),
}

/// What decoded column data holds.
pub enum ColumnDataModel {
    Boolean(Seq<u8>),
    Int32(Seq<i32>),
    Int64(Seq<i64>),
    Float(Seq<u32>),
    Double(Seq<u64>),
    ByteArray(Seq<Seq<u8>>),
}

impl View for ColumnData {
    type V = ColumnDataModel;

    open spec fn view(&self) -> ColumnDataModel {
        match self {
            ColumnData::Boolean(v) => ColumnDataModel::Boolean(v@),
            ColumnData::Int32(v) => ColumnDataModel::Int32(v@),
            ColumnData::Int64(v) => ColumnDataModel::Int64(v@),
            ColumnData::Float(v) => ColumnDataModel::Float(v@),
            ColumnData::Double(v) => ColumnDataModel::Double(v@),
            ColumnData::ByteArray(v) => ColumnDataModel::ByteArray(byte_vec_models(v@)),
        }
    }
}

/// The column data of a physical type: its own kind of values (Int96 values are
/// 64-bit integers, fixed-length arrays byte arrays).
pub open spec fn column_data_of(v: ColumnValues, t: ParquetType) -> ColumnDataModel {
    match t {
        ParquetType::Boolean => ColumnDataModel::Boolean(v.booleans),
        ParquetType::Int32 => ColumnDataModel::Int32(v.int32s),
        ParquetType::Int64 | ParquetType::Int96 => ColumnDataModel::Int64(v.int64s),
        ParquetType::Float => ColumnDataModel::Float(v.floats),
        ParquetType::Double => ColumnDataModel::Double(v.doubles),
        ParquetType::ByteArray | ParquetType::FixedLenByteArray(_) => ColumnDataModel::ByteArray(v.byte_arrays),
    }
}

/// Column data accumulator for building up values across pages
pub struct ColumnDataAccumulator {
    booleans: Vec<u8>,
    int32s: Vec<i32>,
    int64s: Vec<i64>,
    floats: Vec<u32>,
    doubles: Vec<u64>,
    byte_arrays: Vec<Vec<u8>>,
    physical_type: ParquetType,
}

impl View for ColumnDataAccumulator {
    type V = ColumnValues;

    closed spec fn view(&self) -> ColumnValues {
        ColumnValues {
            booleans: self.booleans@,
            int32s: self.int32s@,
            int64s: self.int64s@,
            floats: self.floats@,
            doubles: self.doubles@,
            byte_arrays: byte_vec_models(self.byte_arrays@),
        }
    }
}

impl ColumnDataAccumulator {
    /// The physical type of the column.
    pub closed spec fn value_type(&self) -> ParquetType {
        self.physical_type
    }

    /// An empty accumulator for a column of the given type.
    pub fn new(physical_type: ParquetType) -> (r: ColumnDataAccumulator)
        ensures
            r@ == no_values(),
            r.value_type() == physical_type,
    {
        let r = ColumnDataAccumulator {
            booleans: Vec::new(),
            int32s: Vec::new(),
            int64s: Vec::new(),
            floats: Vec::new(),
            doubles: Vec::new(),
            byte_arrays: Vec::new(),
            physical_type,
        };
        assert(byte_vec_models(r.byte_arrays@) =~= Seq::<Seq<u8>>::empty());
        r
    }

    /// Decode `num_values` plain values of `physical_type` from a page and add them.
    pub fn decode_and_append(&mut self, data: &[u8], physical_type: ParquetType, num_values: usize) -> (r: Result<(), ParquetError>)
        ensures
            r is Ok,
            final(self)@ == append_decoded(old(self)@, data@, physical_type, num_values as nat),
            final(self).value_type() == old(self).value_type(),
    {
        match physical_type {
            ParquetType::Boolean => {
                let mut values = decode_plain_bool(data, num_values);
                self.booleans.append(&mut values);
            },
            ParquetType::Int32 => {
                let mut values = decode_plain_i32(data, num_values);
                self.int32s.append(&mut values);
            },
            ParquetType::Int64 => {
                let mut values = decode_plain_i64(data, num_values);
                self.int64s.append(&mut values);
            },
            ParquetType::Int96 => {
                let mut values = decode_plain_int96(data, num_values);
                self.int64s.append(&mut values);
            },
            ParquetType::Float => {
                let mut values = decode_plain_f32(data, num_values);
                self.floats.append(&mut values);
            },
            ParquetType::Double => {
                let mut values = decode_plain_f64(data, num_values);
                self.doubles.append(&mut values);
            },
            ParquetType::ByteArray => {
                let mut values = decode_plain_byte_array(data, num_values);
                let ghost before = self.byte_arrays@;
                let ghost added = values@;
                self.byte_arrays.append(&mut values);
                assert(byte_vec_models(self.byte_arrays@) =~= byte_vec_models(before) + byte_vec_models(added));
            },
            ParquetType::FixedLenByteArray(len) => {
                let mut values = decode_fixed_len_byte_array(data, len as usize, num_values);
                let ghost before = self.byte_arrays@;
                let ghost added = values@;
                self.byte_arrays.append(&mut values);
                assert(byte_vec_models(self.byte_arrays@) =~= byte_vec_models(before) + byte_vec_models(added));
            },
        }
        Ok(())
    }

    /// The gathered values as column data of the column's type.
    pub fn into_column_data(self) -> (r: Result<ColumnData, ParquetError>)
        ensures
            r matches Ok(c) && c@ == column_data_of(self@, self.value_type()),
    {
        match self.physical_type {
            ParquetType::Boolean => Ok(ColumnData::Boolean(self.booleans)),
            ParquetType::Int32 => Ok(ColumnData::Int32(self.int32s)),
            ParquetType::Int64 | ParquetType::Int96 => Ok(ColumnData::Int64(self.int64s)),
            ParquetType::Float => Ok(ColumnData::Float(self.floats)),
            ParquetType::Double => Ok(ColumnData::Double(self.doubles)),
            ParquetType::ByteArray | ParquetType::FixedLenByteArray(_) => Ok(ColumnData::ByteArray(self.byte_arrays)),
        }
    }
}

} // verus!
