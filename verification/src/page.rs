//! Page headers within a column chunk.
//!
//! A page header is a Thrift struct; this module reads the three leading i32
//! fields (page type, uncompressed and compressed size) and scans for the
//! number of values in the data page header that follows. Positions may run
//! past the end of the data while skipping; every read checks them first.

use vstd::prelude::*;
use crate::types::{ParquetError, ErrorModel, PageType, page_type_of_code};
use crate::text::decimal;
use crate::thrift::{zigzag32, varint_too_long, remaining_from, after_with, varint_encoding, zigzag_encode32,
    lemma_varint_encoding_shape};

verus! {

/// The error for a varint that runs past the data.
pub open spec fn varint_past_data() -> ErrorModel {
    ErrorModel::InvalidFile("Varint extends past data"@)
}

/// The error for a page header that ends before its leading fields.
pub open spec fn header_too_short() -> ErrorModel {
    ErrorModel::InvalidFile("Unexpected end of page header"@)
}

/// The length of a 32-bit varint at `pos`, examined from its `k`-th byte: it
/// ends at the first byte whose high bit is clear, within five bytes.
pub open spec fn varint32_length(d: Seq<u8>, pos: int, k: nat) -> Result<nat, ErrorModel>
    decreases 5 - k,
{
    if k >= 5 {
        Err(varint_too_long())
    } else if pos + k >= d.len() {
        Err(varint_past_data())
    } else if d[pos + k] < 0x80 {
        Ok(k + 1)
    } else if k + 1 >= 5 {
        Err(varint_too_long())
    } else {
        varint32_length(d, pos, k + 1)
    }
}

/// The value of the first `n` bytes of a 32-bit varint: the low seven bits of
/// byte `i` at bit `7 * i`, truncated to 32 bits.
pub open spec fn varint32_value(d: Seq<u8>, pos: int, n: nat) -> u32
    decreases n,
{
    if n == 0 {
        0
    } else {
        varint32_value(d, pos, (n - 1) as nat) | (((d[pos + n - 1] & 0x7f) as u32) << ((7 * (n - 1)) as u32))
    }
}

/// Reading an unsigned 32-bit varint at `pos`: the value or error, and the
/// bytes consumed (on an error, those read before it).
pub open spec fn varint32_spec(d: Seq<u8>, pos: int) -> (Result<u32, ErrorModel>, nat) {
    match varint32_length(d, pos, 0) {
        Ok(n) => (Ok(varint32_value(d, pos, n)), n),
        Err(e) => (Err(e), if pos >= d.len() { 0nat } else if d.len() - pos >= 5 { 5nat } else { (d.len() - pos) as nat }),
    }
}

/// Reading a zigzag-encoded 32-bit varint at `pos`: the value or error, and the
/// bytes consumed (on an error, those read before it).
pub open spec fn zigzag_varint_spec(d: Seq<u8>, pos: int) -> (Result<i32, ErrorModel>, nat) {
    let (r, c) = varint32_spec(d, pos);
    match r {
        Ok(v) => (Ok(zigzag32(v)), c),
        Err(e) => (Err(e), c),
    }
}

/// Reading at `pos` the canonical varint encoding of a 32-bit value gives it
/// back, after exactly the encoding's bytes, which are at most five.
pub proof fn lemma_varint32_round_trip(v: u32, d: Seq<u8>, pos: int)
    requires
        0 <= pos,
        pos + varint_encoding(v as u64).len() <= d.len(),
        d.subrange(pos, pos + varint_encoding(v as u64).len()) == varint_encoding(v as u64),
    ensures
        varint_encoding(v as u64).len() <= 5,
        varint32_spec(d, pos) == (Ok::<u32, ErrorModel>(v), varint_encoding(v as u64).len()),
{
    lemma_varint32_encoding_facts(v);
    let e = varint_encoding(v as u64);
    let n = e.len();
    assert forall|i: int| 0 <= i < n implies d[pos + i] == #[trigger] e[i] by {
        assert(d.subrange(pos, pos + n)[i] == d[pos + i]);
    }
    lemma_varint32_length_of_encoding(v, d, pos, 0);
    lemma_varint32_value_of_encoding(v, d, pos, (n - 1) as nat);
    let s = (7 * (n - 1)) as u32;
    let low = varint32_value(d, pos, (n - 1) as nat);
    assert(((d[pos + n - 1] & 0x7f) as u32) == (v >> s) & 0x7f);
    assert(low | (((v >> s) & 0x7f) << s) == v) by (bit_vector)
        requires
            s < 32,
            low == v & (((1u32 << s) - 1) as u32),
            v >> s < 0x80,
    ;
    assert(varint32_value(d, pos, n) == low | (((d[pos + n - 1] & 0x7f) as u32) << s));
}

/// The encoding of a 32-bit value in 32-bit terms: at most five bytes, byte
/// `i` holding bits `7 * i` on, and nothing left above the last byte's group.
proof fn lemma_varint32_encoding_facts(v: u32)
    ensures
        ({
            let e = varint_encoding(v as u64);
            let n = e.len();
            &&& 1 <= n <= 5
            &&& forall|i: int| 0 <= i < n ==> ((#[trigger] e[i] & 0x7f) as u32) == (v >> ((7 * i) as u32)) & 0x7f
            &&& forall|i: int| 0 <= i < n - 1 ==> #[trigger] e[i] >= 0x80
            &&& e[n - 1] < 0x80
            &&& v >> ((7 * (n - 1)) as u32) < 0x80
        }),
{
    let w = v as u64;
    lemma_varint_encoding_shape(w);
    let e = varint_encoding(w);
    let n = e.len();
    let top = (7 * (n - 1)) as u64;
    if n >= 6 {
        assert(w >> top == 0) by (bit_vector)
            requires
                top >= 35,
                w <= 0xffff_ffff,
        ;
    }
    assert forall|i: int| 0 <= i < n implies ((#[trigger] e[i] & 0x7f) as u32) == (v >> ((7 * i) as u32)) & 0x7f by {
        let a = (7 * i) as u64;
        let b = (7 * i) as u32;
        assert(((e[i] & 0x7f) as u64) == (w >> a) & 0x7f);
        assert((((w >> a) & 0x7f) as u32) == (v >> b) & 0x7f) by (bit_vector)
            requires
                w == v as u64,
                a < 32,
                b == a as u32,
        ;
    }
    let b = (7 * (n - 1)) as u32;
    assert(v >> b < 0x80) by (bit_vector)
        requires
            w == v as u64,
            top < 32,
            b == top as u32,
            w >> top < 0x80,
    ;
}

/// The 32-bit varint length of an encoding, examined from its `k`-th byte.
proof fn lemma_varint32_length_of_encoding(v: u32, d: Seq<u8>, pos: int, k: nat)
    requires
        0 <= pos,
        pos + varint_encoding(v as u64).len() <= d.len(),
        k < varint_encoding(v as u64).len(),
        forall|i: int| 0 <= i < varint_encoding(v as u64).len() ==> d[pos + i] == #[trigger] varint_encoding(v as u64)[i],
    ensures
        varint32_length(d, pos, k) == Ok::<nat, ErrorModel>(varint_encoding(v as u64).len()),
    decreases varint_encoding(v as u64).len() - k,
{
    lemma_varint32_encoding_facts(v);
    let e = varint_encoding(v as u64);
    assert(d[pos + k] == e[k as int]);
    if k + 1 < e.len() {
        lemma_varint32_length_of_encoding(v, d, pos, k + 1);
    }
}

/// The 32-bit value of the first `k` bytes of an encoding: the low `7 * k` bits.
proof fn lemma_varint32_value_of_encoding(v: u32, d: Seq<u8>, pos: int, k: nat)
    requires
        0 <= pos,
        pos + varint_encoding(v as u64).len() <= d.len(),
        k < varint_encoding(v as u64).len(),
        forall|i: int| 0 <= i < varint_encoding(v as u64).len() ==> d[pos + i] == #[trigger] varint_encoding(v as u64)[i],
    ensures
        k <= 4,
        varint32_value(d, pos, k) == v & (((1u32 << ((7 * k) as u32)) - 1) as u32),
    decreases k,
{
    lemma_varint32_encoding_facts(v);
    let e = varint_encoding(v as u64);
    if k == 0 {
        assert(v & (((1u32 << 0u32) - 1) as u32) == 0) by (bit_vector);
    } else {
        lemma_varint32_value_of_encoding(v, d, pos, (k - 1) as nat);
        let s = (7 * (k - 1)) as u32;
        let low = varint32_value(d, pos, (k - 1) as nat);
        assert(d[pos + k - 1] == e[k - 1]);
        assert(((d[pos + k - 1] & 0x7f) as u32) == (v >> s) & 0x7f);
        assert(low | (((v >> s) & 0x7f) << s) == v & (((1u32 << ((s + 7) as u32)) - 1) as u32)) by (bit_vector)
            requires
                s + 7 < 32,
                low == v & (((1u32 << s) - 1) as u32),
        ;
    }
}

/// Reading at `pos` the varint of the zigzag encoding of an i32 gives it back.
pub proof fn lemma_zigzag_varint_round_trip(n: i32, d: Seq<u8>, pos: int)
    requires
        0 <= pos,
        pos + varint_encoding(zigzag_encode32(n) as u64).len() <= d.len(),
        d.subrange(pos, pos + varint_encoding(zigzag_encode32(n) as u64).len()) == varint_encoding(
            zigzag_encode32(n) as u64,
        ),
    ensures
        zigzag_varint_spec(d, pos) == (Ok::<i32, ErrorModel>(n), varint_encoding(zigzag_encode32(n) as u64).len()),
{
    let z = zigzag_encode32(n);
    lemma_varint32_round_trip(z, d, pos);
    assert(zigzag32(z) == n);
}

/// How the length of a binary value reads: the data ended after `k` bytes, or
/// the length and the bytes it took, or more than five bytes.
pub enum LengthScan {
    Ended(nat),
    Length(u32, nat),
    Overlong,
}

/// Scanning the varint length of a binary value from its `k`-th byte.
pub open spec fn length_scan(d: Seq<u8>, pos: int, k: nat) -> LengthScan
    decreases 6 - k,
{
    if k > 5 {
        LengthScan::Overlong
    } else if pos + k >= d.len() {
        LengthScan::Ended(k)
    } else if k == 5 {
        LengthScan::Overlong
    } else if d[pos + k] < 0x80 {
        LengthScan::Length(varint32_value(d, pos, k + 1), k + 1)
    } else {
        length_scan(d, pos, k + 1)
    }
}

/// An advance of `n` bytes from `pos`, stopping at `usize::MAX`.
pub open spec fn advance(pos: int, n: int) -> nat {
    if pos + n > usize::MAX {
        (usize::MAX - pos) as nat
    } else {
        n as nat
    }
}

/// A scan result with `k` more bytes consumed before it.
pub open spec fn shifted(r: (Result<(), ErrorModel>, nat), k: nat) -> (Result<(), ErrorModel>, nat) {
    (r.0, r.1 + k)
}

/// Skipping a value of type `ft` in a page header: the outcome and the bytes
/// passed, which may run past the data for doubles and binaries. Booleans take
/// nothing, integers a varint, a binary its length and bytes (stopping quietly
/// at the end of the data), lists and sets a header (whose long-form count is an
/// unsigned varint) and their elements, structs their fields;
/// an unknown type is read as a varint whose error is ignored.
pub open spec fn skip_page_value(d: Seq<u8>, pos: int, ft: u8) -> (Result<(), ErrorModel>, nat)
    decreases remaining_from(d, pos), 2nat, 0nat,
{
    if ft == 1 || ft == 2 {
        (Ok(()), 0)
    } else if 3 <= ft <= 6 {
        let (r, c) = zigzag_varint_spec(d, pos);
        match r {
            Ok(_) => (Ok(()), c),
            Err(e) => (Err(e), c),
        }
    } else if ft == 7 {
        (Ok(()), advance(pos, 8))
    } else if ft == 8 {
        match length_scan(d, pos, 0) {
            LengthScan::Ended(k) => (Ok(()), k),
            LengthScan::Length(len, k) => (Ok(()), advance(pos, k + len)),
            LengthScan::Overlong => (Err(varint_too_long()), 5),
        }
    } else if ft == 9 || ft == 10 {
        if pos >= d.len() {
            (Ok(()), 0)
        } else {
            let b = d[pos];
            let et = (b % 16) as u8;
            if b / 16 == 15 {
                let (r, c) = varint32_spec(d, pos + 1);
                match r {
                    Ok(v) => shifted(skip_page_list(d, pos + 1 + c, et, v as nat), 1 + c),
                    Err(e) => (Err(e), 1 + c),
                }
            } else {
                shifted(skip_page_list(d, pos + 1, et, (b / 16) as nat), 1)
            }
        }
    } else if ft == 12 {
        skip_page_struct(d, pos)
    } else {
        let (_, c) = zigzag_varint_spec(d, pos);
        (Ok(()), c)
    }
}

/// Skipping `count` values of type `et`.
pub open spec fn skip_page_list(d: Seq<u8>, pos: int, et: u8, count: nat) -> (Result<(), ErrorModel>, nat)
    decreases remaining_from(d, pos), 3nat, count,
{
    if count == 0 {
        (Ok(()), 0)
    } else {
        let (r, c) = skip_page_value(d, pos, et);
        match r {
            Ok(_) => shifted(skip_page_list(d, pos + c, et, (count - 1) as nat), c),
            Err(e) => (Err(e), c),
        }
    }
}

/// Skipping the fields of a struct up to its stop byte, or to the end of the data.
pub open spec fn skip_page_struct(d: Seq<u8>, pos: int) -> (Result<(), ErrorModel>, nat)
    decreases remaining_from(d, pos), 1nat, 0nat,
{
    if pos >= d.len() {
        (Ok(()), 0)
    } else {
        let b = d[pos];
        let ft = (b % 16) as u8;
        if b == 0 {
            (Ok(()), 1)
        } else if b / 16 == 0 {
            let (r, c) = zigzag_varint_spec(d, pos + 1);
            match r {
                Ok(_) => {
                    let (r2, c2) = skip_page_value(d, pos + 1 + c, ft);
                    match r2 {
                        Ok(_) => shifted(skip_page_struct(d, pos + 1 + c + c2), 1 + c + c2),
                        Err(e) => (Err(e), 1 + c + c2),
                    }
                },
                Err(e) => (Err(e), 1 + c),
            }
        } else {
            let (r2, c2) = skip_page_value(d, pos + 1, ft);
            match r2 {
                Ok(_) => shifted(skip_page_struct(d, pos + 1 + c2), 1 + c2),
                Err(e) => (Err(e), 1 + c2),
            }
        }
    }
}

/// Skipping the rest of a struct while ignoring what goes wrong: the bytes passed.
pub open spec fn skip_rest_spec(d: Seq<u8>, pos: int) -> nat
    decreases remaining_from(d, pos),
{
    if pos >= d.len() {
        0
    } else {
        let b = d[pos];
        if b == 0 {
            1
        } else {
            let c1 = if b / 16 == 0 && pos + 1 < d.len() { zigzag_varint_spec(d, pos + 1).1 } else { 0nat };
            let c2 = skip_page_value(d, pos + 1 + c1, (b % 16) as u8).1;
            1 + c1 + c2 + skip_rest_spec(d, pos + 1 + c1 + c2)
        }
    }
}

/// One field of a page header at `pos`, whose header byte is not the stop byte,
/// while scanning for the number of values: `Some` value when this field is a
/// struct whose first field is an i32 (the rest of both structs is then
/// skipped), else `None`; with the bytes passed.
#[verifier::opaque]
pub open spec fn num_values_field(d: Seq<u8>, pos: int) -> Result<(Option<i32>, nat), ErrorModel> {
    let b = d[pos];
    let ft = (b % 16) as u8;
    let (r1, c1) = if b / 16 == 0 {
        let (r, c) = zigzag_varint_spec(d, pos + 1);
        match r {
            Ok(_) => (Ok(()), c),
            Err(e) => (Err(e), c),
        }
    } else {
        (Ok(()), 0nat)
    };
    match r1 {
        Err(e) => Err(e),
        Ok(_) => {
            let p2 = pos + 1 + c1;
            if ft == 12 {
                if p2 < d.len() {
                    let p3 = p2 + 1;
                    if d[p2] % 16 == 5 {
                        let (r, c) = zigzag_varint_spec(d, p3);
                        match r {
                            Ok(val) => {
                                let s1 = skip_rest_spec(d, p3 + c);
                                let s2 = skip_rest_spec(d, p3 + c + s1);
                                Ok((Some(val), (2 + c1 + c + s1 + s2) as nat))
                            },
                            Err(e) => Err(e),
                        }
                    } else {
                        Ok((None, (2 + c1 + skip_rest_spec(d, p3)) as nat))
                    }
                } else {
                    Ok((None, (1 + c1) as nat))
                }
            } else {
                let (r, c) = skip_page_value(d, p2, ft);
                match r {
                    Ok(_) => Ok((None, (1 + c1 + c) as nat)),
                    Err(e) => Err(e),
                }
            }
        },
    }
}

/// Scanning a page header from `pos` for the number of values: the first i32 field
/// of the first struct field whose first field is an i32, or zero when none is found
/// before the stop byte or the end of the data.
pub open spec fn num_values_spec(d: Seq<u8>, pos: int) -> Result<(i32, nat), ErrorModel>
    decreases remaining_from(d, pos),
{
    if pos >= d.len() {
        Ok((0, 0))
    } else if d[pos] == 0 {
        Ok((0, 1))
    } else {
        proof {
            reveal(num_values_field);
        }
        match num_values_field(d, pos) {
            Err(e) => Err(e),
            Ok((Some(v), c)) => Ok((v, c)),
            Ok((None, c)) => after_with(num_values_spec(d, pos + c), c),
        }
    }
}

/// Reading one field header byte (and a long-form id) and the zigzag i32 value
/// that follows it.
pub open spec fn field_and_varint_spec(d: Seq<u8>, pos: int) -> Result<(i32, nat), ErrorModel> {
    if pos >= d.len() {
        Err(header_too_short())
    } else if d[pos] / 16 == 0 {
        let (r, c) = zigzag_varint_spec(d, pos + 1);
        match r {
            Ok(_) => {
                let (r2, c2) = zigzag_varint_spec(d, pos + 1 + c);
                match r2 {
                    Ok(v) => Ok((v, 1 + c + c2)),
                    Err(e) => Err(e),
                }
            },
            Err(e) => Err(e),
        }
    } else {
        let (r, c) = zigzag_varint_spec(d, pos + 1);
        match r {
            Ok(v) => Ok((v, 1 + c)),
            Err(e) => Err(e),
        }
    }
}

/// What a page header says.
#[derive(Debug, Clone, Copy, PartialEq, Eq, Structural)]
pub struct PageHeaderInfo {
    pub page_type: PageType,
    pub uncompressed_size: usize,
    pub compressed_size: usize,
    pub num_values: i32,
    pub header_size: usize,
}

/// What a page header says; its size counted in bytes, which a scan that ran past
/// the data may exceed it by.
pub struct PageHeaderModel {
    pub page_type: PageType,
    pub uncompressed_size: usize,
    pub compressed_size: usize,
    pub num_values: i32,
    pub header_size: nat,
}

/// The parsed header agrees with the model.
pub open spec fn header_matches(h: PageHeaderInfo, m: PageHeaderModel) -> bool {
    &&& h.page_type == m.page_type
    &&& h.uncompressed_size == m.uncompressed_size
    &&& h.compressed_size == m.compressed_size
    &&& h.num_values == m.num_values
    &&& h.header_size == m.header_size
}

/// The page header at the start of `d`: page type, uncompressed size and
/// compressed size are its first three fields, in that order; data pages then
/// give their number of values. The header runs through its stop byte, and the
/// page's data follows it. Sizes are the i32 fields taken as `usize`.
pub open spec fn page_header_spec(d: Seq<u8>) -> Result<PageHeaderModel, ErrorModel> {
    match field_and_varint_spec(d, 0) {
        Err(e) => Err(e),
        Ok((code, c1)) => match field_and_varint_spec(d, c1 as int) {
            Err(e) => Err(e),
            Ok((unc, c2)) => match field_and_varint_spec(d, (c1 + c2) as int) {
                Err(e) => Err(e),
                Ok((comp, c3)) => match page_type_of_code(code) {
                    None => Err(ErrorModel::DataError("Unknown page type: "@ + decimal(code as int))),
                    Some(t) => {
                        let p = c1 + c2 + c3;
                        if t == PageType::DataPage || t == PageType::DataPageV2 {
                            match num_values_spec(d, p as int) {
                                Ok((nv, c4)) => Ok(PageHeaderModel {
                                    page_type: t,
                                    uncompressed_size: unc as usize,
                                    compressed_size: comp as usize,
                                    num_values: nv,
                                    header_size: p + c4,
                                }),
                                Err(e) => Err(e),
                            }
                        } else {
                            Ok(PageHeaderModel {
                                page_type: t,
                                uncompressed_size: unc as usize,
                                compressed_size: comp as usize,
                                num_values: 0,
                                header_size: p + skip_rest_spec(d, p as int),
                            })
                        }
                    },
                },
            },
        },
    }
}

/// A page header that parses takes at least one byte.
pub proof fn lemma_header_size_positive(d: Seq<u8>)
    ensures
        page_header_spec(d) matches Ok(m) ==> m.header_size >= 1,
{
}

/// Read an unsigned 32-bit varint from data at pos.
pub fn read_varint32(data: &[u8], pos: &mut usize) -> (r: Result<u32, ParquetError>)
    ensures
        ({
            let (sr, c) = varint32_spec(data@, *old(pos) as int);
            &&& *final(pos) == *old(pos) + c
            &&& match r {
                Ok(v) => sr == Ok::<u32, ErrorModel>(v),
                Err(e) => sr == Err::<u32, ErrorModel>(e@),
            }
        }),
{
    let ghost start = *pos as int;
    let mut result: u32 = 0;
    let mut shift: u32 = 0;
    let ghost mut k: nat = 0;
    loop
        invariant_except_break
            start == *old(pos),
            k < 5,
            shift == 7 * k,
            *pos == start + k,
            k > 0 ==> start + k <= data@.len(),
            result == varint32_value(data@, start, k),
            varint32_length(data@, start, 0) == varint32_length(data@, start, k),
        ensures
            start == *old(pos),
            k < 5,
            *pos == start + k + 1,
            varint32_length(data@, start, 0) == Ok::<nat, ErrorModel>(k + 1),
            result == varint32_value(data@, start, k + 1),
        decreases 5 - k,
    {
        if *pos >= data.len() {
            return Err(ParquetError::InvalidFile(String::from_str("Varint extends past data")));
        }
        let b = data[*pos];
        *pos = *pos + 1;
        assert((b & 0x80 == 0) == (b < 0x80)) by (bit_vector);
        result = result | (((b & 0x7F) as u32) << shift);
        assert(result == varint32_value(data@, start, k + 1));
        if b & 0x80 == 0 {
            break ;
        }
        shift = shift + 7;
        if shift >= 32 {
            return Err(ParquetError::InvalidFile(String::from_str("Varint too long")));
        }
        proof {
            k = k + 1;
        }
    }
    Ok(result)
}

/// Read a zigzag-encoded varint from data at pos.
pub fn read_zigzag_varint(data: &[u8], pos: &mut usize) -> (r: Result<i32, ParquetError>)
    ensures
        ({
            let (sr, c) = zigzag_varint_spec(data@, *old(pos) as int);
            &&& *final(pos) == *old(pos) + c
            &&& match r {
                Ok(v) => sr == Ok::<i32, ErrorModel>(v),
                Err(e) => sr == Err::<i32, ErrorModel>(e@),
            }
        }),
{
    let result = match read_varint32(data, pos) {
        Ok(v) => v,
        Err(e) => {
            return Err(e);
        },
    };
    assert(result >> 1 == result / 2) by (bit_vector);
    assert((result & 1 == 0) == (result % 2 == 0)) by (bit_vector);
    if result & 1 == 0 {
        Ok((result >> 1) as i32)
    } else {
        Ok(-((result >> 1) as i32) - 1)
    }
}

/// `p + n`, stopping at `usize::MAX`.
fn add_capped(p: usize, n: usize) -> (r: usize)
    ensures
        r == p + advance(p as int, n as int),
{
    if n > usize::MAX - p {
        usize::MAX
    } else {
        p + n
    }
}

/// Skip a binary value: its varint length and the bytes.
fn skip_binary(data: &[u8], pos: &mut usize) -> (r: Result<(), ParquetError>)
    ensures
        ({
            let (sr, c) = skip_page_value(data@, *old(pos) as int, 8);
            &&& *final(pos) == *old(pos) + c
            &&& match r {
                Ok(_) => sr is Ok,
                Err(e) => sr == Err::<(), ErrorModel>(e@),
            }
        }),
{
    let ghost start = *pos as int;
    let mut result: u32 = 0;
    let mut shift: u32 = 0;
    let mut k: usize = 0;
    loop
        invariant_except_break
            start == *old(pos),
            k <= 5,
            shift == 7 * k,
            *pos == start + k,
            result == varint32_value(data@, start, k as nat),
            length_scan(data@, start, 0) == length_scan(data@, start, k as nat),
        ensures
            start == *old(pos),
            k < 5,
            *pos == start + k + 1,
            length_scan(data@, start, 0) == LengthScan::Length(result, (k + 1) as nat),
        decreases 5 - k,
    {
        if *pos >= data.len() {
            return Ok(());
        }
        if k == 5 {
            return Err(ParquetError::InvalidFile(String::from_str("Varint too long")));
        }
        let b = data[*pos];
        *pos = *pos + 1;
        assert((b & 0x80 == 0) == (b < 0x80)) by (bit_vector);
        result = result | (((b & 0x7F) as u32) << shift);
        assert(result == varint32_value(data@, start, (k + 1) as nat));
        if b & 0x80 == 0 {
            break ;
        }
        shift = shift + 7;
        k = k + 1;
    }
    *pos = add_capped(*pos, result as usize);
    Ok(())
}

/// Skip a Thrift value of the given type.
pub fn skip_thrift_value(data: &[u8], pos: &mut usize, field_type: u8) -> (r: Result<(), ParquetError>)
    ensures
        ({
            let (sr, c) = skip_page_value(data@, *old(pos) as int, field_type);
            &&& *final(pos) == *old(pos) + c
            &&& match r {
                Ok(_) => sr is Ok,
                Err(e) => sr == Err::<(), ErrorModel>(e@),
            }
        }),
    decreases remaining_from(data@, *old(pos) as int), 2nat,
{
    if field_type == 1 || field_type == 2 {
        Ok(())
    } else if 3 <= field_type && field_type <= 6 {
        match read_zigzag_varint(data, pos) {
            Ok(_) => Ok(()),
            Err(e) => Err(e),
        }
    } else if field_type == 7 {
        *pos = add_capped(*pos, 8);
        Ok(())
    } else if field_type == 8 {
        skip_binary(data, pos)
    } else if field_type == 9 || field_type == 10 {
        if *pos >= data.len() {
            return Ok(());
        }
        let header = data[*pos];
        *pos = *pos + 1;
        let count = ((header >> 4) & 0x0F) as usize;
        let elem_type = header & 0x0F;
        assert((header >> 4) & 0x0F == header / 16 && elem_type == header % 16) by (bit_vector)
            requires
                elem_type == header & 0x0F,
        ;
        let actual_count = if count == 0x0F {
            match read_varint32(data, pos) {
                Ok(v) => v as usize,
                Err(e) => {
                    return Err(e);
                },
            }
        } else {
            count
        };
        skip_list(data, pos, elem_type, actual_count)
    } else if field_type == 12 {
        skip_struct(data, pos)
    } else {
        let _ = read_zigzag_varint(data, pos);
        Ok(())
    }
}

/// Skip `count` values of type `elem_type`.
fn skip_list(data: &[u8], pos: &mut usize, elem_type: u8, count: usize) -> (r: Result<(), ParquetError>)
    ensures
        ({
            let (sr, c) = skip_page_list(data@, *old(pos) as int, elem_type, count as nat);
            &&& *final(pos) == *old(pos) + c
            &&& match r {
                Ok(_) => sr is Ok,
                Err(e) => sr == Err::<(), ErrorModel>(e@),
            }
        }),
    decreases remaining_from(data@, *old(pos) as int), 3nat,
{
    let ghost p0 = *pos as int;
    let mut i: usize = 0;
    while i < count
        invariant
            p0 == *old(pos),
            *pos >= p0,
            i <= count,
            skip_page_list(data@, p0, elem_type, count as nat) == shifted(
                skip_page_list(data@, *pos as int, elem_type, (count - i) as nat),
                (*pos - p0) as nat,
            ),
        decreases count - i,
    {
        match skip_thrift_value(data, pos, elem_type) {
            Ok(_) => {},
            Err(e) => {
                return Err(e);
            },
        }
        i = i + 1;
    }
    Ok(())
}

/// Skip the fields of a struct up to its stop byte or the end of the data.
fn skip_struct(data: &[u8], pos: &mut usize) -> (r: Result<(), ParquetError>)
    ensures
        ({
            let (sr, c) = skip_page_struct(data@, *old(pos) as int);
            &&& *final(pos) == *old(pos) + c
            &&& match r {
                Ok(_) => sr is Ok,
                Err(e) => sr == Err::<(), ErrorModel>(e@),
            }
        }),
    decreases remaining_from(data@, *old(pos) as int), 1nat,
{
    let ghost p0 = *pos as int;
    loop
        invariant
            p0 == *old(pos),
            *pos >= p0,
            skip_page_struct(data@, p0) == shifted(skip_page_struct(data@, *pos as int), (*pos - p0) as nat),
        decreases remaining_from(data@, *pos as int),
    {
        if *pos >= data.len() {
            return Ok(());
        }
        let byte = data[*pos];
        if byte == 0 {
            *pos = *pos + 1;
            return Ok(());
        }
        *pos = *pos + 1;
        let ft = byte & 0x0F;
        let fd = (byte >> 4) & 0x0F;
        assert(ft == byte % 16 && fd == byte / 16) by (bit_vector)
            requires
                ft == byte & 0x0F,
                fd == (byte >> 4) & 0x0F,
        ;
        if fd == 0 {
            match read_zigzag_varint(data, pos) {
                Ok(_) => {},
                Err(e) => {
                    return Err(e);
                },
            }
        }
        match skip_thrift_value(data, pos, ft) {
            Ok(_) => {},
            Err(e) => {
                return Err(e);
            },
        }
    }
}

/// Skip remaining fields in a Thrift struct until the stop byte, ignoring errors.
pub fn skip_remaining_struct(data: &[u8], pos: &mut usize)
    ensures
        *final(pos) == *old(pos) + skip_rest_spec(data@, *old(pos) as int),
{
    let ghost p0 = *pos as int;
    while *pos < data.len()
        invariant
            p0 == *old(pos),
            *pos >= p0,
            skip_rest_spec(data@, p0) == (*pos - p0) + skip_rest_spec(data@, *pos as int),
        decreases remaining_from(data@, *pos as int),
    {
        let byte = data[*pos];
        if byte == 0 {
            *pos = *pos + 1;
            return;
        }
        *pos = *pos + 1;
        let field_type = byte & 0x0F;
        let field_delta = (byte >> 4) & 0x0F;
        assert(field_type == byte % 16 && field_delta == byte / 16) by (bit_vector)
            requires
                field_type == byte & 0x0F,
                field_delta == (byte >> 4) & 0x0F,
        ;
        if field_delta == 0 && *pos < data.len() {
            let _ = read_zigzag_varint(data, pos);
        }
        let _ = skip_thrift_value(data, pos, field_type);
    }
}

/// Read one page header field while scanning for the number of values.
#[verifier::rlimit(80)]
#[verifier::spinoff_prover]
fn parse_num_values_field(data: &[u8], pos: &mut usize) -> (r: Result<Option<i32>, ParquetError>)
    requires
        *old(pos) < data@.len(),
        data@[*old(pos) as int] != 0,
    ensures
        match r {
            Ok(v) => num_values_field(data@, *old(pos) as int) == Ok::<(Option<i32>, nat), ErrorModel>(
                (v, (*final(pos) - *old(pos)) as nat),
            ) && *final(pos) > *old(pos),
            Err(e) => num_values_field(data@, *old(pos) as int) == Err::<(Option<i32>, nat), ErrorModel>(e@),
        },
{
    reveal(num_values_field);
    let byte = data[*pos];
    let field_type = byte & 0x0F;
    let field_delta = (byte >> 4) & 0x0F;
    assert(field_type == byte % 16 && field_delta == byte / 16) by (bit_vector)
        requires
            field_type == byte & 0x0F,
            field_delta == (byte >> 4) & 0x0F,
    ;
    *pos = *pos + 1;
    if field_delta == 0 {
        match read_zigzag_varint(data, pos) {
            Ok(_) => {},
            Err(e) => {
                return Err(e);
            },
        }
    }
    if field_type == 12 {
        if *pos < data.len() {
            let inner_byte = data[*pos];
            let inner_type = inner_byte & 0x0F;
            assert(inner_type == inner_byte % 16) by (bit_vector)
                requires
                    inner_type == inner_byte & 0x0F,
            ;
            *pos = *pos + 1;
            if inner_type == 5 {
                let val = match read_zigzag_varint(data, pos) {
                    Ok(v) => v,
                    Err(e) => {
                        return Err(e);
                    },
                };
                skip_remaining_struct(data, pos);
                skip_remaining_struct(data, pos);
                return Ok(Some(val));
            }
        }
        skip_remaining_struct(data, pos);
        Ok(None)
    } else {
        match skip_thrift_value(data, pos, field_type) {
            Ok(_) => Ok(None),
            Err(e) => Err(e),
        }
    }
}

/// Extract num_values from a DataPageHeader or DataPageHeaderV2.
pub fn parse_data_page_header_num_values(data: &[u8], pos: &mut usize) -> (r: Result<i32, ParquetError>)
    ensures
        match r {
            Ok(v) => num_values_spec(data@, *old(pos) as int) == Ok::<(i32, nat), ErrorModel>(
                (v, (*final(pos) - *old(pos)) as nat),
            ) && *final(pos) >= *old(pos),
            Err(e) => num_values_spec(data@, *old(pos) as int) == Err::<(i32, nat), ErrorModel>(e@),
        },
{
    let ghost p0 = *pos as int;
    while *pos < data.len()
        invariant_except_break
            p0 == *old(pos),
            *pos >= p0,
            num_values_spec(data@, p0) == after_with(num_values_spec(data@, *pos as int), (*pos - p0) as nat),
        ensures
            *pos >= p0,
            num_values_spec(data@, p0) == Ok::<(i32, nat), ErrorModel>((0, (*pos - p0) as nat)),
        decreases remaining_from(data@, *pos as int),
    {
        if data[*pos] == 0 {
            *pos = *pos + 1;
            break ;
        }
        match parse_num_values_field(data, pos) {
            Ok(Some(v)) => {
                return Ok(v);
            },
            Ok(None) => {},
            Err(e) => {
                return Err(e);
            },
        }
    }
    Ok(0)
}

/// Read a Thrift field header byte + zigzag varint value.
pub fn read_thrift_field_and_varint(data: &[u8], pos: &mut usize) -> (r: Result<(i32, usize), ParquetError>)
    ensures
        match r {
            Ok((v, z)) => z == 0 && field_and_varint_spec(data@, *old(pos) as int) == Ok::<(i32, nat), ErrorModel>(
                (v, (*final(pos) - *old(pos)) as nat),
            ) && *final(pos) >= *old(pos),
            Err(e) => field_and_varint_spec(data@, *old(pos) as int) == Err::<(i32, nat), ErrorModel>(e@),
        },
{
    if *pos >= data.len() {
        return Err(ParquetError::InvalidFile(String::from_str("Unexpected end of page header")));
    }
    let byte = data[*pos];
    *pos = *pos + 1;
    let field_delta = (byte >> 4) & 0x0F;
    assert(field_delta == byte / 16) by (bit_vector)
        requires
            field_delta == (byte >> 4) & 0x0F,
    ;
    if field_delta == 0 {
        match read_zigzag_varint(data, pos) {
            Ok(_) => {},
            Err(e) => {
                return Err(e);
            },
        }
    }
    match read_zigzag_varint(data, pos) {
        Ok(v) => Ok((v, 0)),
        Err(e) => Err(e),
    }
}

/// Parse a page header from the Thrift stream.
pub fn parse_page_header(data: &[u8]) -> (r: Result<PageHeaderInfo, ParquetError>)
    ensures
        match r {
            Ok(h) => page_header_spec(data@) is Ok && header_matches(h, page_header_spec(data@)->Ok_0),
            Err(e) => page_header_spec(data@) == Err::<PageHeaderModel, ErrorModel>(e@),
        },
{
    let mut pos: usize = 0;
    let (page_type_code, _) = match read_thrift_field_and_varint(data, &mut pos) {
        Ok(f) => f,
        Err(e) => {
            return Err(e);
        },
    };
    let (uncompressed_size, _) = match read_thrift_field_and_varint(data, &mut pos) {
        Ok(f) => f,
        Err(e) => {
            return Err(e);
        },
    };
    let (compressed_size, _) = match read_thrift_field_and_varint(data, &mut pos) {
        Ok(f) => f,
        Err(e) => {
            return Err(e);
        },
    };
    let page_type = match PageType::from_thrift(page_type_code) {
        Ok(t) => t,
        Err(e) => {
            return Err(e);
        },
    };
    let mut num_values: i32 = 0;
    if page_type == PageType::DataPage || page_type == PageType::DataPageV2 {
        num_values = match parse_data_page_header_num_values(data, &mut pos) {
            Ok(v) => v,
            Err(e) => {
                return Err(e);
            },
        };
    } else {
        skip_remaining_struct(data, &mut pos);
    }
    Ok(PageHeaderInfo {
        page_type,
        uncompressed_size: uncompressed_size as usize,
        compressed_size: compressed_size as usize,
        num_values,
        header_size: pos,
    })
}

} // verus!
