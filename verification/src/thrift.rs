//! A reader for the subset of the Thrift Compact Protocol that Parquet footers use.
//!
//! The protocol is described here by spec functions over the raw bytes and a
//! starting position: each one says what value a read yields and how many bytes
//! it consumes, or which error it reports.

use vstd::prelude::*;
use crate::types::{ParquetError, ErrorModel};

verus! {

/// The error for a read past the end of the data.
pub open spec fn end_of_data() -> ErrorModel {
    ErrorModel::InvalidFile("Unexpected end of data"@)
}

/// The error for a varint with more than ten bytes.
pub open spec fn varint_too_long() -> ErrorModel {
    ErrorModel::InvalidFile("Varint too long"@)
}

/// The error for a string whose length runs past the data.
pub open spec fn string_too_long() -> ErrorModel {
    ErrorModel::InvalidFile("String length exceeds data"@)
}

/// The error for a byte run that runs past the data.
pub open spec fn bytes_too_long() -> ErrorModel {
    ErrorModel::InvalidFile("Not enough bytes"@)
}

/// The length of the varint that starts at `pos`, examined from its `k`-th byte on:
/// it ends at the first byte whose high bit is clear, within ten bytes.
pub open spec fn varint_length(data: Seq<u8>, pos: int, k: nat) -> Result<nat, ErrorModel>
    decreases 10 - k,
{
    if k >= 10 {
        Err(varint_too_long())
    } else if pos + k >= data.len() {
        Err(end_of_data())
    } else if data[pos + k] < 0x80 {
        Ok(k + 1)
    } else if k + 1 >= 10 {
        Err(varint_too_long())
    } else {
        varint_length(data, pos, k + 1)
    }
}

/// The value of the first `n` bytes of a varint at `pos`: the low seven bits of byte
/// `i` stand at bit `7 * i`, and what does not fit in 64 bits is dropped.
pub open spec fn varint_value(data: Seq<u8>, pos: int, n: nat) -> u64
    decreases n,
{
    if n == 0 {
        0
    } else {
        varint_value(data, pos, (n - 1) as nat) | (((data[pos + n - 1] & 0x7f) as u64) << ((7 * (n - 1)) as u64))
    }
}

/// Reading a varint at `pos`: its value or error, and the bytes consumed
/// (on an error, those read before it).
pub open spec fn read_varint_spec(data: Seq<u8>, pos: int) -> (Result<u64, ErrorModel>, nat) {
    match varint_length(data, pos, 0) {
        Ok(n) => (Ok(varint_value(data, pos, n)), n),
        Err(e) => (Err(e), if data.len() - pos >= 10 { 10nat } else { (data.len() - pos) as nat }),
    }
}

/// Zigzag decoding of a 32-bit value: even values are the non-negative integers,
/// odd values the negative ones.
pub open spec fn zigzag32(v: u32) -> i32 {
    if v % 2 == 0 {
        (v / 2) as i32
    } else {
        (-((v / 2) as int) - 1) as i32
    }
}

/// Zigzag decoding of a 64-bit value.
pub open spec fn zigzag64(v: u64) -> i64 {
    if v % 2 == 0 {
        (v / 2) as i64
    } else {
        (-((v / 2) as int) - 1) as i64
    }
}

/// The canonical varint encoding of `v`: seven bits a byte, the lowest group
/// first, the high bit set on every byte but the last.
pub open spec fn varint_encoding(v: u64) -> Seq<u8>
    decreases v,
{
    if v < 0x80 {
        seq![v as u8]
    } else {
        proof {
            assert(v >> 7 < v) by (bit_vector)
                requires
                    v >= 0x80,
            ;
        }
        seq![((v & 0x7f) | 0x80) as u8] + varint_encoding(v >> 7)
    }
}

/// The shape of a varint encoding: one to ten bytes, byte `i` holding bits
/// `7 * i` on of the value, the high bit set on all bytes but the last, and
/// nothing of the value left above the last byte's group.
pub proof fn lemma_varint_encoding_shape(v: u64)
    ensures
        ({
            let e = varint_encoding(v);
            let n = e.len();
            &&& 1 <= n <= 10
            &&& forall|i: int| 0 <= i < n ==> ((#[trigger] e[i] & 0x7f) as u64) == (v >> ((7 * i) as u64)) & 0x7f
            &&& forall|i: int| 0 <= i < n - 1 ==> #[trigger] e[i] >= 0x80
            &&& e[n - 1] < 0x80
            &&& v >> ((7 * (n - 1)) as u64) < 0x80
            &&& n >= 2 ==> v >> ((7 * (n - 1)) as u64) != 0
        }),
    decreases v,
{
    let e = varint_encoding(v);
    if v < 0x80 {
        assert(((v as u8) & 0x7f) as u64 == (v >> 0u64) & 0x7f) by (bit_vector)
            requires
                v < 0x80,
        ;
        assert(v >> 0u64 == v) by (bit_vector);
    } else {
        assert(v >> 7 < v) by (bit_vector)
            requires
                v >= 0x80,
        ;
        let w = v >> 7;
        lemma_varint_encoding_shape(w);
        let t = varint_encoding(w);
        let m = t.len();
        assert(e == seq![((v & 0x7f) | 0x80) as u8] + t);
        assert forall|i: int| 0 <= i < m + 1 implies ((#[trigger] e[i] & 0x7f) as u64) == (v >> ((7 * i) as u64))
            & 0x7f by {
            if i == 0 {
                assert(((((v & 0x7f) | 0x80) as u8) & 0x7f) as u64 == (v >> 0u64) & 0x7f) by (bit_vector);
            } else {
                assert(e[i] == t[i - 1]);
                let a = (7 * (i - 1)) as u64;
                assert((v >> 7) >> a == v >> ((a + 7) as u64)) by (bit_vector)
                    requires
                        a <= 63,
                ;
            }
        }
        assert forall|i: int| 0 <= i < m implies #[trigger] e[i] >= 0x80 by {
            if i == 0 {
                assert((((v & 0x7f) | 0x80) as u8) >= 0x80) by (bit_vector);
            } else {
                assert(e[i] == t[i - 1]);
            }
        }
        assert(e[m as int] == t[m - 1]);
        let a = (7 * (m - 1)) as u64;
        assert((v >> 7) >> a == v >> ((a + 7) as u64)) by (bit_vector)
            requires
                a <= 63,
        ;
        if m == 1 {
            assert(w != 0) by (bit_vector)
                requires
                    w == v >> 7,
                    v >= 0x80,
            ;
        }
        let top = (7 * m) as u64;
        assert(top < 64) by {
            if top >= 64 {
                assert(v >> top == 0) by (bit_vector)
                    requires
                        top >= 64,
                ;
            }
        }
    }
}

/// Reading at `pos` the canonical varint encoding of `v` gives back `v`, after
/// exactly the encoding's bytes.
pub proof fn lemma_varint_round_trip(v: u64, data: Seq<u8>, pos: int)
    requires
        0 <= pos,
        pos + varint_encoding(v).len() <= data.len(),
        data.subrange(pos, pos + varint_encoding(v).len()) == varint_encoding(v),
    ensures
        read_varint_spec(data, pos) == (Ok::<u64, ErrorModel>(v), varint_encoding(v).len()),
{
    lemma_varint_encoding_shape(v);
    let e = varint_encoding(v);
    let n = e.len();
    assert forall|i: int| 0 <= i < n implies data[pos + i] == #[trigger] e[i] by {
        assert(data.subrange(pos, pos + n)[i] == data[pos + i]);
    }
    lemma_varint_length_of_encoding(v, data, pos, 0);
    lemma_varint_value_of_encoding(v, data, pos, (n - 1) as nat);
    let s = (7 * (n - 1)) as u64;
    let low = varint_value(data, pos, (n - 1) as nat);
    assert(((data[pos + n - 1] & 0x7f) as u64) == (v >> s) & 0x7f);
    assert(low | (((v >> s) & 0x7f) << s) == v) by (bit_vector)
        requires
            s < 64,
            low == v & (((1u64 << s) - 1) as u64),
            v >> s < 0x80,
    ;
    assert(varint_value(data, pos, n) == low | (((data[pos + n - 1] & 0x7f) as u64) << s));
}

/// The varint length of an encoding, examined from its `k`-th byte.
proof fn lemma_varint_length_of_encoding(v: u64, data: Seq<u8>, pos: int, k: nat)
    requires
        0 <= pos,
        pos + varint_encoding(v).len() <= data.len(),
        k < varint_encoding(v).len(),
        forall|i: int| 0 <= i < varint_encoding(v).len() ==> data[pos + i] == #[trigger] varint_encoding(v)[i],
    ensures
        varint_length(data, pos, k) == Ok::<nat, ErrorModel>(varint_encoding(v).len()),
    decreases varint_encoding(v).len() - k,
{
    lemma_varint_encoding_shape(v);
    let e = varint_encoding(v);
    assert(data[pos + k] == e[k as int]);
    if k + 1 < e.len() {
        lemma_varint_length_of_encoding(v, data, pos, k + 1);
    }
}

/// The value of the first `k` bytes of an encoding: the low `7 * k` bits.
proof fn lemma_varint_value_of_encoding(v: u64, data: Seq<u8>, pos: int, k: nat)
    requires
        0 <= pos,
        pos + varint_encoding(v).len() <= data.len(),
        k < varint_encoding(v).len(),
        forall|i: int| 0 <= i < varint_encoding(v).len() ==> data[pos + i] == #[trigger] varint_encoding(v)[i],
    ensures
        k <= 9,
        varint_value(data, pos, k) == v & (((1u64 << ((7 * k) as u64)) - 1) as u64),
    decreases k,
{
    lemma_varint_encoding_shape(v);
    let e = varint_encoding(v);
    if k == 0 {
        assert(v & (((1u64 << 0u64) - 1) as u64) == 0) by (bit_vector);
    } else {
        lemma_varint_value_of_encoding(v, data, pos, (k - 1) as nat);
        let s = (7 * (k - 1)) as u64;
        let low = varint_value(data, pos, (k - 1) as nat);
        assert(data[pos + k - 1] == e[k - 1]);
        assert(((data[pos + k - 1] & 0x7f) as u64) == (v >> s) & 0x7f);
        assert(low | (((v >> s) & 0x7f) << s) == v & (((1u64 << ((s + 7) as u64)) - 1) as u64)) by (bit_vector)
            requires
                s + 7 < 64,
                low == v & (((1u64 << s) - 1) as u64),
        ;
    }
}

/// The zigzag encoding of an i32: the non-negative integers to the even codes,
/// the negative ones to the odd codes.
pub open spec fn zigzag_encode32(n: i32) -> u32 {
    if n >= 0 {
        (2 * n) as u32
    } else {
        (-2 * (n as int) - 1) as u32
    }
}

/// The zigzag encoding of an i64.
pub open spec fn zigzag_encode64(n: i64) -> u64 {
    if n >= 0 {
        (2 * n) as u64
    } else {
        (-2 * (n as int) - 1) as u64
    }
}

/// Reading at `pos` the varint of the zigzag encoding of an i32 gives it back.
pub proof fn lemma_read_i32_round_trip(n: i32, data: Seq<u8>, pos: int)
    requires
        0 <= pos,
        pos + varint_encoding(zigzag_encode32(n) as u64).len() <= data.len(),
        data.subrange(pos, pos + varint_encoding(zigzag_encode32(n) as u64).len()) == varint_encoding(
            zigzag_encode32(n) as u64,
        ),
    ensures
        read_i32_spec(data, pos) == (Ok::<i32, ErrorModel>(n), varint_encoding(zigzag_encode32(n) as u64).len()),
{
    let z = zigzag_encode32(n);
    lemma_varint_round_trip(z as u64, data, pos);
    assert((z as u64) as u32 == z);
    assert(zigzag32(z) == n);
}

/// Reading at `pos` the varint of the zigzag encoding of an i64 gives it back.
pub proof fn lemma_read_i64_round_trip(n: i64, data: Seq<u8>, pos: int)
    requires
        0 <= pos,
        pos + varint_encoding(zigzag_encode64(n)).len() <= data.len(),
        data.subrange(pos, pos + varint_encoding(zigzag_encode64(n)).len()) == varint_encoding(zigzag_encode64(n)),
    ensures
        read_i64_spec(data, pos) == (Ok::<i64, ErrorModel>(n), varint_encoding(zigzag_encode64(n)).len()),
{
    let z = zigzag_encode64(n);
    lemma_varint_round_trip(z, data, pos);
    assert(zigzag64(z) == n);
}

/// Zigzag decoding gives each 32-bit code its own i32, and every i32 has a code.
pub proof fn lemma_zigzag32_bijective(a: u32, b: u32, x: i32)
    ensures
        zigzag32(a) == zigzag32(b) ==> a == b,
        exists|v: u32| zigzag32(v) == x,
{
    let v: u32 = if x >= 0 {
        (2 * x) as u32
    } else {
        (-2 * (x as int) - 1) as u32
    };
    assert(zigzag32(v) == x);
}

/// Zigzag decoding gives each 64-bit code its own i64, and every i64 has a code.
pub proof fn lemma_zigzag64_bijective(a: u64, b: u64, x: i64)
    ensures
        zigzag64(a) == zigzag64(b) ==> a == b,
        exists|v: u64| zigzag64(v) == x,
{
    let v: u64 = if x >= 0 {
        (2 * x) as u64
    } else {
        (-2 * (x as int) - 1) as u64
    };
    assert(zigzag64(v) == x);
}

/// Reading a zigzag-encoded i32: the varint's low 32 bits, zigzag-decoded.
pub open spec fn read_i32_spec(data: Seq<u8>, pos: int) -> (Result<i32, ErrorModel>, nat) {
    let (r, c) = read_varint_spec(data, pos);
    match r {
        Ok(v) => (Ok(zigzag32(v as u32)), c),
        Err(e) => (Err(e), c),
    }
}

/// Reading a zigzag-encoded i64.
pub open spec fn read_i64_spec(data: Seq<u8>, pos: int) -> (Result<i64, ErrorModel>, nat) {
    let (r, c) = read_varint_spec(data, pos);
    match r {
        Ok(v) => (Ok(zigzag64(v)), c),
        Err(e) => (Err(e), c),
    }
}

/// The text that lossy UTF-8 decoding gives for some bytes: invalid sequences
/// become U+FFFD.
pub uninterp spec fn lossy_utf8(bytes: Seq<u8>) -> Seq<char>;

/// `String::from_utf8_lossy`, turned into an owned string.
/// Claimed: the text is the named lossy decoding of the bytes, and for valid
/// UTF-8 it is exactly the decoded text.
#[verifier::external_body]
fn utf8_lossy_string(bytes: &[u8]) -> (s: String)
    ensures
        s@ == lossy_utf8(bytes@),
        vstd::utf8::valid_utf8(bytes@) ==> s@ == vstd::utf8::decode_utf8(bytes@),
{
    String::from_utf8_lossy(bytes).to_string()
}

/// The text of a string's bytes: their UTF-8 decoding when they are valid, and
/// their lossy decoding otherwise.
pub open spec fn string_text(b: Seq<u8>) -> Seq<char> {
    if vstd::utf8::valid_utf8(b) {
        vstd::utf8::decode_utf8(b)
    } else {
        lossy_utf8(b)
    }
}

/// Reading a length-prefixed string: the text of the bytes that follow the
/// varint length, which must lie within the data.
pub open spec fn read_string_spec(data: Seq<u8>, pos: int) -> Result<(Seq<char>, nat), ErrorModel> {
    let (r, c) = read_varint_spec(data, pos);
    match r {
        Ok(v) => {
            let len = (v as usize) as int;
            let start = pos + c;
            if start + len > data.len() {
                Err(string_too_long())
            } else {
                Ok((string_text(data.subrange(start, start + len)), (c + len) as nat))
            }
        },
        Err(e) => Err(e),
    }
}

/// The id a short-form header gives: the previous id plus the delta, wrapping
/// around past `i16::MAX`.
pub open spec fn next_field_id(fid: i16, delta: i16) -> i16 {
    if fid + delta > i16::MAX {
        (fid + delta - 65536) as i16
    } else {
        (fid + delta) as i16
    }
}

/// A field header at `pos`, with `fid` the id of the previous field of the struct:
/// the field's id and type, the bytes consumed, and the id that later deltas add to.
/// `None` is the stop byte, the end of the data, or a long-form id that fails to read.
pub open spec fn field_header_spec(data: Seq<u8>, pos: int, fid: i16) -> (Option<(i16, u8)>, nat, i16) {
    if pos >= data.len() {
        (None, 0, fid)
    } else {
        let b = data[pos];
        if b == 0 {
            (None, 1, fid)
        } else {
            let delta = b / 16;
            let ty = (b % 16) as u8;
            if delta == 0 {
                let (r, c) = read_i32_spec(data, pos + 1);
                match r {
                    Ok(id) => (Some((id as i16, ty)), 1 + c, id as i16),
                    Err(_) => (None, 1 + c, fid),
                }
            } else {
                let id = next_field_id(fid, delta as i16);
                (Some((id, ty)), 1, id)
            }
        }
    }
}

/// A list header at `pos`: element type, element count and bytes consumed. A
/// count nibble of 15 means the count follows as a varint.
pub open spec fn list_header_spec(data: Seq<u8>, pos: int) -> Result<(u8, usize, nat), ErrorModel> {
    if pos >= data.len() {
        Err(end_of_data())
    } else {
        let b = data[pos];
        let size = b / 16;
        let et = (b % 16) as u8;
        if size == 15 {
            let (r, c) = read_varint_spec(data, pos + 1);
            match r {
                Ok(v) => Ok((et, v as usize, 1 + c)),
                Err(e) => Err(e),
            }
        } else {
            Ok((et, size as usize, 1))
        }
    }
}

/// The bytes from `pos` to the end of the data, or zero past it: what every
/// nested read must shrink.
pub open spec fn remaining_from(data: Seq<u8>, pos: int) -> nat {
    if pos < data.len() {
        (data.len() - pos) as nat
    } else {
        0
    }
}

/// A count of consumed bytes, shifted by `k` bytes read before it.
pub open spec fn after(r: Result<nat, ErrorModel>, k: nat) -> Result<nat, ErrorModel> {
    match r {
        Ok(c) => Ok(c + k),
        Err(e) => Err(e),
    }
}

/// A parsed value with its consumed byte count, shifted by `k` bytes read before it.
pub open spec fn after_with<T>(r: Result<(T, nat), ErrorModel>, k: nat) -> Result<(T, nat), ErrorModel> {
    match r {
        Ok((v, c)) => Ok((v, c + k)),
        Err(e) => Err(e),
    }
}

/// Skipping a value of Compact Protocol type `ty` at `pos`: the bytes it occupies.
/// Booleans occupy none, integers a varint, doubles eight bytes, binaries a varint
/// length and the bytes, lists and sets a header and their elements, maps a varint
/// count, a key/value type byte and their pairs, structs their fields up to the stop
/// byte; an unknown type is read as a varint.
pub open spec fn skip_value(data: Seq<u8>, pos: int, ty: u8) -> Result<nat, ErrorModel>
    decreases remaining_from(data, pos), 2nat, 0nat,
{
    if ty == 1 || ty == 2 {
        Ok(0)
    } else if ty == 7 {
        if pos + 8 <= data.len() {
            Ok(8)
        } else {
            Err(bytes_too_long())
        }
    } else if ty == 8 {
        let (r, c) = read_varint_spec(data, pos);
        match r {
            Ok(v) => {
                let n = (v as usize) as int;
                if pos + c + n <= data.len() {
                    Ok((c + n) as nat)
                } else {
                    Err(bytes_too_long())
                }
            },
            Err(e) => Err(e),
        }
    } else if ty == 9 || ty == 10 {
        match list_header_spec(data, pos) {
            Ok((et, count, c)) => after(skip_elements(data, pos + c, et, count as nat), c),
            Err(e) => Err(e),
        }
    } else if ty == 11 {
        let (r, c) = read_varint_spec(data, pos);
        match r {
            Ok(v) => {
                let count = v as usize;
                if count == 0 {
                    Ok(c)
                } else if pos + c >= data.len() {
                    Err(end_of_data())
                } else {
                    let t = data[pos + c];
                    after(
                        skip_pairs(data, pos + c + 1, (t / 16) as u8, (t % 16) as u8, count as nat),
                        c + 1,
                    )
                }
            },
            Err(e) => Err(e),
        }
    } else if ty == 12 {
        skip_struct_fields(data, pos, 0)
    } else {
        let (r, c) = read_varint_spec(data, pos);
        match r {
            Ok(_) => Ok(c),
            Err(e) => Err(e),
        }
    }
}

/// Skipping `count` values of type `ty` one after another.
pub open spec fn skip_elements(data: Seq<u8>, pos: int, ty: u8, count: nat) -> Result<nat, ErrorModel>
    decreases remaining_from(data, pos), 3nat, count,
{
    if count == 0 {
        Ok(0)
    } else {
        match skip_value(data, pos, ty) {
            Ok(c) => after(skip_elements(data, pos + c, ty, (count - 1) as nat), c),
            Err(e) => Err(e),
        }
    }
}

/// Skipping `count` key/value pairs.
pub open spec fn skip_pairs(data: Seq<u8>, pos: int, kt: u8, vt: u8, count: nat) -> Result<nat, ErrorModel>
    decreases remaining_from(data, pos), 4nat, count,
{
    if count == 0 {
        Ok(0)
    } else {
        match skip_value(data, pos, kt) {
            Ok(c1) => match skip_value(data, pos + c1, vt) {
                Ok(c2) => after(skip_pairs(data, pos + c1 + c2, kt, vt, (count - 1) as nat), c1 + c2),
                Err(e) => Err(e),
            },
            Err(e) => Err(e),
        }
    }
}

/// Skipping the fields of a struct up to its stop byte, `fid` being the id of the
/// field before.
pub open spec fn skip_struct_fields(data: Seq<u8>, pos: int, fid: i16) -> Result<nat, ErrorModel>
    decreases remaining_from(data, pos), 1nat, 0nat,
{
    let (h, c, next_fid) = field_header_spec(data, pos, fid);
    match h {
        None => Ok(c),
        Some((_, ft)) => match skip_value(data, pos + c, ft) {
            Ok(c2) => after(skip_struct_fields(data, pos + c + c2, next_fid), c + c2),
            Err(e) => Err(e),
        },
    }
}

/// Minimal Thrift Compact Protocol reader over a byte slice.
pub struct ThriftReader<'a> {
    data: &'a [u8],
    pos: usize,
    current_field_id: i16,
}

impl<'a> ThriftReader<'a> {
    /// The bytes being read.
    pub closed spec fn bytes(&self) -> Seq<u8> {
        self.data@
    }

    /// The position of the next byte to read.
    pub closed spec fn position(&self) -> int {
        self.pos as int
    }

    /// The id of the last field header read in the current struct.
    pub closed spec fn field_id(&self) -> i16 {
        self.current_field_id
    }

    /// The position never passes the end of the data.
    pub open spec fn wf(&self) -> bool {
        self.position() <= self.bytes().len()
    }

    /// A reader at the start of `data`.
    pub fn new(data: &'a [u8]) -> (r: ThriftReader<'a>)
        ensures
            r.wf(),
            r.bytes() == data@,
            r.position() == 0,
            r.field_id() == 0,
    {
        ThriftReader { data, pos: 0, current_field_id: 0 }
    }

    /// Bytes left to read.
    pub fn remaining(&self) -> (n: usize)
        requires
            self.wf(),
        ensures
            n == self.bytes().len() - self.position(),
    {
        self.data.len() - self.pos
    }

    /// The position of the next byte to read.
    pub fn pos(&self) -> (p: usize)
        ensures
            p == self.position(),
    {
        self.pos
    }

    /// The id of the last field header read.
    pub fn current_field_id(&self) -> (id: i16)
        ensures
            id == self.field_id(),
    {
        self.current_field_id
    }

    /// Sets the id that the next field header's delta adds to.
    pub fn set_field_id(&mut self, id: i16)
        ensures
            final(self).bytes() == old(self).bytes(),
            final(self).position() == old(self).position(),
            final(self).wf() == old(self).wf(),
            final(self).field_id() == id,
    {
        self.current_field_id = id;
    }

    /// Read a single byte
    pub fn read_byte(&mut self) -> (r: Result<u8, ParquetError>)
        requires
            old(self).wf(),
        ensures
            final(self).wf(),
            final(self).bytes() == old(self).bytes(),
            final(self).field_id() == old(self).field_id(),
            old(self).position() < old(self).bytes().len() ==> r == Ok::<u8, ParquetError>(
                old(self).bytes()[old(self).position()],
            ) && final(self).position() == old(self).position() + 1,
            old(self).position() >= old(self).bytes().len() ==> (r matches Err(e) && e@
                == end_of_data() && final(self).position() == old(self).position()),
    {
        if self.pos >= self.data.len() {
            return Err(ParquetError::InvalidFile(String::from_str("Unexpected end of data")));
        }
        let b = self.data[self.pos];
        self.pos = self.pos + 1;
        Ok(b)
    }

    /// Read a varint (unsigned, variable-length encoding)
    pub fn read_varint(&mut self) -> (r: Result<u64, ParquetError>)
        requires
            old(self).wf(),
        ensures
            final(self).wf(),
            final(self).bytes() == old(self).bytes(),
            final(self).field_id() == old(self).field_id(),
            final(self).position() >= old(self).position(),
            ({
                let (sr, c) = read_varint_spec(old(self).bytes(), old(self).position());
                &&& final(self).position() == old(self).position() + c
                &&& match r {
                    Ok(v) => sr == Ok::<u64, ErrorModel>(v),
                    Err(e) => sr == Err::<u64, ErrorModel>(e@),
                }
            }),
    {
        let ghost start = self.pos as int;
        let ghost data = self.data@;
        let mut result: u64 = 0;
        let mut shift: u64 = 0;
        let ghost mut k: nat = 0;
        loop
            invariant
                self.wf(),
                self.data@ == data,
                data == old(self).data@,
                self.current_field_id == old(self).current_field_id,
                start == old(self).pos,
                k < 10,
                shift == 7 * k,
                self.pos == start + k,
                result == varint_value(data, start, k),
                varint_length(data, start, 0) == varint_length(data, start, k),
            decreases 10 - k,
        {
            let b = match self.read_byte() {
                Ok(b) => b,
                Err(e) => {
                    return Err(e);
                },
            };
            assert((b & 0x80 == 0) == (b < 0x80)) by (bit_vector);
            result = result | (((b & 0x7F) as u64) << shift);
            assert(data[start + (k + 1) - 1] == b);
            assert(result == varint_value(data, start, k + 1));
            if b & 0x80 == 0 {
                return Ok(result);
            }
            shift = shift + 7;
            if shift >= 64 {
                return Err(ParquetError::InvalidFile(String::from_str("Varint too long")));
            }
            proof {
                k = k + 1;
            }
        }
    }

    /// Read a zigzag-encoded i32
    pub fn read_i32(&mut self) -> (r: Result<i32, ParquetError>)
        requires
            old(self).wf(),
        ensures
            final(self).wf(),
            final(self).bytes() == old(self).bytes(),
            final(self).field_id() == old(self).field_id(),
            final(self).position() >= old(self).position(),
            ({
                let (sr, c) = read_i32_spec(old(self).bytes(), old(self).position());
                &&& final(self).position() == old(self).position() + c
                &&& match r {
                    Ok(v) => sr == Ok::<i32, ErrorModel>(v),
                    Err(e) => sr == Err::<i32, ErrorModel>(e@),
                }
            }),
    {
        match self.read_varint() {
            Ok(v) => Ok(zigzag_decode32(v as u32)),
            Err(e) => Err(e),
        }
    }

    /// Read a zigzag-encoded i64
    pub fn read_i64(&mut self) -> (r: Result<i64, ParquetError>)
        requires
            old(self).wf(),
        ensures
            final(self).wf(),
            final(self).bytes() == old(self).bytes(),
            final(self).field_id() == old(self).field_id(),
            final(self).position() >= old(self).position(),
            ({
                let (sr, c) = read_i64_spec(old(self).bytes(), old(self).position());
                &&& final(self).position() == old(self).position() + c
                &&& match r {
                    Ok(v) => sr == Ok::<i64, ErrorModel>(v),
                    Err(e) => sr == Err::<i64, ErrorModel>(e@),
                }
            }),
    {
        match self.read_varint() {
            Ok(v) => Ok(zigzag_decode64(v)),
            Err(e) => Err(e),
        }
    }

    /// Read a length-prefixed string
    pub fn read_string(&mut self) -> (r: Result<String, ParquetError>)
        requires
            old(self).wf(),
        ensures
            final(self).wf(),
            final(self).bytes() == old(self).bytes(),
            final(self).field_id() == old(self).field_id(),
            final(self).position() >= old(self).position(),
            match r {
                Ok(s) => read_string_spec(old(self).bytes(), old(self).position()) == Ok::<
                    (Seq<char>, nat),
                    ErrorModel,
                >((s@, (final(self).position() - old(self).position()) as nat)),
                Err(e) => read_string_spec(old(self).bytes(), old(self).position()) is Err
                    && read_string_spec(old(self).bytes(), old(self).position())->Err_0 == e@,
            },
    {
        let v = match self.read_varint() {
            Ok(v) => v,
            Err(e) => {
                return Err(e);
            },
        };
        let len = v as usize;
        if len > self.data.len() - self.pos {
            return Err(ParquetError::InvalidFile(String::from_str("String length exceeds data")));
        }
        let bytes = vstd::slice::slice_subrange(self.data, self.pos, self.pos + len);
        let s = utf8_lossy_string(bytes);
        self.pos = self.pos + len;
        Ok(s)
    }

    /// Read N raw bytes
    pub fn read_bytes(&mut self, n: usize) -> (r: Result<&'a [u8], ParquetError>)
        requires
            old(self).wf(),
        ensures
            final(self).wf(),
            final(self).bytes() == old(self).bytes(),
            final(self).field_id() == old(self).field_id(),
            final(self).position() >= old(self).position(),
            old(self).position() + n <= old(self).bytes().len() ==> (r matches Ok(b) && b@
                == old(self).bytes().subrange(old(self).position(), old(self).position() + n)
                && final(self).position() == old(self).position() + n),
            old(self).position() + n > old(self).bytes().len() ==> (r matches Err(e) && e@
                == bytes_too_long()),
    {
        if n > self.data.len() - self.pos {
            return Err(ParquetError::InvalidFile(String::from_str("Not enough bytes")));
        }
        let slice = vstd::slice::slice_subrange(self.data, self.pos, self.pos + n);
        self.pos = self.pos + n;
        Ok(slice)
    }

    /// Read a field header in Thrift Compact Protocol.
    /// Returns (field_id, type_id) or None for stop byte.
    pub fn read_field_header(&mut self) -> (r: Option<(i16, u8)>)
        requires
            old(self).wf(),
        ensures
            final(self).wf(),
            final(self).bytes() == old(self).bytes(),
            field_header_spec(old(self).bytes(), old(self).position(), old(self).field_id()) == (
                r,
                (final(self).position() - old(self).position()) as nat,
                final(self).field_id(),
            ),
            final(self).position() >= old(self).position(),
    {
        if self.pos >= self.data.len() {
            return None;
        }
        let byte = self.data[self.pos];
        if byte == 0 {
            self.pos = self.pos + 1;
            return None;
        }
        self.pos = self.pos + 1;
        let field_delta = (byte >> 4) & 0x0F;
        let field_type = byte & 0x0F;
        assert(field_delta == byte / 16 && field_type == byte % 16) by (bit_vector)
            requires
                field_delta == (byte >> 4) & 0x0F,
                field_type == byte & 0x0F,
        ;
        if field_delta == 0 {
            match self.read_i32() {
                Ok(fid) => {
                    self.current_field_id = fid as i16;
                    return Some((self.current_field_id, field_type));
                },
                Err(_) => {
                    return None;
                },
            }
        }
        let sum: i32 = self.current_field_id as i32 + field_delta as i32;
        self.current_field_id = if sum > 32767 {
            (sum - 65536) as i16
        } else {
            sum as i16
        };
        Some((self.current_field_id, field_type))
    }

    /// Read a list header: (element_type, count)
    pub fn read_list_header(&mut self) -> (r: Result<(u8, usize), ParquetError>)
        requires
            old(self).wf(),
        ensures
            final(self).wf(),
            final(self).bytes() == old(self).bytes(),
            final(self).field_id() == old(self).field_id(),
            r is Ok ==> final(self).position() > old(self).position(),
            match r {
                Ok((et, count)) => list_header_spec(old(self).bytes(), old(self).position()) == Ok::<
                    (u8, usize, nat),
                    ErrorModel,
                >((et, count, (final(self).position() - old(self).position()) as nat)),
                Err(e) => list_header_spec(old(self).bytes(), old(self).position()) == Err::<
                    (u8, usize, nat),
                    ErrorModel,
                >(e@),
            },
    {
        let header = match self.read_byte() {
            Ok(b) => b,
            Err(e) => {
                return Err(e);
            },
        };
        let size_hi = (header >> 4) & 0x0F;
        let elem_type = header & 0x0F;
        assert(size_hi == header / 16 && elem_type == header % 16) by (bit_vector)
            requires
                size_hi == (header >> 4) & 0x0F,
                elem_type == header & 0x0F,
        ;
        let count = if size_hi == 0x0F {
            match self.read_varint() {
                Ok(v) => v as usize,
                Err(e) => {
                    return Err(e);
                },
            }
        } else {
            size_hi as usize
        };
        Ok((elem_type, count))
    }

    /// Skip a field of the given type
    #[verifier::rlimit(60)]
    #[verifier::spinoff_prover]
    pub fn skip_field(&mut self, field_type: u8) -> (r: Result<(), ParquetError>)
        requires
            old(self).wf(),
        ensures
            final(self).wf(),
            final(self).bytes() == old(self).bytes(),
            match r {
                Ok(_) => {
                    &&& skip_value(old(self).bytes(), old(self).position(), field_type) == Ok::<
                        nat,
                        ErrorModel,
                    >((final(self).position() - old(self).position()) as nat)
                    &&& final(self).position() >= old(self).position()
                    &&& final(self).field_id() == old(self).field_id()
                },
                Err(e) => skip_value(old(self).bytes(), old(self).position(), field_type) == Err::<
                    nat,
                    ErrorModel,
                >(e@),
            },
        decreases old(self).bytes().len() - old(self).position(), 2nat,
    {
        if field_type == 1 || field_type == 2 {
            Ok(())
        } else if field_type == 7 {
            match self.read_bytes(8) {
                Ok(_) => Ok(()),
                Err(e) => Err(e),
            }
        } else if field_type == 8 {
            let len = match self.read_varint() {
                Ok(v) => v as usize,
                Err(e) => {
                    return Err(e);
                },
            };
            match self.read_bytes(len) {
                Ok(_) => Ok(()),
                Err(e) => Err(e),
            }
        } else if field_type == 9 || field_type == 10 {
            let ghost p_old = self.pos as int;
            let (et, count) = match self.read_list_header() {
                Ok(h) => h,
                Err(e) => {
                    return Err(e);
                },
            };
            let ghost p0 = self.pos as int;
            let r = self.skip_elements(et, count);
            proof {
                assert(skip_value(self.data@, p_old, field_type) == after(
                    skip_elements(self.data@, p0, et, count as nat),
                    (p0 - p_old) as nat,
                ));
            }
            r
        } else if field_type == 11 {
            let ghost p_old = self.pos as int;
            let count = match self.read_varint() {
                Ok(v) => v as usize,
                Err(e) => {
                    return Err(e);
                },
            };
            if count > 0 {
                let types = match self.read_byte() {
                    Ok(b) => b,
                    Err(e) => {
                        return Err(e);
                    },
                };
                let key_type = (types >> 4) & 0x0F;
                let val_type = types & 0x0F;
                assert(key_type == types / 16 && val_type == types % 16) by (bit_vector)
                    requires
                        key_type == (types >> 4) & 0x0F,
                        val_type == types & 0x0F,
                ;
                let ghost p0 = self.pos as int;
                let r = self.skip_pairs(key_type, val_type, count);
                proof {
                    assert(skip_value(self.data@, p_old, field_type) == after(
                        skip_pairs(self.data@, p0, key_type, val_type, count as nat),
                        (p0 - p_old) as nat,
                    ));
                }
                r
            } else {
                Ok(())
            }
        } else if field_type == 12 {
            let prev_field_id = self.current_field_id;
            self.current_field_id = 0;
            match self.skip_struct() {
                Ok(_) => {
                    self.current_field_id = prev_field_id;
                    Ok(())
                },
                Err(e) => Err(e),
            }
        } else {
            match self.read_varint() {
                Ok(_) => Ok(()),
                Err(e) => Err(e),
            }
        }
    }

    /// Skip `count` values of one type.
    fn skip_elements(&mut self, et: u8, count: usize) -> (r: Result<(), ParquetError>)
        requires
            old(self).wf(),
        ensures
            final(self).wf(),
            final(self).bytes() == old(self).bytes(),
            match r {
                Ok(_) => {
                    &&& skip_elements(old(self).bytes(), old(self).position(), et, count as nat)
                        == Ok::<nat, ErrorModel>((final(self).position() - old(self).position()) as nat)
                    &&& final(self).position() >= old(self).position()
                    &&& final(self).field_id() == old(self).field_id()
                },
                Err(e) => skip_elements(old(self).bytes(), old(self).position(), et, count as nat)
                    == Err::<nat, ErrorModel>(e@),
            },
        decreases old(self).bytes().len() - old(self).position(), 3nat,
    {
        let ghost data = self.data@;
        let ghost p0 = self.pos as int;
        let mut i: usize = 0;
        while i < count
            invariant
                self.wf(),
                self.data@ == data,
                data == old(self).data@,
                p0 == old(self).pos,
                self.current_field_id == old(self).current_field_id,
                self.pos >= p0,
                i <= count,
                skip_elements(data, p0, et, count as nat) == after(
                    skip_elements(data, self.pos as int, et, (count - i) as nat),
                    (self.pos - p0) as nat,
                ),
            decreases count - i,
        {
            match self.skip_field(et) {
                Ok(_) => {},
                Err(e) => {
                    return Err(e);
                },
            }
            i = i + 1;
        }
        Ok(())
    }

    /// Skip `count` key/value pairs.
    fn skip_pairs(&mut self, key_type: u8, val_type: u8, count: usize) -> (r: Result<(), ParquetError>)
        requires
            old(self).wf(),
        ensures
            final(self).wf(),
            final(self).bytes() == old(self).bytes(),
            match r {
                Ok(_) => {
                    &&& skip_pairs(old(self).bytes(), old(self).position(), key_type, val_type, count as nat)
                        == Ok::<nat, ErrorModel>((final(self).position() - old(self).position()) as nat)
                    &&& final(self).position() >= old(self).position()
                    &&& final(self).field_id() == old(self).field_id()
                },
                Err(e) => skip_pairs(old(self).bytes(), old(self).position(), key_type, val_type, count as nat)
                    == Err::<nat, ErrorModel>(e@),
            },
        decreases old(self).bytes().len() - old(self).position(), 4nat,
    {
        let ghost data = self.data@;
        let ghost p0 = self.pos as int;
        let mut i: usize = 0;
        while i < count
            invariant
                self.wf(),
                self.data@ == data,
                data == old(self).data@,
                p0 == old(self).pos,
                self.current_field_id == old(self).current_field_id,
                self.pos >= p0,
                i <= count,
                skip_pairs(data, p0, key_type, val_type, count as nat) == after(
                    skip_pairs(data, self.pos as int, key_type, val_type, (count - i) as nat),
                    (self.pos - p0) as nat,
                ),
            decreases count - i,
        {
            let ghost p = self.pos as int;
            match self.skip_field(key_type) {
                Ok(_) => {},
                Err(e) => {
                    return Err(e);
                },
            }
            let ghost p1 = self.pos as int;
            match self.skip_field(val_type) {
                Ok(_) => {},
                Err(e) => {
                    return Err(e);
                },
            }
            i = i + 1;
        }
        Ok(())
    }

    /// Skip the fields of a struct up to and including its stop byte.
    fn skip_struct(&mut self) -> (r: Result<(), ParquetError>)
        requires
            old(self).wf(),
        ensures
            final(self).wf(),
            final(self).bytes() == old(self).bytes(),
            match r {
                Ok(_) => {
                    &&& skip_struct_fields(old(self).bytes(), old(self).position(), old(self).field_id())
                        == Ok::<nat, ErrorModel>((final(self).position() - old(self).position()) as nat)
                    &&& final(self).position() >= old(self).position()
                },
                Err(e) => skip_struct_fields(old(self).bytes(), old(self).position(), old(self).field_id())
                    == Err::<nat, ErrorModel>(e@),
            },
        decreases old(self).bytes().len() - old(self).position(), 1nat,
    {
        let ghost data = self.data@;
        let ghost p0 = self.pos as int;
        let ghost f0 = self.current_field_id;
        loop
            invariant_except_break
                self.wf(),
                self.data@ == data,
                data == old(self).data@,
                p0 == old(self).pos,
                f0 == old(self).current_field_id,
                self.pos >= p0,
                skip_struct_fields(data, p0, f0) == after(
                    skip_struct_fields(data, self.pos as int, self.current_field_id),
                    (self.pos - p0) as nat,
                ),
            ensures
                self.wf(),
                self.data@ == data,
                self.pos >= p0,
                skip_struct_fields(data, p0, f0) == Ok::<nat, ErrorModel>((self.pos - p0) as nat),
            decreases self.data@.len() - self.pos,
        {
            match self.read_field_header() {
                Some((_, ft)) => {
                    match self.skip_field(ft) {
                        Ok(_) => {},
                        Err(e) => {
                            return Err(e);
                        },
                    }
                },
                None => {
                    break ;
                },
            }
        }
        Ok(())
    }
}

/// Zigzag decoding of a 32-bit varint value.
pub fn zigzag_decode32(v: u32) -> (r: i32)
    ensures
        r == zigzag32(v),
{
    assert((v & 1 == 0) == (v % 2 == 0)) by (bit_vector);
    assert(v >> 1 == v / 2) by (bit_vector);
    if v & 1 == 0 {
        (v >> 1) as i32
    } else {
        -((v >> 1) as i32) - 1
    }
}

/// Zigzag decoding of a 64-bit varint value.
pub fn zigzag_decode64(v: u64) -> (r: i64)
    ensures
        r == zigzag64(v),
{
    assert((v & 1 == 0) == (v % 2 == 0)) by (bit_vector);
    assert(v >> 1 == v / 2) by (bit_vector);
    if v & 1 == 0 {
        (v >> 1) as i64
    } else {
        -((v >> 1) as i64) - 1
    }
}

} // verus!
