//! Decoding of the footer's FileMetaData and of the structs it holds.
//!
//! Each struct is described by a spec function that walks its fields, as the
//! Compact Protocol lays them out, and folds them into what the struct says.
//! A nested struct numbers its fields from zero again, and the enclosing
//! struct's numbering resumes after it.

use vstd::prelude::*;
use crate::types::{ParquetType, ParquetError, ErrorModel, Encoding, Compression, ColumnMetadata, ColumnModel,
    RowGroupMetadata, RowGroupModel, ParquetMetadata, MetadataModel, parquet_type_of_code, encoding_of_code,
    compression_of_code, message_with_count, string_models, column_models, row_group_models};
use crate::text::decimal;
use crate::thrift::{ThriftReader, read_i32_spec, read_i64_spec, read_string_spec, skip_value, field_header_spec,
    list_header_spec, remaining_from, after_with};

verus! {

/// What the fields of a SchemaElement said so far.
pub struct SchemaFields {
    pub name: Seq<char>,
    pub physical_type: Option<ParquetType>,
    pub type_length: i32,
}

/// The effect of one SchemaElement field with id `id` and type `ty` at `pos`.
#[verifier::opaque]
pub open spec fn schema_field(data: Seq<u8>, pos: int, id: i16, ty: u8, acc: SchemaFields) -> Result<(SchemaFields, nat), ErrorModel> {
    if id == 1 {
        let (r, c) = read_i32_spec(data, pos);
        match r {
            Ok(code) => match parquet_type_of_code(code) {
                Some(t) => Ok((SchemaFields { physical_type: Some(t), ..acc }, c)),
                None => Err(ErrorModel::UnsupportedType("Unknown physical type code: "@ + decimal(code as int))),
            },
            Err(e) => Err(e),
        }
    } else if id == 2 {
        let (r, c) = read_i32_spec(data, pos);
        match r {
            Ok(len) => Ok((SchemaFields { type_length: len, ..acc }, c)),
            Err(e) => Err(e),
        }
    } else if id == 3 || id == 5 {
        let (r, c) = read_i32_spec(data, pos);
        match r {
            Ok(_) => Ok((acc, c)),
            Err(e) => Err(e),
        }
    } else if id == 4 {
        match read_string_spec(data, pos) {
            Ok((name, c)) => Ok((SchemaFields { name, ..acc }, c)),
            Err(e) => Err(e),
        }
    } else {
        match skip_value(data, pos, ty) {
            Ok(c) => Ok((acc, c)),
            Err(e) => Err(e),
        }
    }
}

/// The fields of a SchemaElement from `pos` up to its stop byte.
pub open spec fn schema_fields(data: Seq<u8>, pos: int, fid: i16, acc: SchemaFields) -> Result<(SchemaFields, nat), ErrorModel>
    decreases remaining_from(data, pos),
{
    let (h, c, next_fid) = field_header_spec(data, pos, fid);
    match h {
        None => Ok((acc, c)),
        Some((id, ty)) => match schema_field(data, pos + c, id, ty, acc) {
            Ok((acc2, c2)) => after_with(schema_fields(data, pos + c + c2, next_fid, acc2), c + c2),
            Err(e) => Err(e),
        },
    }
}

/// The physical type of a schema element: a fixed-length byte array takes its
/// length from the element's type_length field.
pub open spec fn with_type_length(t: Option<ParquetType>, type_length: i32) -> Option<ParquetType> {
    match t {
        Some(ParquetType::FixedLenByteArray(_)) => Some(ParquetType::FixedLenByteArray(type_length)),
        _ => t,
    }
}

/// A SchemaElement at `pos`: its name and physical type (none for a group).
pub open spec fn schema_element_spec(data: Seq<u8>, pos: int) -> Result<((Seq<char>, Option<ParquetType>), nat), ErrorModel> {
    match schema_fields(data, pos, 0, SchemaFields { name: Seq::empty(), physical_type: None, type_length: 0 }) {
        Ok((a, c)) => Ok(((a.name, with_type_length(a.physical_type, a.type_length)), c)),
        Err(e) => Err(e),
    }
}

/// What the fields of a ColumnMetaData said so far.
pub struct ColumnMetaFields {
    pub physical_type: ParquetType,
    pub encoding: Encoding,
    pub compression: Compression,
    pub num_values: i64,
    pub total_uncompressed_size: i64,
    pub total_compressed_size: i64,
    pub data_offset: i64,
    pub path: Seq<Seq<char>>,
}

/// Reading `count` encoding codes: the last one read is the column's encoding.
pub open spec fn encodings_list(data: Seq<u8>, pos: int, count: nat, enc: Encoding) -> Result<(Encoding, nat), ErrorModel>
    decreases count,
{
    if count == 0 {
        Ok((enc, 0))
    } else {
        let (r, c) = read_i32_spec(data, pos);
        match r {
            Ok(code) => after_with(encodings_list(data, pos + c, (count - 1) as nat, encoding_of_code(code)), c),
            Err(e) => Err(e),
        }
    }
}

/// Reading `count` strings, appended to `acc`.
pub open spec fn strings_list(data: Seq<u8>, pos: int, count: nat, acc: Seq<Seq<char>>) -> Result<(Seq<Seq<char>>, nat), ErrorModel>
    decreases count,
{
    if count == 0 {
        Ok((acc, 0))
    } else {
        match read_string_spec(data, pos) {
            Ok((s, c)) => after_with(strings_list(data, pos + c, (count - 1) as nat, acc.push(s)), c),
            Err(e) => Err(e),
        }
    }
}

/// An i64 field's value stored by `set`, or the read's error.
pub open spec fn i64_field(data: Seq<u8>, pos: int) -> Result<(i64, nat), ErrorModel> {
    let (r, c) = read_i64_spec(data, pos);
    match r {
        Ok(v) => Ok((v, c)),
        Err(e) => Err(e),
    }
}

/// The effect of one ColumnMetaData field.
#[verifier::opaque]
pub open spec fn column_meta_field(data: Seq<u8>, pos: int, id: i16, ty: u8, acc: ColumnMetaFields) -> Result<(ColumnMetaFields, nat), ErrorModel> {
    if id == 1 {
        let (r, c) = read_i32_spec(data, pos);
        match r {
            Ok(code) => match parquet_type_of_code(code) {
                Some(t) => Ok((ColumnMetaFields { physical_type: t, ..acc }, c)),
                None => Err(ErrorModel::UnsupportedType("Unknown physical type code: "@ + decimal(code as int))),
            },
            Err(e) => Err(e),
        }
    } else if id == 2 {
        match list_header_spec(data, pos) {
            Ok((_, count, c)) => match encodings_list(data, pos + c, count as nat, acc.encoding) {
                Ok((enc, c2)) => Ok((ColumnMetaFields { encoding: enc, ..acc }, c + c2)),
                Err(e) => Err(e),
            },
            Err(e) => Err(e),
        }
    } else if id == 3 {
        match list_header_spec(data, pos) {
            Ok((_, count, c)) => match strings_list(data, pos + c, count as nat, acc.path) {
                Ok((path, c2)) => Ok((ColumnMetaFields { path, ..acc }, c + c2)),
                Err(e) => Err(e),
            },
            Err(e) => Err(e),
        }
    } else if id == 4 {
        let (r, c) = read_i32_spec(data, pos);
        match r {
            Ok(code) => match compression_of_code(code) {
                Some(k) => Ok((ColumnMetaFields { compression: k, ..acc }, c)),
                None => Err(ErrorModel::UnsupportedCompression("Unknown compression code: "@ + decimal(code as int))),
            },
            Err(e) => Err(e),
        }
    } else if id == 5 {
        match i64_field(data, pos) {
            Ok((v, c)) => Ok((ColumnMetaFields { num_values: v, ..acc }, c)),
            Err(e) => Err(e),
        }
    } else if id == 6 {
        match i64_field(data, pos) {
            Ok((v, c)) => Ok((ColumnMetaFields { total_uncompressed_size: v, ..acc }, c)),
            Err(e) => Err(e),
        }
    } else if id == 7 {
        match i64_field(data, pos) {
            Ok((v, c)) => Ok((ColumnMetaFields { total_compressed_size: v, ..acc }, c)),
            Err(e) => Err(e),
        }
    } else if id == 9 {
        match i64_field(data, pos) {
            Ok((v, c)) => Ok((ColumnMetaFields { data_offset: v, ..acc }, c)),
            Err(e) => Err(e),
        }
    } else if id == 10 || id == 11 {
        match i64_field(data, pos) {
            Ok((_, c)) => Ok((acc, c)),
            Err(e) => Err(e),
        }
    } else {
        match skip_value(data, pos, ty) {
            Ok(c) => Ok((acc, c)),
            Err(e) => Err(e),
        }
    }
}

/// The fields of a ColumnMetaData from `pos` up to its stop byte.
pub open spec fn column_meta_fields(data: Seq<u8>, pos: int, fid: i16, acc: ColumnMetaFields) -> Result<(ColumnMetaFields, nat), ErrorModel>
    decreases remaining_from(data, pos),
{
    let (h, c, next_fid) = field_header_spec(data, pos, fid);
    match h {
        None => Ok((acc, c)),
        Some((id, ty)) => match column_meta_field(data, pos + c, id, ty, acc) {
            Ok((acc2, c2)) => after_with(column_meta_fields(data, pos + c + c2, next_fid, acc2), c + c2),
            Err(e) => Err(e),
        },
    }
}

/// The name a column gets from the schema when its metadata names none: the
/// schema element after the root at its position, or `col_` and its index.
pub open spec fn default_column_name(col_index: nat, schema_names: Seq<Seq<char>>) -> Seq<char> {
    if col_index + 1 < schema_names.len() {
        schema_names[col_index + 1int]
    } else {
        "col_"@ + decimal(col_index as int)
    }
}

/// The starting values of a ColumnMetaData's fields.
pub open spec fn column_meta_start() -> ColumnMetaFields {
    ColumnMetaFields {
        physical_type: ParquetType::ByteArray,
        encoding: Encoding::Plain,
        compression: Compression::Uncompressed,
        num_values: 0,
        total_uncompressed_size: 0,
        total_compressed_size: 0,
        data_offset: 0,
        path: Seq::empty(),
    }
}

/// A ColumnMetaData struct at `pos`: the column is named by the last element of
/// its path in the schema, else by the schema.
pub open spec fn column_metadata_spec(data: Seq<u8>, pos: int, col_index: nat, schema_names: Seq<Seq<char>>) -> Result<(ColumnModel, nat), ErrorModel> {
    match column_meta_fields(data, pos, 0, column_meta_start()) {
        Ok((a, c)) => Ok((
            ColumnModel {
                name: if a.path.len() > 0 { a.path.last() } else { default_column_name(col_index, schema_names) },
                physical_type: a.physical_type,
                encoding: a.encoding,
                compression: a.compression,
                num_values: a.num_values,
                data_offset: a.data_offset,
                total_compressed_size: a.total_compressed_size,
                total_uncompressed_size: a.total_uncompressed_size,
            },
            c,
        )),
        Err(e) => Err(e),
    }
}

/// What the fields of a ColumnChunk said so far.
pub struct ChunkFields {
    pub file_offset: i64,
    pub meta: Option<ColumnModel>,
}

/// The effect of one ColumnChunk field.
#[verifier::opaque]
pub open spec fn chunk_field(data: Seq<u8>, pos: int, id: i16, ty: u8, acc: ChunkFields, col_index: nat, schema_names: Seq<Seq<char>>) -> Result<(ChunkFields, nat), ErrorModel> {
    if id == 2 {
        match i64_field(data, pos) {
            Ok((v, c)) => Ok((ChunkFields { file_offset: v, ..acc }, c)),
            Err(e) => Err(e),
        }
    } else if id == 3 {
        match column_metadata_spec(data, pos, col_index, schema_names) {
            Ok((m, c)) => Ok((ChunkFields { meta: Some(m), ..acc }, c)),
            Err(e) => Err(e),
        }
    } else {
        match skip_value(data, pos, ty) {
            Ok(c) => Ok((acc, c)),
            Err(e) => Err(e),
        }
    }
}

/// The fields of a ColumnChunk from `pos` up to its stop byte.
pub open spec fn chunk_fields(data: Seq<u8>, pos: int, fid: i16, acc: ChunkFields, col_index: nat, schema_names: Seq<Seq<char>>) -> Result<(ChunkFields, nat), ErrorModel>
    decreases remaining_from(data, pos),
{
    let (h, c, next_fid) = field_header_spec(data, pos, fid);
    match h {
        None => Ok((acc, c)),
        Some((id, ty)) => match chunk_field(data, pos + c, id, ty, acc, col_index, schema_names) {
            Ok((acc2, c2)) => after_with(chunk_fields(data, pos + c + c2, next_fid, acc2, col_index, schema_names), c + c2),
            Err(e) => Err(e),
        },
    }
}

/// The physical type the schema gives a column: that of the schema element after
/// the root at its position, else a byte array.
pub open spec fn default_column_type(col_index: nat, schema_types: Seq<Option<ParquetType>>) -> ParquetType {
    if col_index + 1 < schema_types.len() && schema_types[col_index + 1int] is Some {
        schema_types[col_index + 1int]->Some_0
    } else {
        ParquetType::ByteArray
    }
}

/// The column a ColumnChunk describes: its ColumnMetaData, whose data offset
/// falls back to the chunk's file offset when zero; without one, a plain
/// uncompressed column named and typed by the schema, at the file offset.
pub open spec fn finish_chunk(a: ChunkFields, col_index: nat, schema_names: Seq<Seq<char>>, schema_types: Seq<Option<ParquetType>>) -> ColumnModel {
    match a.meta {
        Some(m) => if m.data_offset == 0 { ColumnModel { data_offset: a.file_offset, ..m } } else { m },
        None => ColumnModel {
            name: default_column_name(col_index, schema_names),
            physical_type: default_column_type(col_index, schema_types),
            encoding: Encoding::Plain,
            compression: Compression::Uncompressed,
            num_values: 0,
            data_offset: a.file_offset,
            total_compressed_size: 0,
            total_uncompressed_size: 0,
        },
    }
}

/// A column's data starts at the data page offset of its ColumnMetaData,
/// whatever the chunk's file offset; only where that offset is zero, or the
/// chunk carries no ColumnMetaData, does the file offset stand in.
pub proof fn lemma_chunk_data_offset(
    a: ChunkFields,
    col_index: nat,
    schema_names: Seq<Seq<char>>,
    schema_types: Seq<Option<ParquetType>>,
)
    ensures
        a.meta matches Some(m) ==> (m.data_offset != 0 ==> finish_chunk(a, col_index, schema_names, schema_types)
            == m),
        a.meta matches Some(m) ==> (m.data_offset == 0 ==> finish_chunk(a, col_index, schema_names, schema_types)
            == (ColumnModel { data_offset: a.file_offset, ..m })),
        a.meta is None ==> finish_chunk(a, col_index, schema_names, schema_types).data_offset == a.file_offset,
{
}

/// Field 9 of a ColumnMetaData, its data page offset, sets the column's data
/// offset; field 2 of a ColumnChunk, its file offset, sets only the chunk's.
pub proof fn lemma_offset_fields(
    data: Seq<u8>,
    pos: int,
    ty: u8,
    acc: ColumnMetaFields,
    chunk: ChunkFields,
    col_index: nat,
    schema_names: Seq<Seq<char>>,
)
    ensures
        i64_field(data, pos) matches Ok((v, c)) ==> column_meta_field(data, pos, 9, ty, acc) == Ok::<
            (ColumnMetaFields, nat),
            ErrorModel,
        >((ColumnMetaFields { data_offset: v, ..acc }, c)),
        i64_field(data, pos) matches Ok((v, c)) ==> chunk_field(data, pos, 2, ty, chunk, col_index, schema_names)
            == Ok::<(ChunkFields, nat), ErrorModel>((ChunkFields { file_offset: v, ..chunk }, c)),
{
    reveal(column_meta_field);
    reveal(chunk_field);
}

/// A ColumnChunk struct at `pos`, the `col_index`-th of its row group.
pub open spec fn column_chunk_spec(data: Seq<u8>, pos: int, col_index: nat, schema_names: Seq<Seq<char>>, schema_types: Seq<Option<ParquetType>>) -> Result<(ColumnModel, nat), ErrorModel> {
    match chunk_fields(data, pos, 0, ChunkFields { file_offset: 0, meta: None }, col_index, schema_names) {
        Ok((a, c)) => Ok((finish_chunk(a, col_index, schema_names, schema_types), c)),
        Err(e) => Err(e),
    }
}

/// Reading `count` column chunks, numbered from `index`, appended to `acc`.
pub open spec fn chunks_list(data: Seq<u8>, pos: int, index: nat, count: nat, schema_names: Seq<Seq<char>>, schema_types: Seq<Option<ParquetType>>, acc: Seq<ColumnModel>) -> Result<(Seq<ColumnModel>, nat), ErrorModel>
    decreases count,
{
    if count == 0 {
        Ok((acc, 0))
    } else {
        match column_chunk_spec(data, pos, index, schema_names, schema_types) {
            Ok((col, c)) => after_with(chunks_list(data, pos + c, index + 1, (count - 1) as nat, schema_names, schema_types, acc.push(col)), c),
            Err(e) => Err(e),
        }
    }
}

/// The effect of one RowGroup field.
#[verifier::opaque]
pub open spec fn row_group_field(data: Seq<u8>, pos: int, id: i16, ty: u8, acc: RowGroupModel, schema_names: Seq<Seq<char>>, schema_types: Seq<Option<ParquetType>>) -> Result<(RowGroupModel, nat), ErrorModel> {
    if id == 1 {
        match list_header_spec(data, pos) {
            Ok((_, count, c)) => match chunks_list(data, pos + c, 0, count as nat, schema_names, schema_types, acc.columns) {
                Ok((cols, c2)) => Ok((RowGroupModel { columns: cols, ..acc }, c + c2)),
                Err(e) => Err(e),
            },
            Err(e) => Err(e),
        }
    } else if id == 2 {
        match i64_field(data, pos) {
            Ok((v, c)) => Ok((RowGroupModel { total_byte_size: v, ..acc }, c)),
            Err(e) => Err(e),
        }
    } else if id == 3 {
        match i64_field(data, pos) {
            Ok((v, c)) => Ok((RowGroupModel { num_rows: v, ..acc }, c)),
            Err(e) => Err(e),
        }
    } else {
        match skip_value(data, pos, ty) {
            Ok(c) => Ok((acc, c)),
            Err(e) => Err(e),
        }
    }
}

/// The fields of a RowGroup from `pos` up to its stop byte.
pub open spec fn row_group_fields(data: Seq<u8>, pos: int, fid: i16, acc: RowGroupModel, schema_names: Seq<Seq<char>>, schema_types: Seq<Option<ParquetType>>) -> Result<(RowGroupModel, nat), ErrorModel>
    decreases remaining_from(data, pos),
{
    let (h, c, next_fid) = field_header_spec(data, pos, fid);
    match h {
        None => Ok((acc, c)),
        Some((id, ty)) => match row_group_field(data, pos + c, id, ty, acc, schema_names, schema_types) {
            Ok((acc2, c2)) => after_with(row_group_fields(data, pos + c + c2, next_fid, acc2, schema_names, schema_types), c + c2),
            Err(e) => Err(e),
        },
    }
}

/// A RowGroup struct at `pos`.
pub open spec fn row_group_spec(data: Seq<u8>, pos: int, schema_names: Seq<Seq<char>>, schema_types: Seq<Option<ParquetType>>) -> Result<(RowGroupModel, nat), ErrorModel> {
    row_group_fields(data, pos, 0, RowGroupModel { columns: Seq::empty(), num_rows: 0, total_byte_size: 0 }, schema_names, schema_types)
}

/// What the fields of a FileMetaData said so far.
pub struct FileFields {
    pub version: i32,
    pub num_rows: i64,
    pub schema_names: Seq<Seq<char>>,
    pub schema_types: Seq<Option<ParquetType>>,
    pub row_groups: Seq<RowGroupModel>,
    pub created_by: Option<Seq<char>>,
}

/// Reading `count` schema elements, appended to the names and types so far.
pub open spec fn schema_list(data: Seq<u8>, pos: int, count: nat, names: Seq<Seq<char>>, types: Seq<Option<ParquetType>>) -> Result<((Seq<Seq<char>>, Seq<Option<ParquetType>>), nat), ErrorModel>
    decreases count,
{
    if count == 0 {
        Ok(((names, types), 0))
    } else {
        match schema_element_spec(data, pos) {
            Ok(((n, t), c)) => after_with(schema_list(data, pos + c, (count - 1) as nat, names.push(n), types.push(t)), c),
            Err(e) => Err(e),
        }
    }
}

/// Reading `count` row groups, appended to `acc`.
pub open spec fn row_group_list(data: Seq<u8>, pos: int, count: nat, schema_names: Seq<Seq<char>>, schema_types: Seq<Option<ParquetType>>, acc: Seq<RowGroupModel>) -> Result<(Seq<RowGroupModel>, nat), ErrorModel>
    decreases count,
{
    if count == 0 {
        Ok((acc, 0))
    } else {
        match row_group_spec(data, pos, schema_names, schema_types) {
            Ok((g, c)) => after_with(row_group_list(data, pos + c, (count - 1) as nat, schema_names, schema_types, acc.push(g)), c),
            Err(e) => Err(e),
        }
    }
}

/// The effect of one FileMetaData field.
#[verifier::opaque]
pub open spec fn file_field(data: Seq<u8>, pos: int, id: i16, ty: u8, acc: FileFields) -> Result<(FileFields, nat), ErrorModel> {
    if id == 1 {
        let (r, c) = read_i32_spec(data, pos);
        match r {
            Ok(v) => Ok((FileFields { version: v, ..acc }, c)),
            Err(e) => Err(e),
        }
    } else if id == 2 {
        match list_header_spec(data, pos) {
            Ok((_, count, c)) => match schema_list(data, pos + c, count as nat, acc.schema_names, acc.schema_types) {
                Ok(((names, types), c2)) => Ok((FileFields { schema_names: names, schema_types: types, ..acc }, c + c2)),
                Err(e) => Err(e),
            },
            Err(e) => Err(e),
        }
    } else if id == 3 {
        match i64_field(data, pos) {
            Ok((v, c)) => Ok((FileFields { num_rows: v, ..acc }, c)),
            Err(e) => Err(e),
        }
    } else if id == 4 {
        match list_header_spec(data, pos) {
            Ok((_, count, c)) => match row_group_list(data, pos + c, count as nat, acc.schema_names, acc.schema_types, acc.row_groups) {
                Ok((groups, c2)) => Ok((FileFields { row_groups: groups, ..acc }, c + c2)),
                Err(e) => Err(e),
            },
            Err(e) => Err(e),
        }
    } else if id == 6 {
        match read_string_spec(data, pos) {
            Ok((s, c)) => Ok((FileFields { created_by: Some(s), ..acc }, c)),
            Err(e) => Err(e),
        }
    } else {
        match skip_value(data, pos, ty) {
            Ok(c) => Ok((acc, c)),
            Err(e) => Err(e),
        }
    }
}

/// The fields of a FileMetaData from `pos` up to its stop byte.
pub open spec fn file_fields(data: Seq<u8>, pos: int, fid: i16, acc: FileFields) -> Result<(FileFields, nat), ErrorModel>
    decreases remaining_from(data, pos),
{
    let (h, c, next_fid) = field_header_spec(data, pos, fid);
    match h {
        None => Ok((acc, c)),
        Some((id, ty)) => match file_field(data, pos + c, id, ty, acc) {
            Ok((acc2, c2)) => after_with(file_fields(data, pos + c + c2, next_fid, acc2), c + c2),
            Err(e) => Err(e),
        },
    }
}

/// The starting values of a FileMetaData's fields.
pub open spec fn file_start() -> FileFields {
    FileFields {
        version: 0,
        num_rows: 0,
        schema_names: Seq::empty(),
        schema_types: Seq::empty(),
        row_groups: Seq::empty(),
        created_by: None,
    }
}

/// The metadata a FileMetaData struct at the start of `footer` describes; the
/// flattened columns are those of the first row group.
pub open spec fn file_metadata_spec(footer: Seq<u8>) -> Result<MetadataModel, ErrorModel> {
    match file_fields(footer, 0, 0, file_start()) {
        Ok((a, _)) => {
            let columns = if a.row_groups.len() > 0 { a.row_groups[0].columns } else { Seq::empty() };
            Ok(MetadataModel {
                version: a.version,
                num_rows: a.num_rows,
                num_columns: columns.len() as usize,
                schema_names: a.schema_names,
                row_groups: a.row_groups,
                columns,
                created_by: a.created_by,
            })
        },
        Err(e) => Err(e),
    }
}

/// The four magic bytes "PAR1" that open and close a Parquet file.
pub open spec fn parquet_magic() -> Seq<u8> {
    seq![0x50u8, 0x41u8, 0x52u8, 0x31u8]
}

/// The little-endian unsigned value of four bytes.
pub open spec fn le_u32(b: Seq<u8>) -> nat {
    b[0] as nat + 256 * (b[1] as nat) + 65536 * (b[2] as nat) + 16777216 * (b[3] as nat)
}

/// The length of the footer that a file's last eight bytes give.
pub open spec fn footer_length(data: Seq<u8>) -> int {
    (le_u32(data.subrange(data.len() - 8, data.len() - 4)) as usize) as int
}

/// The metadata of a Parquet file: it must be at least twelve bytes, open and
/// close with "PAR1", and end with the little-endian length of the footer before
/// the closing magic; the footer lies just before that length.
pub open spec fn read_metadata_spec(data: Seq<u8>) -> Result<MetadataModel, ErrorModel> {
    let n = data.len();
    if n < 12 {
        Err(ErrorModel::InvalidFile("File too small to be valid Parquet"@))
    } else if data.subrange(0, 4) != parquet_magic() {
        Err(ErrorModel::InvalidFile("Missing PAR1 header magic"@))
    } else if data.subrange(n - 4, n as int) != parquet_magic() {
        Err(ErrorModel::InvalidFile("Missing PAR1 footer magic"@))
    } else {
        let footer_len = footer_length(data);
        if footer_len + 8 > n {
            Err(ErrorModel::InvalidFile("Footer length exceeds file size"@))
        } else {
            file_metadata_spec(data.subrange(n - 8 - footer_len, n - 8))
        }
    }
}

/// Metadata is read only from files of at least twelve bytes that begin and
/// end with `PAR1`.
pub proof fn lemma_metadata_needs_magic(data: Seq<u8>)
    ensures
        read_metadata_spec(data) is Ok ==> {
            &&& data.len() >= 12
            &&& data.subrange(0, 4) == parquet_magic()
            &&& data.subrange(data.len() - 4, data.len() as int) == parquet_magic()
        },
{
}

/// The flattened columns of a file are those of its first row group (none
/// without one), and the column count is their number.
pub proof fn lemma_metadata_columns(data: Seq<u8>)
    ensures
        read_metadata_spec(data) matches Ok(m) ==> {
            &&& m.num_columns == m.columns.len() as usize
            &&& m.row_groups.len() > 0 ==> m.columns == m.row_groups[0].columns
            &&& m.row_groups.len() == 0 ==> m.columns.len() == 0
        },
{
}

/// Only the footer is read: two files of at least twelve bytes with the same
/// opening four bytes and the same last `k` bytes, which hold the footer, its
/// length and the closing magic, have the same metadata.
pub proof fn lemma_metadata_reads_only_footer(a: Seq<u8>, b: Seq<u8>, k: int)
    requires
        a.len() >= 12,
        b.len() >= 12,
        8 <= k <= a.len(),
        k <= b.len(),
        a.subrange(0, 4) == b.subrange(0, 4),
        a.subrange(a.len() - k, a.len() as int) == b.subrange(b.len() - k, b.len() as int),
        footer_length(a) + 8 <= k,
    ensures
        read_metadata_spec(a) == read_metadata_spec(b),
{
    let na = a.len() as int;
    let nb = b.len() as int;
    let ta = a.subrange(na - k, na);
    let tb = b.subrange(nb - k, nb);
    assert(a.subrange(na - 4, na) =~= ta.subrange(k - 4, k));
    assert(b.subrange(nb - 4, nb) =~= tb.subrange(k - 4, k));
    assert(a.subrange(na - 8, na - 4) =~= ta.subrange(k - 8, k - 4));
    assert(b.subrange(nb - 8, nb - 4) =~= tb.subrange(k - 8, k - 4));
    let f = footer_length(a);
    assert(footer_length(b) == f);
    assert(a.subrange(na - 8 - f, na - 8) =~= ta.subrange(k - 8 - f, k - 8));
    assert(b.subrange(nb - 8 - f, nb - 8) =~= tb.subrange(k - 8 - f, k - 8));
}

/// The fields of a SchemaElement read so far.
struct SchemaElementFields {
    name: String,
    physical_type: Option<ParquetType>,
    type_length: i32,
}

impl View for SchemaElementFields {
    type V = SchemaFields;

    closed spec fn view(&self) -> SchemaFields {
        SchemaFields { name: self.name@, physical_type: self.physical_type, type_length: self.type_length }
    }
}

/// The fields of a ColumnMetaData read so far.
struct ColumnMetaFieldsExec {
    physical_type: ParquetType,
    encoding: Encoding,
    compression: Compression,
    num_values: i64,
    total_uncompressed_size: i64,
    total_compressed_size: i64,
    data_offset: i64,
    path: Vec<String>,
}

impl View for ColumnMetaFieldsExec {
    type V = ColumnMetaFields;

    closed spec fn view(&self) -> ColumnMetaFields {
        ColumnMetaFields {
            physical_type: self.physical_type,
            encoding: self.encoding,
            compression: self.compression,
            num_values: self.num_values,
            total_uncompressed_size: self.total_uncompressed_size,
            total_compressed_size: self.total_compressed_size,
            data_offset: self.data_offset,
            path: string_models(self.path@),
        }
    }
}

/// The fields of a ColumnChunk read so far.
struct ChunkFieldsExec {
    file_offset: i64,
    col_meta: Option<ColumnMetadata>,
}

impl View for ChunkFieldsExec {
    type V = ChunkFields;

    closed spec fn view(&self) -> ChunkFields {
        ChunkFields {
            file_offset: self.file_offset,
            meta: match self.col_meta {
                Some(m) => Some(m@),
                None => None,
            },
        }
    }
}

/// The fields of a FileMetaData read so far.
struct FileFieldsExec {
    version: i32,
    num_rows: i64,
    schema_names: Vec<String>,
    schema_types: Vec<Option<ParquetType>>,
    row_groups: Vec<RowGroupMetadata>,
    created_by: Option<String>,
}

impl View for FileFieldsExec {
    type V = FileFields;

    closed spec fn view(&self) -> FileFields {
        FileFields {
            version: self.version,
            num_rows: self.num_rows,
            schema_names: string_models(self.schema_names@),
            schema_types: self.schema_types@,
            row_groups: row_group_models(self.row_groups@),
            created_by: match self.created_by {
                Some(s) => Some(s@),
                None => None,
            },
        }
    }
}

/// Lightweight Thrift decoder for Parquet footer metadata.
pub struct MetadataReader;

impl MetadataReader {
    /// Read `count` encoding codes; the last one is the column's encoding.
    fn read_encodings(reader: &mut ThriftReader, count: usize, enc: Encoding) -> (r: Result<Encoding, ParquetError>)
        requires
            old(reader).wf(),
        ensures
            final(reader).wf(),
            final(reader).bytes() == old(reader).bytes(),
            final(reader).field_id() == old(reader).field_id(),
            match r {
                Ok(e) => {
                    &&& final(reader).position() >= old(reader).position()
                    &&& encodings_list(old(reader).bytes(), old(reader).position(), count as nat, enc)
                        == Ok::<_, ErrorModel>((e, (final(reader).position() - old(reader).position()) as nat))
                },
                Err(e) => encodings_list(old(reader).bytes(), old(reader).position(), count as nat, enc)
                    == Err::<(Encoding, nat), ErrorModel>(e@),
            },
    {
        let ghost data = reader.bytes();
        let ghost p0 = reader.position();
        let mut encoding = enc;
        let mut i: usize = 0;
        while i < count
            invariant
                reader.wf(),
                reader.bytes() == data,
                data == old(reader).bytes(),
                p0 == old(reader).position(),
                reader.field_id() == old(reader).field_id(),
                reader.position() >= p0,
                i <= count,
                encodings_list(data, p0, count as nat, enc) == after_with(
                    encodings_list(data, reader.position(), (count - i) as nat, encoding),
                    (reader.position() - p0) as nat,
                ),
            decreases count - i,
        {
            let code = match reader.read_i32() {
                Ok(c) => c,
                Err(e) => return Err(e),
            };
            match Encoding::from_thrift(code) {
                Ok(e) => {
                    encoding = e;
                },
                Err(e) => return Err(e),
            }
            i = i + 1;
        }
        Ok(encoding)
    }

    /// Read `count` strings, appending them to `path`.
    fn read_strings(reader: &mut ThriftReader, count: usize, path: &mut Vec<String>) -> (r: Result<(), ParquetError>)
        requires
            old(reader).wf(),
        ensures
            final(reader).wf(),
            final(reader).bytes() == old(reader).bytes(),
            final(reader).field_id() == old(reader).field_id(),
            match r {
                Ok(_) => {
                    &&& final(reader).position() >= old(reader).position()
                    &&& strings_list(old(reader).bytes(), old(reader).position(), count as nat, string_models(old(path)@))
                        == Ok::<_, ErrorModel>((string_models(final(path)@), (final(reader).position() - old(reader).position()) as nat))
                },
                Err(e) => strings_list(old(reader).bytes(), old(reader).position(), count as nat, string_models(old(path)@))
                    == Err::<(Seq<Seq<char>>, nat), ErrorModel>(e@),
            },
    {
        let ghost data = reader.bytes();
        let ghost p0 = reader.position();
        let ghost path0 = string_models(path@);
        let mut i: usize = 0;
        while i < count
            invariant
                reader.wf(),
                reader.bytes() == data,
                data == old(reader).bytes(),
                p0 == old(reader).position(),
                path0 == string_models(old(path)@),
                reader.field_id() == old(reader).field_id(),
                reader.position() >= p0,
                i <= count,
                strings_list(data, p0, count as nat, path0) == after_with(
                    strings_list(data, reader.position(), (count - i) as nat, string_models(path@)),
                    (reader.position() - p0) as nat,
                ),
            decreases count - i,
        {
            let ghost before = string_models(path@);
            let s = match reader.read_string() {
                Ok(s) => s,
                Err(e) => return Err(e),
            };
            let ghost sv = s@;
            path.push(s);
            assert(string_models(path@) =~= before.push(sv));
            i = i + 1;
        }
        Ok(())
    }

    /// Apply one ColumnMetaData field.
    fn parse_column_meta_field(reader: &mut ThriftReader, field_id: i16, field_type: u8, fields: &mut ColumnMetaFieldsExec) -> (r: Result<(), ParquetError>)
        requires
            old(reader).wf(),
        ensures
            final(reader).wf(),
            final(reader).bytes() == old(reader).bytes(),
            match r {
                Ok(_) => {
                    &&& final(reader).position() >= old(reader).position()
                    &&& column_meta_field(old(reader).bytes(), old(reader).position(), field_id, field_type, old(fields)@)
                        == Ok::<_, ErrorModel>((final(fields)@, (final(reader).position() - old(reader).position()) as nat))
                    &&& final(reader).field_id() == old(reader).field_id()
                },
                Err(e) => column_meta_field(old(reader).bytes(), old(reader).position(), field_id, field_type, old(fields)@)
                    == Err::<(ColumnMetaFields, nat), ErrorModel>(e@),
            },
    {
        reveal(column_meta_field);
        if field_id == 1 {
            let code = match reader.read_i32() {
                Ok(c) => c,
                Err(e) => return Err(e),
            };
            match ParquetType::from_thrift(code) {
                Ok(t) => {
                    fields.physical_type = t;
                    Ok(())
                },
                Err(e) => Err(e),
            }
        } else if field_id == 2 {
            let (_et, count) = match reader.read_list_header() {
                Ok(h) => h,
                Err(e) => return Err(e),
            };
            match Self::read_encodings(reader, count, fields.encoding) {
                Ok(enc) => {
                    fields.encoding = enc;
                    Ok(())
                },
                Err(e) => Err(e),
            }
        } else if field_id == 3 {
            let (_et, count) = match reader.read_list_header() {
                Ok(h) => h,
                Err(e) => return Err(e),
            };
            Self::read_strings(reader, count, &mut fields.path)
        } else if field_id == 4 {
            let code = match reader.read_i32() {
                Ok(c) => c,
                Err(e) => return Err(e),
            };
            match Compression::from_thrift(code) {
                Ok(c) => {
                    fields.compression = c;
                    Ok(())
                },
                Err(e) => Err(e),
            }
        } else if field_id == 5 {
            match reader.read_i64() {
                Ok(v) => {
                    fields.num_values = v;
                    Ok(())
                },
                Err(e) => Err(e),
            }
        } else if field_id == 6 {
            match reader.read_i64() {
                Ok(v) => {
                    fields.total_uncompressed_size = v;
                    Ok(())
                },
                Err(e) => Err(e),
            }
        } else if field_id == 7 {
            match reader.read_i64() {
                Ok(v) => {
                    fields.total_compressed_size = v;
                    Ok(())
                },
                Err(e) => Err(e),
            }
        } else if field_id == 9 {
            match reader.read_i64() {
                Ok(v) => {
                    fields.data_offset = v;
                    Ok(())
                },
                Err(e) => Err(e),
            }
        } else if field_id == 10 || field_id == 11 {
            match reader.read_i64() {
                Ok(_) => Ok(()),
                Err(e) => Err(e),
            }
        } else {
            match reader.skip_field(field_type) {
                Ok(_) => Ok(()),
                Err(e) => Err(e),
            }
        }
    }

    /// The name of the `col_index`-th column according to the schema.
    fn default_name(col_index: usize, schema_names: &[String]) -> (s: String)
        requires
            col_index < usize::MAX,
        ensures
            s@ == default_column_name(col_index as nat, string_models(schema_names@)),
    {
        let name_idx = col_index + 1;
        if name_idx < schema_names.len() {
            schema_names[name_idx].clone()
        } else {
            message_with_count("col_", col_index)
        }
    }

    /// Parse the inner ColumnMetaData struct.
    fn parse_column_metadata(
        reader: &mut ThriftReader,
        col_index: usize,
        schema_names: &[String],
        _schema_types: &[Option<ParquetType>],
    ) -> (r: Result<ColumnMetadata, ParquetError>)
        requires
            old(reader).wf(),
            col_index < usize::MAX,
        ensures
            final(reader).wf(),
            final(reader).bytes() == old(reader).bytes(),
            match r {
                Ok(m) => {
                    &&& final(reader).position() >= old(reader).position()
                    &&& final(reader).field_id() == old(reader).field_id()
                    &&& column_metadata_spec(old(reader).bytes(), old(reader).position(), col_index as nat, string_models(schema_names@))
                        == Ok::<_, ErrorModel>((m@, (final(reader).position() - old(reader).position()) as nat))
                },
                Err(e) => column_metadata_spec(old(reader).bytes(), old(reader).position(), col_index as nat, string_models(schema_names@))
                    == Err::<(ColumnModel, nat), ErrorModel>(e@),
            },
    {
        let ghost data = reader.bytes();
        let ghost p0 = reader.position();
        let prev_field_id = reader.current_field_id();
        reader.set_field_id(0);
        let mut fields = ColumnMetaFieldsExec {
            physical_type: ParquetType::ByteArray,
            encoding: Encoding::Plain,
            compression: Compression::Uncompressed,
            num_values: 0,
            total_uncompressed_size: 0,
            total_compressed_size: 0,
            data_offset: 0,
            path: Vec::new(),
        };
        assert(string_models(fields.path@) =~= Seq::<Seq<char>>::empty());
        assert(fields@ == column_meta_start());
        loop
            invariant_except_break
                reader.wf(),
                reader.bytes() == data,
                data == old(reader).bytes(),
                p0 == old(reader).position(),
                prev_field_id == old(reader).field_id(),
                reader.position() >= p0,
                column_meta_fields(data, p0, 0, column_meta_start()) == after_with(
                    column_meta_fields(data, reader.position(), reader.field_id(), fields@),
                    (reader.position() - p0) as nat,
                ),
            ensures
                reader.wf(),
                reader.bytes() == data,
                reader.position() >= p0,
                column_meta_fields(data, p0, 0, column_meta_start())
                    == Ok::<_, ErrorModel>((fields@, (reader.position() - p0) as nat)),
            decreases data.len() - reader.position(),
        {
            let ghost pos_before = reader.position();
            let ghost fid_before = reader.field_id();
            let ghost acc_before = fields@;
            let (field_id, field_type) = match reader.read_field_header() {
                Some(header) => header,
                None => break,
            };
            let ghost fid_next = reader.field_id();
            assert(reader.position() > pos_before);
            match Self::parse_column_meta_field(reader, field_id, field_type, &mut fields) {
                Ok(_) => {},
                Err(e) => return Err(e),
            }
            assert(column_meta_fields(data, pos_before, fid_before, acc_before) == after_with(
                column_meta_fields(data, reader.position(), fid_next, fields@),
                (reader.position() - pos_before) as nat,
            ));
        }
        reader.set_field_id(prev_field_id);
        let name = if fields.path.len() > 0 {
            let last = fields.path.len() - 1;
            fields.path[last].clone()
        } else {
            Self::default_name(col_index, schema_names)
        };
        Ok(ColumnMetadata {
            name,
            physical_type: fields.physical_type,
            encoding: fields.encoding,
            compression: fields.compression,
            num_values: fields.num_values,
            data_offset: fields.data_offset,
            total_compressed_size: fields.total_compressed_size,
            total_uncompressed_size: fields.total_uncompressed_size,
        })
    }

    /// Apply one ColumnChunk field.
    fn parse_chunk_field(
        reader: &mut ThriftReader,
        field_id: i16,
        field_type: u8,
        fields: &mut ChunkFieldsExec,
        col_index: usize,
        schema_names: &[String],
        schema_types: &[Option<ParquetType>],
    ) -> (r: Result<(), ParquetError>)
        requires
            old(reader).wf(),
            col_index < usize::MAX,
        ensures
            final(reader).wf(),
            final(reader).bytes() == old(reader).bytes(),
            match r {
                Ok(_) => {
                    &&& final(reader).position() >= old(reader).position()
                    &&& chunk_field(old(reader).bytes(), old(reader).position(), field_id, field_type, old(fields)@, col_index as nat, string_models(schema_names@))
                        == Ok::<_, ErrorModel>((final(fields)@, (final(reader).position() - old(reader).position()) as nat))
                    &&& final(reader).field_id() == old(reader).field_id()
                },
                Err(e) => chunk_field(old(reader).bytes(), old(reader).position(), field_id, field_type, old(fields)@, col_index as nat, string_models(schema_names@))
                    == Err::<(ChunkFields, nat), ErrorModel>(e@),
            },
    {
        reveal(chunk_field);
        if field_id == 2 {
            match reader.read_i64() {
                Ok(v) => {
                    fields.file_offset = v;
                    Ok(())
                },
                Err(e) => Err(e),
            }
        } else if field_id == 3 {
            match Self::parse_column_metadata(reader, col_index, schema_names, schema_types) {
                Ok(m) => {
                    fields.col_meta = Some(m);
                    Ok(())
                },
                Err(e) => Err(e),
            }
        } else {
            match reader.skip_field(field_type) {
                Ok(_) => Ok(()),
                Err(e) => Err(e),
            }
        }
    }

    /// Parse a ColumnChunk from the Thrift stream.
    fn parse_column_chunk(
        reader: &mut ThriftReader,
        col_index: usize,
        schema_names: &[String],
        schema_types: &[Option<ParquetType>],
    ) -> (r: Result<ColumnMetadata, ParquetError>)
        requires
            old(reader).wf(),
            col_index < usize::MAX,
        ensures
            final(reader).wf(),
            final(reader).bytes() == old(reader).bytes(),
            match r {
                Ok(m) => {
                    &&& final(reader).position() >= old(reader).position()
                    &&& final(reader).field_id() == old(reader).field_id()
                    &&& column_chunk_spec(old(reader).bytes(), old(reader).position(), col_index as nat, string_models(schema_names@), schema_types@)
                        == Ok::<_, ErrorModel>((m@, (final(reader).position() - old(reader).position()) as nat))
                },
                Err(e) => column_chunk_spec(old(reader).bytes(), old(reader).position(), col_index as nat, string_models(schema_names@), schema_types@)
                    == Err::<(ColumnModel, nat), ErrorModel>(e@),
            },
    {
        let ghost data = reader.bytes();
        let ghost p0 = reader.position();
        let ghost names = string_models(schema_names@);
        let prev_field_id = reader.current_field_id();
        reader.set_field_id(0);
        let mut fields = ChunkFieldsExec { file_offset: 0, col_meta: None };
        loop
            invariant_except_break
                reader.wf(),
                reader.bytes() == data,
                data == old(reader).bytes(),
                p0 == old(reader).position(),
                prev_field_id == old(reader).field_id(),
                names == string_models(schema_names@),
                col_index < usize::MAX,
                reader.position() >= p0,
                chunk_fields(data, p0, 0, ChunkFields { file_offset: 0, meta: None }, col_index as nat, names) == after_with(
                    chunk_fields(data, reader.position(), reader.field_id(), fields@, col_index as nat, names),
                    (reader.position() - p0) as nat,
                ),
            ensures
                reader.wf(),
                reader.bytes() == data,
                reader.position() >= p0,
                chunk_fields(data, p0, 0, ChunkFields { file_offset: 0, meta: None }, col_index as nat, names)
                    == Ok::<_, ErrorModel>((fields@, (reader.position() - p0) as nat)),
            decreases data.len() - reader.position(),
        {
            let ghost pos_before = reader.position();
            let ghost fid_before = reader.field_id();
            let ghost acc_before = fields@;
            let (field_id, field_type) = match reader.read_field_header() {
                Some(header) => header,
                None => break,
            };
            let ghost fid_next = reader.field_id();
            assert(reader.position() > pos_before);
            match Self::parse_chunk_field(reader, field_id, field_type, &mut fields, col_index, schema_names, schema_types) {
                Ok(_) => {},
                Err(e) => return Err(e),
            }
            assert(chunk_fields(data, pos_before, fid_before, acc_before, col_index as nat, names) == after_with(
                chunk_fields(data, reader.position(), fid_next, fields@, col_index as nat, names),
                (reader.position() - pos_before) as nat,
            ));
        }
        reader.set_field_id(prev_field_id);
        let file_offset = fields.file_offset;
        match fields.col_meta {
            Some(mut meta) => {
                if meta.data_offset == 0 {
                    meta.data_offset = file_offset;
                }
                Ok(meta)
            },
            None => {
                let name = Self::default_name(col_index, schema_names);
                let name_idx = col_index + 1;
                let physical_type = if name_idx < schema_types.len() {
                    match schema_types[name_idx] {
                        Some(t) => t,
                        None => ParquetType::ByteArray,
                    }
                } else {
                    ParquetType::ByteArray
                };
                Ok(ColumnMetadata {
                    name,
                    physical_type,
                    encoding: Encoding::Plain,
                    compression: Compression::Uncompressed,
                    num_values: 0,
                    data_offset: file_offset,
                    total_compressed_size: 0,
                    total_uncompressed_size: 0,
                })
            },
        }
    }

    /// Read `count` column chunks, appending them to `columns`.
    fn read_chunks(
        reader: &mut ThriftReader,
        count: usize,
        schema_names: &[String],
        schema_types: &[Option<ParquetType>],
        columns: &mut Vec<ColumnMetadata>,
    ) -> (r: Result<(), ParquetError>)
        requires
            old(reader).wf(),
        ensures
            final(reader).wf(),
            final(reader).bytes() == old(reader).bytes(),
            match r {
                Ok(_) => {
                    &&& final(reader).position() >= old(reader).position()
                    &&& final(reader).field_id() == old(reader).field_id()
                    &&& chunks_list(old(reader).bytes(), old(reader).position(), 0, count as nat, string_models(schema_names@), schema_types@, column_models(old(columns)@))
                        == Ok::<_, ErrorModel>((column_models(final(columns)@), (final(reader).position() - old(reader).position()) as nat))
                },
                Err(e) => chunks_list(old(reader).bytes(), old(reader).position(), 0, count as nat, string_models(schema_names@), schema_types@, column_models(old(columns)@))
                    == Err::<(Seq<ColumnModel>, nat), ErrorModel>(e@),
            },
    {
        let ghost data = reader.bytes();
        let ghost p0 = reader.position();
        let ghost names = string_models(schema_names@);
        let ghost cols0 = column_models(columns@);
        let mut i: usize = 0;
        while i < count
            invariant
                reader.wf(),
                reader.bytes() == data,
                data == old(reader).bytes(),
                p0 == old(reader).position(),
                reader.field_id() == old(reader).field_id(),
                names == string_models(schema_names@),
                cols0 == column_models(old(columns)@),
                reader.position() >= p0,
                i <= count,
                chunks_list(data, p0, 0, count as nat, names, schema_types@, cols0) == after_with(
                    chunks_list(data, reader.position(), i as nat, (count - i) as nat, names, schema_types@, column_models(columns@)),
                    (reader.position() - p0) as nat,
                ),
            decreases count - i,
        {
            let ghost before = column_models(columns@);
            let col = match Self::parse_column_chunk(reader, i, schema_names, schema_types) {
                Ok(c) => c,
                Err(e) => return Err(e),
            };
            let ghost cv = col@;
            columns.push(col);
            assert(column_models(columns@) =~= before.push(cv));
            i = i + 1;
        }
        Ok(())
    }

    /// Apply one RowGroup field.
    fn parse_row_group_field(
        reader: &mut ThriftReader,
        field_id: i16,
        field_type: u8,
        group: &mut RowGroupMetadata,
        schema_names: &[String],
        schema_types: &[Option<ParquetType>],
    ) -> (r: Result<(), ParquetError>)
        requires
            old(reader).wf(),
        ensures
            final(reader).wf(),
            final(reader).bytes() == old(reader).bytes(),
            match r {
                Ok(_) => {
                    &&& final(reader).position() >= old(reader).position()
                    &&& row_group_field(old(reader).bytes(), old(reader).position(), field_id, field_type, old(group)@, string_models(schema_names@), schema_types@)
                        == Ok::<_, ErrorModel>((final(group)@, (final(reader).position() - old(reader).position()) as nat))
                    &&& final(reader).field_id() == old(reader).field_id()
                },
                Err(e) => row_group_field(old(reader).bytes(), old(reader).position(), field_id, field_type, old(group)@, string_models(schema_names@), schema_types@)
                    == Err::<(RowGroupModel, nat), ErrorModel>(e@),
            },
    {
        reveal(row_group_field);
        if field_id == 1 {
            let (_et, count) = match reader.read_list_header() {
                Ok(h) => h,
                Err(e) => return Err(e),
            };
            Self::read_chunks(reader, count, schema_names, schema_types, &mut group.columns)
        } else if field_id == 2 {
            match reader.read_i64() {
                Ok(v) => {
                    group.total_byte_size = v;
                    Ok(())
                },
                Err(e) => Err(e),
            }
        } else if field_id == 3 {
            match reader.read_i64() {
                Ok(v) => {
                    group.num_rows = v;
                    Ok(())
                },
                Err(e) => Err(e),
            }
        } else {
            match reader.skip_field(field_type) {
                Ok(_) => Ok(()),
                Err(e) => Err(e),
            }
        }
    }

    /// Parse a RowGroup from the Thrift stream.
    fn parse_row_group(
        reader: &mut ThriftReader,
        schema_names: &[String],
        schema_types: &[Option<ParquetType>],
    ) -> (r: Result<RowGroupMetadata, ParquetError>)
        requires
            old(reader).wf(),
        ensures
            final(reader).wf(),
            final(reader).bytes() == old(reader).bytes(),
            match r {
                Ok(g) => {
                    &&& final(reader).position() >= old(reader).position()
                    &&& final(reader).field_id() == old(reader).field_id()
                    &&& row_group_spec(old(reader).bytes(), old(reader).position(), string_models(schema_names@), schema_types@)
                        == Ok::<_, ErrorModel>((g@, (final(reader).position() - old(reader).position()) as nat))
                },
                Err(e) => row_group_spec(old(reader).bytes(), old(reader).position(), string_models(schema_names@), schema_types@)
                    == Err::<(RowGroupModel, nat), ErrorModel>(e@),
            },
    {
        let ghost data = reader.bytes();
        let ghost p0 = reader.position();
        let ghost names = string_models(schema_names@);
        let prev_field_id = reader.current_field_id();
        reader.set_field_id(0);
        let mut group = RowGroupMetadata { columns: Vec::new(), num_rows: 0, total_byte_size: 0 };
        let ghost start = RowGroupModel { columns: Seq::empty(), num_rows: 0, total_byte_size: 0 };
        assert(column_models(group.columns@) =~= Seq::<ColumnModel>::empty());
        assert(group@ == start);
        loop
            invariant_except_break
                reader.wf(),
                reader.bytes() == data,
                data == old(reader).bytes(),
                p0 == old(reader).position(),
                prev_field_id == old(reader).field_id(),
                names == string_models(schema_names@),
                start == (RowGroupModel { columns: Seq::empty(), num_rows: 0, total_byte_size: 0 }),
                reader.position() >= p0,
                row_group_fields(data, p0, 0, start, names, schema_types@) == after_with(
                    row_group_fields(data, reader.position(), reader.field_id(), group@, names, schema_types@),
                    (reader.position() - p0) as nat,
                ),
            ensures
                reader.wf(),
                reader.bytes() == data,
                reader.position() >= p0,
                row_group_fields(data, p0, 0, start, names, schema_types@)
                    == Ok::<_, ErrorModel>((group@, (reader.position() - p0) as nat)),
            decreases data.len() - reader.position(),
        {
            let ghost pos_before = reader.position();
            let ghost fid_before = reader.field_id();
            let ghost acc_before = group@;
            let (field_id, field_type) = match reader.read_field_header() {
                Some(header) => header,
                None => break,
            };
            let ghost fid_next = reader.field_id();
            assert(reader.position() > pos_before);
            match Self::parse_row_group_field(reader, field_id, field_type, &mut group, schema_names, schema_types) {
                Ok(_) => {},
                Err(e) => return Err(e),
            }
            assert(row_group_fields(data, pos_before, fid_before, acc_before, names, schema_types@) == after_with(
                row_group_fields(data, reader.position(), fid_next, group@, names, schema_types@),
                (reader.position() - pos_before) as nat,
            ));
        }
        reader.set_field_id(prev_field_id);
        Ok(group)
    }

    /// Read `count` schema elements, appending their names and types.
    fn read_schema_list(
        reader: &mut ThriftReader,
        count: usize,
        names: &mut Vec<String>,
        types: &mut Vec<Option<ParquetType>>,
    ) -> (r: Result<(), ParquetError>)
        requires
            old(reader).wf(),
        ensures
            final(reader).wf(),
            final(reader).bytes() == old(reader).bytes(),
            match r {
                Ok(_) => {
                    &&& final(reader).position() >= old(reader).position()
                    &&& final(reader).field_id() == old(reader).field_id()
                    &&& schema_list(old(reader).bytes(), old(reader).position(), count as nat, string_models(old(names)@), old(types)@)
                        == Ok::<_, ErrorModel>(((string_models(final(names)@), final(types)@), (final(reader).position() - old(reader).position()) as nat))
                },
                Err(e) => schema_list(old(reader).bytes(), old(reader).position(), count as nat, string_models(old(names)@), old(types)@)
                    == Err::<((Seq<Seq<char>>, Seq<Option<ParquetType>>), nat), ErrorModel>(e@),
            },
    {
        let ghost data = reader.bytes();
        let ghost p0 = reader.position();
        let ghost names0 = string_models(names@);
        let ghost types0 = types@;
        let mut i: usize = 0;
        while i < count
            invariant
                reader.wf(),
                reader.bytes() == data,
                data == old(reader).bytes(),
                p0 == old(reader).position(),
                reader.field_id() == old(reader).field_id(),
                names0 == string_models(old(names)@),
                types0 == old(types)@,
                reader.position() >= p0,
                i <= count,
                schema_list(data, p0, count as nat, names0, types0) == after_with(
                    schema_list(data, reader.position(), (count - i) as nat, string_models(names@), types@),
                    (reader.position() - p0) as nat,
                ),
            decreases count - i,
        {
            let ghost before = string_models(names@);
            let (name, ptype) = match Self::parse_schema_element(reader) {
                Ok(e) => e,
                Err(e) => return Err(e),
            };
            let ghost nv = name@;
            names.push(name);
            types.push(ptype);
            assert(string_models(names@) =~= before.push(nv));
            i = i + 1;
        }
        Ok(())
    }

    /// Read `count` row groups, appending them to `groups`.
    fn read_row_groups(
        reader: &mut ThriftReader,
        count: usize,
        schema_names: &[String],
        schema_types: &[Option<ParquetType>],
        groups: &mut Vec<RowGroupMetadata>,
    ) -> (r: Result<(), ParquetError>)
        requires
            old(reader).wf(),
        ensures
            final(reader).wf(),
            final(reader).bytes() == old(reader).bytes(),
            match r {
                Ok(_) => {
                    &&& final(reader).position() >= old(reader).position()
                    &&& final(reader).field_id() == old(reader).field_id()
                    &&& row_group_list(old(reader).bytes(), old(reader).position(), count as nat, string_models(schema_names@), schema_types@, row_group_models(old(groups)@))
                        == Ok::<_, ErrorModel>((row_group_models(final(groups)@), (final(reader).position() - old(reader).position()) as nat))
                },
                Err(e) => row_group_list(old(reader).bytes(), old(reader).position(), count as nat, string_models(schema_names@), schema_types@, row_group_models(old(groups)@))
                    == Err::<(Seq<RowGroupModel>, nat), ErrorModel>(e@),
            },
    {
        let ghost data = reader.bytes();
        let ghost p0 = reader.position();
        let ghost names = string_models(schema_names@);
        let ghost groups0 = row_group_models(groups@);
        let mut i: usize = 0;
        while i < count
            invariant
                reader.wf(),
                reader.bytes() == data,
                data == old(reader).bytes(),
                p0 == old(reader).position(),
                reader.field_id() == old(reader).field_id(),
                names == string_models(schema_names@),
                groups0 == row_group_models(old(groups)@),
                reader.position() >= p0,
                i <= count,
                row_group_list(data, p0, count as nat, names, schema_types@, groups0) == after_with(
                    row_group_list(data, reader.position(), (count - i) as nat, names, schema_types@, row_group_models(groups@)),
                    (reader.position() - p0) as nat,
                ),
            decreases count - i,
        {
            let ghost before = row_group_models(groups@);
            let g = match Self::parse_row_group(reader, schema_names, schema_types) {
                Ok(g) => g,
                Err(e) => return Err(e),
            };
            let ghost gv = g@;
            groups.push(g);
            assert(row_group_models(groups@) =~= before.push(gv));
            i = i + 1;
        }
        Ok(())
    }

    /// Apply one FileMetaData field.
    #[verifier::rlimit(50)]
    fn parse_file_field(reader: &mut ThriftReader, field_id: i16, field_type: u8, fields: &mut FileFieldsExec) -> (r: Result<(), ParquetError>)
        requires
            old(reader).wf(),
        ensures
            final(reader).wf(),
            final(reader).bytes() == old(reader).bytes(),
            match r {
                Ok(_) => {
                    &&& final(reader).position() >= old(reader).position()
                    &&& file_field(old(reader).bytes(), old(reader).position(), field_id, field_type, old(fields)@)
                        == Ok::<_, ErrorModel>((final(fields)@, (final(reader).position() - old(reader).position()) as nat))
                    &&& final(reader).field_id() == old(reader).field_id()
                },
                Err(e) => file_field(old(reader).bytes(), old(reader).position(), field_id, field_type, old(fields)@)
                    == Err::<(FileFields, nat), ErrorModel>(e@),
            },
    {
        reveal(file_field);
        if field_id == 1 {
            match reader.read_i32() {
                Ok(v) => {
                    fields.version = v;
                    Ok(())
                },
                Err(e) => Err(e),
            }
        } else if field_id == 2 {
            let (_et, count) = match reader.read_list_header() {
                Ok(h) => h,
                Err(e) => return Err(e),
            };
            Self::read_schema_list(reader, count, &mut fields.schema_names, &mut fields.schema_types)
        } else if field_id == 3 {
            match reader.read_i64() {
                Ok(v) => {
                    fields.num_rows = v;
                    Ok(())
                },
                Err(e) => Err(e),
            }
        } else if field_id == 4 {
            let (_et, count) = match reader.read_list_header() {
                Ok(h) => h,
                Err(e) => return Err(e),
            };
            Self::read_row_groups(reader, count, fields.schema_names.as_slice(), fields.schema_types.as_slice(), &mut fields.row_groups)
        } else if field_id == 6 {
            match reader.read_string() {
                Ok(s) => {
                    fields.created_by = Some(s);
                    Ok(())
                },
                Err(e) => Err(e),
            }
        } else {
            match reader.skip_field(field_type) {
                Ok(_) => Ok(()),
                Err(e) => Err(e),
            }
        }
    }

    /// Parse the Thrift-encoded FileMetaData.
    fn parse_file_metadata(footer: &[u8], _file_data: &[u8]) -> (r: Result<ParquetMetadata, ParquetError>)
        ensures
            match r {
                Ok(m) => file_metadata_spec(footer@) == Ok::<MetadataModel, ErrorModel>(m@),
                Err(e) => file_metadata_spec(footer@) == Err::<MetadataModel, ErrorModel>(e@),
            },
    {
        let mut reader = ThriftReader::new(footer);
        let ghost data = footer@;
        let mut fields = FileFieldsExec {
            version: 0,
            num_rows: 0,
            schema_names: Vec::new(),
            schema_types: Vec::new(),
            row_groups: Vec::new(),
            created_by: None,
        };
        assert(string_models(fields.schema_names@) =~= Seq::<Seq<char>>::empty());
        assert(row_group_models(fields.row_groups@) =~= Seq::<RowGroupModel>::empty());
        assert(fields@ == file_start());
        loop
            invariant_except_break
                reader.wf(),
                reader.bytes() == data,
                data == footer@,
                reader.position() >= 0,
                file_fields(data, 0, 0, file_start()) == after_with(
                    file_fields(data, reader.position(), reader.field_id(), fields@),
                    reader.position() as nat,
                ),
            ensures
                file_fields(data, 0, 0, file_start()) == Ok::<_, ErrorModel>((fields@, reader.position() as nat)),
            decreases data.len() - reader.position(),
        {
            let ghost pos_before = reader.position();
            let ghost fid_before = reader.field_id();
            let ghost acc_before = fields@;
            let (field_id, field_type) = match reader.read_field_header() {
                Some(header) => header,
                None => break,
            };
            let ghost fid_next = reader.field_id();
            assert(reader.position() > pos_before);
            match Self::parse_file_field(&mut reader, field_id, field_type, &mut fields) {
                Ok(_) => {},
                Err(e) => return Err(e),
            }
            assert(file_fields(data, pos_before, fid_before, acc_before) == after_with(
                file_fields(data, reader.position(), fid_next, fields@),
                (reader.position() - pos_before) as nat,
            ));
        }
        let columns = if fields.row_groups.len() > 0 {
            fields.row_groups[0].columns.clone()
        } else {
            Vec::new()
        };
        proof {
            if fields.row_groups@.len() > 0 {
                assert(column_models(columns@) =~= row_group_models(fields.row_groups@)[0].columns);
            } else {
                assert(column_models(columns@) =~= Seq::<ColumnModel>::empty());
            }
        }
        let num_columns = columns.len();
        Ok(ParquetMetadata {
            version: fields.version,
            num_rows: fields.num_rows,
            num_columns,
            schema_names: fields.schema_names,
            row_groups: fields.row_groups,
            columns,
            created_by: fields.created_by,
        })
    }

    /// Parse Parquet metadata from the raw file bytes.
    pub fn read_metadata(data: &[u8]) -> (r: Result<ParquetMetadata, ParquetError>)
        ensures
            match r {
                Ok(m) => read_metadata_spec(data@) == Ok::<MetadataModel, ErrorModel>(m@),
                Err(e) => read_metadata_spec(data@) == Err::<MetadataModel, ErrorModel>(e@),
            },
    {
        let n = data.len();
        if n < 12 {
            return Err(ParquetError::InvalidFile(String::from_str("File too small to be valid Parquet")));
        }
        let header_ok = data[0] == 0x50 && data[1] == 0x41 && data[2] == 0x52 && data[3] == 0x31;
        proof {
            assert(header_ok == (data@.subrange(0, 4) =~= parquet_magic()));
        }
        if !header_ok {
            return Err(ParquetError::InvalidFile(String::from_str("Missing PAR1 header magic")));
        }
        let footer_ok = data[n - 4] == 0x50 && data[n - 3] == 0x41 && data[n - 2] == 0x52 && data[n - 1] == 0x31;
        proof {
            assert(footer_ok == (data@.subrange(n - 4, n as int) =~= parquet_magic()));
        }
        if !footer_ok {
            return Err(ParquetError::InvalidFile(String::from_str("Missing PAR1 footer magic")));
        }
        let footer_len = (data[n - 8] as u64 + data[n - 7] as u64 * 256 + data[n - 6] as u64 * 65536
            + data[n - 5] as u64 * 16777216) as usize;
        proof {
            let b = data@.subrange(n - 8, n - 4);
            assert(b[0] == data@[n - 8] && b[1] == data@[n - 7] && b[2] == data@[n - 6] && b[3] == data@[n - 5]);
        }
        if footer_len > n - 8 {
            return Err(ParquetError::InvalidFile(String::from_str("Footer length exceeds file size")));
        }
        let footer_start = n - 8 - footer_len;
        let footer = vstd::slice::slice_subrange(data, footer_start, n - 8);
        Self::parse_file_metadata(footer, data)
    }

    /// Apply one SchemaElement field.
    fn parse_schema_field(reader: &mut ThriftReader, field_id: i16, field_type: u8, fields: &mut SchemaElementFields) -> (r: Result<(), ParquetError>)
        requires
            old(reader).wf(),
        ensures
            final(reader).wf(),
            final(reader).bytes() == old(reader).bytes(),
            match r {
                Ok(_) => {
                    &&& final(reader).position() >= old(reader).position()
                    &&& schema_field(old(reader).bytes(), old(reader).position(), field_id, field_type, old(fields)@)
                        == Ok::<_, ErrorModel>((final(fields)@, (final(reader).position() - old(reader).position()) as nat))
                    &&& final(reader).field_id() == old(reader).field_id()
                },
                Err(e) => schema_field(old(reader).bytes(), old(reader).position(), field_id, field_type, old(fields)@)
                    == Err::<(SchemaFields, nat), ErrorModel>(e@),
            },
    {
        reveal(schema_field);
        if field_id == 1 {
            let code = match reader.read_i32() {
                Ok(c) => c,
                Err(e) => return Err(e),
            };
            match ParquetType::from_thrift(code) {
                Ok(t) => {
                    fields.physical_type = Some(t);
                    Ok(())
                },
                Err(e) => Err(e),
            }
        } else if field_id == 2 {
            match reader.read_i32() {
                Ok(v) => {
                    fields.type_length = v;
                    Ok(())
                },
                Err(e) => Err(e),
            }
        } else if field_id == 3 || field_id == 5 {
            match reader.read_i32() {
                Ok(_) => Ok(()),
                Err(e) => Err(e),
            }
        } else if field_id == 4 {
            match reader.read_string() {
                Ok(s) => {
                    fields.name = s;
                    Ok(())
                },
                Err(e) => Err(e),
            }
        } else {
            match reader.skip_field(field_type) {
                Ok(_) => Ok(()),
                Err(e) => Err(e),
            }
        }
    }

    /// Parse a SchemaElement from the Thrift stream.
    fn parse_schema_element(reader: &mut ThriftReader) -> (r: Result<(String, Option<ParquetType>), ParquetError>)
        requires
            old(reader).wf(),
        ensures
            final(reader).wf(),
            final(reader).bytes() == old(reader).bytes(),
            match r {
                Ok((name, t)) => {
                    &&& schema_element_spec(old(reader).bytes(), old(reader).position()) == Ok::<_, ErrorModel>(
                        ((name@, t), (final(reader).position() - old(reader).position()) as nat))
                    &&& final(reader).position() >= old(reader).position()
                    &&& final(reader).field_id() == old(reader).field_id()
                },
                Err(e) => schema_element_spec(old(reader).bytes(), old(reader).position()) is Err
                    && schema_element_spec(old(reader).bytes(), old(reader).position())->Err_0 == e@,
            },
    {
        let ghost data = reader.bytes();
        let ghost p0 = reader.position();
        let prev_field_id = reader.current_field_id();
        reader.set_field_id(0);

        let mut fields = SchemaElementFields { name: String::new(), physical_type: None, type_length: 0 };
        loop
            invariant_except_break
                reader.wf(),
                reader.bytes() == data,
                data == old(reader).bytes(),
                p0 == old(reader).position(),
                prev_field_id == old(reader).field_id(),
                reader.position() >= p0,
                schema_fields(data, p0, 0, SchemaFields { name: Seq::empty(), physical_type: None, type_length: 0 })
                    == after_with(
                    schema_fields(data, reader.position(), reader.field_id(), fields@),
                    (reader.position() - p0) as nat,
                ),
            ensures
                reader.wf(),
                reader.bytes() == data,
                reader.position() >= p0,
                schema_fields(data, p0, 0, SchemaFields { name: Seq::empty(), physical_type: None, type_length: 0 })
                    == Ok::<_, ErrorModel>((fields@, (reader.position() - p0) as nat)),
            decreases data.len() - reader.position(),
        {
            let ghost pos_before = reader.position();
            let ghost fid_before = reader.field_id();
            let ghost acc_before = fields@;
            let (field_id, field_type) = match reader.read_field_header() {
                Some(header) => header,
                None => break,
            };
            let ghost pos_field = reader.position();
            let ghost fid_next = reader.field_id();
            assert(pos_field > pos_before);
            match Self::parse_schema_field(reader, field_id, field_type, &mut fields) {
                Ok(_) => {},
                Err(e) => return Err(e),
            }
            assert(reader.position() > pos_before);
            assert(reader.bytes().len() - reader.position() < reader.bytes().len() - pos_before);
            assert(schema_fields(data, pos_before, fid_before, acc_before) == after_with(
                schema_fields(data, reader.position(), fid_next, fields@),
                (reader.position() - pos_before) as nat,
            ));
        }
        reader.set_field_id(prev_field_id);
        let physical_type = match fields.physical_type {
            Some(ParquetType::FixedLenByteArray(_)) => Some(ParquetType::FixedLenByteArray(fields.type_length)),
            other => other,
        };
        Ok((fields.name, physical_type))
    }
}

} // verus!
