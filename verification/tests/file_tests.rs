use parquet_lite::batch_iter_advanced::SelectiveBatchIterator;
use parquet_lite::statistics::SizeRatio;
use parquet_lite::streaming_reader::metadata_of_chunks;
use parquet_lite::{
    read_columns_to_arrow_batches, read_metadata, read_to_arrow_batches, ColumnData, Compression, ParquetError,
    ParquetReader, ParquetType, StatisticsCollector, StreamingParquetReader,
};
use std::io::Cursor;

// Compact Protocol type codes.
const T_I32: u8 = 5;
const T_I64: u8 = 6;
const T_BINARY: u8 = 8;
const T_LIST: u8 = 9;
const T_STRUCT: u8 = 12;

fn varint(mut v: u64, out: &mut Vec<u8>) {
    loop {
        let b = (v & 0x7f) as u8;
        v >>= 7;
        if v == 0 {
            out.push(b);
            break;
        }
        out.push(b | 0x80);
    }
}

fn field(out: &mut Vec<u8>, delta: u8, ty: u8) {
    out.push((delta << 4) | ty);
}

fn i32_field(out: &mut Vec<u8>, delta: u8, v: i32) {
    field(out, delta, T_I32);
    varint(((v << 1) ^ (v >> 31)) as u32 as u64, out);
}

fn i64_field(out: &mut Vec<u8>, delta: u8, v: i64) {
    field(out, delta, T_I64);
    varint(((v << 1) ^ (v >> 63)) as u64, out);
}

fn string_field(out: &mut Vec<u8>, delta: u8, s: &str) {
    field(out, delta, T_BINARY);
    varint(s.len() as u64, out);
    out.extend_from_slice(s.as_bytes());
}

fn list_header(out: &mut Vec<u8>, count: u8, elem_type: u8) {
    out.push((count << 4) | elem_type);
}

/// A data page: its header and its bytes as stored.
fn data_page(num_values: i32, uncompressed_len: usize, stored: &[u8]) -> Vec<u8> {
    let mut out = Vec::new();
    i32_field(&mut out, 1, 0);
    i32_field(&mut out, 1, uncompressed_len as i32);
    i32_field(&mut out, 1, stored.len() as i32);
    field(&mut out, 2, T_STRUCT);
    i32_field(&mut out, 1, num_values);
    i32_field(&mut out, 1, 0);
    i32_field(&mut out, 1, 3);
    i32_field(&mut out, 1, 3);
    out.push(0);
    out.push(0);
    out.extend_from_slice(stored);
    out
}

struct ColumnSpec {
    name: &'static str,
    type_code: i32,
    codec: i32,
    num_values: i64,
    uncompressed: i64,
    chunk: Vec<u8>,
    offset_override: Option<i64>,
}

fn column_meta(out: &mut Vec<u8>, c: &ColumnSpec, offset: i64) {
    // ColumnChunk
    i64_field(out, 2, offset);
    field(out, 1, T_STRUCT);
    // ColumnMetaData
    i32_field(out, 1, c.type_code);
    field(out, 1, T_LIST);
    list_header(out, 1, T_I32);
    varint(0, out);
    field(out, 1, T_LIST);
    list_header(out, 1, T_BINARY);
    varint(c.name.len() as u64, out);
    out.extend_from_slice(c.name.as_bytes());
    i32_field(out, 1, c.codec);
    i64_field(out, 1, c.num_values);
    i64_field(out, 1, c.uncompressed);
    i64_field(out, 1, c.chunk.len() as i64);
    i64_field(out, 2, offset);
    out.push(0);
    out.push(0);
}

fn build_file(columns: &[ColumnSpec], num_rows: i64) -> Vec<u8> {
    let mut file = b"PAR1".to_vec();
    let mut offsets = Vec::new();
    for c in columns {
        offsets.push(c.offset_override.unwrap_or(file.len() as i64));
        file.extend_from_slice(&c.chunk);
    }
    let mut footer = Vec::new();
    i32_field(&mut footer, 1, 1);
    field(&mut footer, 1, T_LIST);
    list_header(&mut footer, (columns.len() + 1) as u8, T_STRUCT);
    string_field(&mut footer, 4, "schema");
    i32_field(&mut footer, 1, columns.len() as i32);
    footer.push(0);
    for c in columns {
        i32_field(&mut footer, 1, c.type_code);
        i32_field(&mut footer, 2, 0);
        string_field(&mut footer, 1, c.name);
        footer.push(0);
    }
    i64_field(&mut footer, 1, num_rows);
    field(&mut footer, 1, T_LIST);
    list_header(&mut footer, 1, T_STRUCT);
    field(&mut footer, 1, T_LIST);
    list_header(&mut footer, columns.len() as u8, T_STRUCT);
    for (c, off) in columns.iter().zip(offsets.iter()) {
        column_meta(&mut footer, c, *off);
    }
    i64_field(&mut footer, 1, 100);
    i64_field(&mut footer, 1, num_rows);
    footer.push(0);
    string_field(&mut footer, 2, "parquet-lite test");
    footer.push(0);
    let len = footer.len() as u32;
    file.extend_from_slice(&footer);
    file.extend_from_slice(&len.to_le_bytes());
    file.extend_from_slice(b"PAR1");
    file
}

fn id_column() -> ColumnSpec {
    let mut values = Vec::new();
    for v in [1i32, 2, 3] {
        values.extend_from_slice(&v.to_le_bytes());
    }
    ColumnSpec {
        name: "id",
        type_code: 1,
        codec: 0,
        num_values: 3,
        uncompressed: 12,
        chunk: data_page(3, values.len(), &values),
        offset_override: None,
    }
}

fn name_column() -> ColumnSpec {
    let mut values = Vec::new();
    for s in ["a", "bc", "def"] {
        values.extend_from_slice(&(s.len() as u32).to_le_bytes());
        values.extend_from_slice(s.as_bytes());
    }
    ColumnSpec {
        name: "name",
        type_code: 6,
        codec: 0,
        num_values: 3,
        uncompressed: 18,
        chunk: data_page(3, values.len(), &values),
        offset_override: None,
    }
}

fn sample_file() -> Vec<u8> {
    build_file(&[id_column(), name_column()], 3)
}

fn int32s(c: &ColumnData) -> Vec<i32> {
    match c {
        ColumnData::Int32(v) => v.clone(),
        other => panic!("expected Int32 values, got {:?}", other),
    }
}

fn byte_arrays(c: &ColumnData) -> Vec<Vec<u8>> {
    match c {
        ColumnData::ByteArray(v) => v.clone(),
        other => panic!("expected byte arrays, got {:?}", other),
    }
}

#[test]
fn metadata_of_sample_file() {
    let file = sample_file();
    let m = read_metadata(&file).unwrap();
    assert_eq!(m.version, 1);
    assert_eq!(m.num_rows, 3);
    assert_eq!(m.num_columns, 2);
    assert_eq!(m.schema_names, vec!["schema".to_string(), "id".to_string(), "name".to_string()]);
    assert_eq!(m.created_by, Some("parquet-lite test".to_string()));
    assert_eq!(m.row_groups.len(), 1);
    assert_eq!(m.row_groups[0].num_rows, 3);
    assert_eq!(m.row_groups[0].total_byte_size, 100);
    assert_eq!(m.columns.len(), 2);
    assert_eq!(m.columns[0].name, "id");
    assert_eq!(m.columns[0].physical_type, ParquetType::Int32);
    assert_eq!(m.columns[0].compression, Compression::Uncompressed);
    assert_eq!(m.columns[0].data_offset, 4);
    assert_eq!(m.columns[0].num_values, 3);
    assert_eq!(m.columns[1].name, "name");
    assert_eq!(m.columns[1].physical_type, ParquetType::ByteArray);
    assert_eq!(m.columns[1].total_uncompressed_size, 18);
}

#[test]
fn reader_reads_columns() {
    let file = sample_file();
    let reader = ParquetReader::new(&file).unwrap();
    assert_eq!(reader.num_rows(), 3);
    assert_eq!(reader.num_columns(), 2);
    assert_eq!(reader.column_names(), vec!["id", "name"]);
    assert_eq!(reader.metadata().version, 1);
    assert_eq!(int32s(&reader.read_column(0).unwrap()), vec![1, 2, 3]);
    assert_eq!(byte_arrays(&reader.read_column(1).unwrap()), vec![b"a".to_vec(), b"bc".to_vec(), b"def".to_vec()]);
}

#[test]
fn reader_refuses_missing_column() {
    let file = sample_file();
    let reader = ParquetReader::new(&file).unwrap();
    assert!(matches!(reader.read_column(2), Err(ParquetError::ColumnOutOfRange(2))));
}

#[test]
fn reader_refuses_offset_past_file() {
    let mut col = id_column();
    col.offset_override = Some(10_000);
    let file = build_file(&[col], 3);
    let reader = ParquetReader::new(&file).unwrap();
    match reader.read_column(0) {
        Err(ParquetError::DataError(msg)) => {
            assert_eq!(msg, format!("Column 0 data offset 10000 exceeds file size {}", file.len()));
        },
        other => panic!("unexpected result {:?}", other),
    }
}

#[test]
fn reader_refuses_unsupported_codec() {
    let mut col = id_column();
    col.codec = 2;
    let file = build_file(&[col], 3);
    let reader = ParquetReader::new(&file).unwrap();
    match reader.read_column(0) {
        Err(ParquetError::UnsupportedCompression(msg)) => assert_eq!(msg, "Gzip codec not implemented"),
        other => panic!("unexpected result {:?}", other),
    }
}

#[test]
fn reader_decompresses_snappy_pages() {
    let mut values = Vec::new();
    for v in [7i32, -8, 9, 10] {
        values.extend_from_slice(&v.to_le_bytes());
    }
    let stored = snap::raw::Encoder::new().compress_vec(&values).unwrap();
    let col = ColumnSpec {
        name: "z",
        type_code: 1,
        codec: 1,
        num_values: 4,
        uncompressed: 16,
        chunk: data_page(4, values.len(), &stored),
        offset_override: None,
    };
    let file = build_file(&[col], 4);
    let reader = ParquetReader::new(&file).unwrap();
    assert_eq!(int32s(&reader.read_column(0).unwrap()), vec![7, -8, 9, 10]);
}

#[test]
fn reader_reports_corrupt_snappy_page() {
    let col = ColumnSpec {
        name: "z",
        type_code: 1,
        codec: 1,
        num_values: 4,
        uncompressed: 16,
        chunk: data_page(4, 16, &[0xff, 0xff, 0xff, 0xff, 0xff, 0x01]),
        offset_override: None,
    };
    let file = build_file(&[col], 4);
    let reader = ParquetReader::new(&file).unwrap();
    match reader.read_column(0) {
        Err(ParquetError::DataError(msg)) => assert!(msg.starts_with("Snappy decompress error: ")),
        other => panic!("unexpected result {:?}", other),
    }
}

#[test]
fn pages_are_read_until_the_value_count() {
    // Two pages of two values each; the column declares three values, so both
    // pages are read, and a third page after them is not.
    let mut chunk = Vec::new();
    for page in [[1i32, 2], [3, 4], [5, 6]] {
        let mut values = Vec::new();
        for v in page {
            values.extend_from_slice(&v.to_le_bytes());
        }
        chunk.extend_from_slice(&data_page(2, values.len(), &values));
    }
    let col = ColumnSpec {
        name: "id",
        type_code: 1,
        codec: 0,
        num_values: 3,
        uncompressed: 24,
        chunk,
        offset_override: None,
    };
    let file = build_file(&[col], 3);
    let reader = ParquetReader::new(&file).unwrap();
    assert_eq!(int32s(&reader.read_column(0).unwrap()), vec![1, 2, 3, 4]);
}

#[test]
fn batches_cover_the_rows_in_order() {
    let file = sample_file();
    let mut it = read_to_arrow_batches(&file, 2).unwrap();
    let first = it.next_batch().unwrap().unwrap();
    assert_eq!(first.num_rows, 2);
    assert_eq!(first.columns.len(), 2);
    assert_eq!(first.columns[0].name, "id");
    assert_eq!(int32s(&first.columns[0].data), vec![1, 2]);
    assert_eq!(first.columns[1].name, "name");
    assert_eq!(byte_arrays(&first.columns[1].data), vec![b"a".to_vec(), b"bc".to_vec()]);
    let second = it.next_batch().unwrap().unwrap();
    assert_eq!(second.num_rows, 1);
    assert_eq!(int32s(&second.columns[0].data), vec![3]);
    assert_eq!(byte_arrays(&second.columns[1].data), vec![b"def".to_vec()]);
    assert!(it.next_batch().unwrap().is_none());
    it.reset();
    let again = it.next_batch().unwrap().unwrap();
    assert_eq!(again.num_rows, 2);
    assert_eq!(int32s(&again.columns[0].data), vec![1, 2]);
}

#[test]
fn batches_of_selected_columns() {
    let file = sample_file();
    let mut it = read_columns_to_arrow_batches(&file, 10, vec![1, 7]).unwrap();
    let batch = it.next_batch().unwrap().unwrap();
    assert_eq!(batch.num_rows, 3);
    assert_eq!(batch.columns.len(), 1);
    assert_eq!(batch.columns[0].name, "name");
    assert!(it.next_batch().unwrap().is_none());
}

#[test]
fn batches_of_named_columns() {
    let file = sample_file();
    let reader = ParquetReader::new(&file).unwrap();
    let mut it = SelectiveBatchIterator::new(reader, 3).with_column_names(vec!["missing", "name"]);
    let batch = it.next_batch().unwrap().unwrap();
    assert_eq!(batch.columns.len(), 1);
    assert_eq!(batch.columns[0].name, "name");
    assert_eq!(byte_arrays(&batch.columns[0].data).len(), 3);
}

#[test]
fn no_batch_without_existing_columns() {
    let file = sample_file();
    let mut it = read_columns_to_arrow_batches(&file, 2, vec![5]).unwrap();
    assert!(it.next_batch().unwrap().is_none());
}

#[test]
fn batch_error_keeps_the_cursor() {
    let mut col = id_column();
    col.codec = 2;
    let file = build_file(&[col], 3);
    let mut it = read_to_arrow_batches(&file, 2).unwrap();
    assert!(matches!(it.next_batch(), Err(ParquetError::UnsupportedCompression(_))));
    assert!(matches!(it.next_batch(), Err(ParquetError::UnsupportedCompression(_))));
}

#[test]
fn statistics_from_sample_file() {
    let file = sample_file();
    let m = read_metadata(&file).unwrap();
    let stats = StatisticsCollector::from_metadata(&m);
    assert_eq!(stats.len(), 2);
    assert_eq!(stats[0].column_name, "id");
    assert_eq!(stats[0].physical_type, ParquetType::Int32);
    assert_eq!(stats[0].num_values, 3);
    assert_eq!(stats[0].null_count, 0);
    assert_eq!(stats[0].distinct_values, None);
    assert_eq!(stats[0].size_bytes, 12);
    assert_eq!(stats[0].compression_ratio, SizeRatio { numerator: m.columns[0].total_compressed_size, denominator: 12 });
}

#[test]
fn statistics_ratio_without_size_is_one() {
    let mut col = id_column();
    col.uncompressed = 0;
    let file = build_file(&[col], 3);
    let m = read_metadata(&file).unwrap();
    let stats = StatisticsCollector::from_metadata(&m);
    assert_eq!(stats[0].compression_ratio, SizeRatio { numerator: 1, denominator: 1 });
}

#[test]
fn metadata_errors_name_the_fault() {
    let mut bad_tail = sample_file();
    let n = bad_tail.len();
    bad_tail[n - 1] = b'X';
    match read_metadata(&bad_tail) {
        Err(ParquetError::InvalidFile(msg)) => assert_eq!(msg, "Missing PAR1 footer magic"),
        other => panic!("unexpected result {:?}", other),
    }
    match read_metadata(b"XAR1xxxxxxxxPAR1") {
        Err(ParquetError::InvalidFile(msg)) => assert_eq!(msg, "Missing PAR1 header magic"),
        other => panic!("unexpected result {:?}", other),
    }
    match read_metadata(b"PAR1") {
        Err(ParquetError::InvalidFile(msg)) => assert_eq!(msg, "File too small to be valid Parquet"),
        other => panic!("unexpected result {:?}", other),
    }
    let mut long_footer = b"PAR1".to_vec();
    long_footer.extend_from_slice(&1000u32.to_le_bytes());
    long_footer.extend_from_slice(b"PAR1");
    match read_metadata(&long_footer) {
        Err(ParquetError::InvalidFile(msg)) => assert_eq!(msg, "Footer length exceeds file size"),
        other => panic!("unexpected result {:?}", other),
    }
}

#[test]
fn streaming_reader_reads_whole_file_metadata() {
    let file = sample_file();
    let mut reader = StreamingParquetReader::new(Cursor::new(file.clone()), 7);
    let m = reader.read_all_metadata().unwrap();
    assert_eq!(m.num_rows, 3);
    assert_eq!(m.columns[1].name, "name");
    assert!(reader.current_buffer().is_empty());
    let mut short = StreamingParquetReader::new(Cursor::new(b"PAR1".to_vec()), 2);
    match short.read_all_metadata() {
        Err(ParquetError::InvalidFile(msg)) => assert_eq!(msg, "File too small to be valid Parquet"),
        other => panic!("unexpected result {:?}", other),
    }
}

#[test]
fn metadata_ignores_column_bytes() {
    let file = sample_file();
    let mut changed = file.clone();
    for b in changed[4..20].iter_mut() {
        *b = 0xee;
    }
    let a = read_metadata(&file).unwrap();
    let b = read_metadata(&changed).unwrap();
    assert_eq!(a.num_rows, b.num_rows);
    assert_eq!(a.schema_names, b.schema_names);
    assert_eq!(a.columns.len(), b.columns.len());
    assert_eq!(a.columns[1].data_offset, b.columns[1].data_offset);
    assert_eq!(a.created_by, b.created_by);
}

#[test]
fn zero_batch_size_never_advances() {
    let file = sample_file();
    let mut it = read_to_arrow_batches(&file, 0).unwrap();
    for _ in 0..2 {
        let batch = it.next_batch().unwrap().unwrap();
        assert_eq!(batch.num_rows, 0);
        assert_eq!(batch.columns.len(), 2);
        assert!(int32s(&batch.columns[0].data).is_empty());
    }
}

#[test]
fn metadata_of_chunks_joins_them() {
    let file = sample_file();
    let chunks: Vec<Vec<u8>> = file.chunks(5).map(|c| c.to_vec()).collect();
    let m = metadata_of_chunks(&chunks).unwrap();
    assert_eq!(m.num_rows, 3);
    assert_eq!(m.columns[0].name, "id");
    let short = vec![b"PA".to_vec(), b"R1".to_vec()];
    match metadata_of_chunks(&short) {
        Err(ParquetError::InvalidFile(msg)) => assert_eq!(msg, "File too small to be valid Parquet"),
        other => panic!("unexpected result {:?}", other),
    }
}

#[test]
fn total_sizes_of_sample_file() {
    let file = sample_file();
    let m = read_metadata(&file).unwrap();
    let (size, compressed) = StatisticsCollector::total_sizes(&m);
    assert_eq!(size, 30);
    assert_eq!(compressed, (m.columns[0].total_compressed_size + m.columns[1].total_compressed_size) as i128);
}
