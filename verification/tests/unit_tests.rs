use parquet_lite::arrow_convert::{ArrowConverter, ArrowType, ArrowValues};
use parquet_lite::codecs::plain::PlainCodec;
use parquet_lite::codecs::snappy::SnappyCodec;
use parquet_lite::codecs::{get_codec, Codec, CompressionCodec};
use parquet_lite::decode::{
    decode_fixed_len_byte_array, decode_plain_bool, decode_plain_byte_array, decode_plain_f32, decode_plain_f64,
    decode_plain_i32, decode_plain_i64, decode_plain_int96, ColumnDataAccumulator,
};
use parquet_lite::page::{parse_page_header, read_zigzag_varint, skip_thrift_value};
use parquet_lite::schema::SchemaBuilder;
use parquet_lite::statistics::truncate;
use parquet_lite::streaming_reader::StreamingParquetReader;
use parquet_lite::text::{decimal_i64, decimal_u64};
use parquet_lite::thrift::{zigzag_decode32, zigzag_decode64, ThriftReader};
use parquet_lite::types::{Encoding, PageType};
use parquet_lite::{ColumnData, ColumnSchema, Compression, LogicalType, ParquetError, ParquetType, TimestampUnit};
use std::io::Cursor;

#[test]
fn type_codes_map_to_types() {
    assert_eq!(ParquetType::from_thrift(0).unwrap(), ParquetType::Boolean);
    assert_eq!(ParquetType::from_thrift(1).unwrap(), ParquetType::Int32);
    assert_eq!(ParquetType::from_thrift(3).unwrap(), ParquetType::Int96);
    assert_eq!(ParquetType::from_thrift(7).unwrap(), ParquetType::FixedLenByteArray(0));
    match ParquetType::from_thrift(9) {
        Err(ParquetError::UnsupportedType(msg)) => assert_eq!(msg, "Unknown physical type code: 9"),
        other => panic!("unexpected {:?}", other),
    }
    match ParquetType::from_thrift(-12) {
        Err(ParquetError::UnsupportedType(msg)) => assert_eq!(msg, "Unknown physical type code: -12"),
        other => panic!("unexpected {:?}", other),
    }
}

#[test]
fn encoding_codes_default_to_plain() {
    assert_eq!(Encoding::from_thrift(0).unwrap(), Encoding::Plain);
    assert_eq!(Encoding::from_thrift(4).unwrap(), Encoding::RleBitPacked);
    assert_eq!(Encoding::from_thrift(7).unwrap(), Encoding::DeltaByteArray);
    assert_eq!(Encoding::from_thrift(2).unwrap(), Encoding::Plain);
    assert_eq!(Encoding::from_thrift(99).unwrap(), Encoding::Plain);
}

#[test]
fn compression_and_page_codes() {
    assert_eq!(Compression::from_thrift(1).unwrap(), Compression::Snappy);
    assert_eq!(Compression::from_thrift(6).unwrap(), Compression::Zstd);
    match Compression::from_thrift(7) {
        Err(ParquetError::UnsupportedCompression(msg)) => assert_eq!(msg, "Unknown compression code: 7"),
        other => panic!("unexpected {:?}", other),
    }
    assert_eq!(PageType::from_thrift(2).unwrap(), PageType::DictionaryPage);
    match PageType::from_thrift(4) {
        Err(ParquetError::DataError(msg)) => assert_eq!(msg, "Unknown page type: 4"),
        other => panic!("unexpected {:?}", other),
    }
}

#[test]
fn decimal_rendering() {
    assert_eq!(decimal_u64(0), "0");
    assert_eq!(decimal_u64(18446744073709551615), "18446744073709551615");
    assert_eq!(decimal_i64(-9223372036854775808), "-9223372036854775808");
    assert_eq!(decimal_i64(407), "407");
}

#[test]
fn zigzag_values() {
    assert_eq!(zigzag_decode32(0), 0);
    assert_eq!(zigzag_decode32(1), -1);
    assert_eq!(zigzag_decode32(2), 1);
    assert_eq!(zigzag_decode32(4294967295), -2147483648);
    assert_eq!(zigzag_decode32(4294967294), 2147483647);
    assert_eq!(zigzag_decode64(3), -2);
    assert_eq!(zigzag_decode64(18446744073709551615), i64::MIN);
}

#[test]
fn thrift_reader_reads_values() {
    // varint 300, zigzag i32 -3, i64 150, string "hi"
    let data = [0xac, 0x02, 0x05, 0xac, 0x02, 0x02, b'h', b'i'];
    let mut r = ThriftReader::new(&data);
    assert_eq!(r.read_varint().unwrap(), 300);
    assert_eq!(r.read_i32().unwrap(), -3);
    assert_eq!(r.read_i64().unwrap(), 150);
    assert_eq!(r.read_string().unwrap(), "hi");
    assert_eq!(r.remaining(), 0);
    assert!(matches!(r.read_byte(), Err(ParquetError::InvalidFile(_))));
}

#[test]
fn thrift_reader_field_headers() {
    // field 1 (i32) = 1, field 3 (binary, long form id 3) "x", stop
    let data = [0x15, 0x02, 0x08, 0x06, 0x01, b'x', 0x00];
    let mut r = ThriftReader::new(&data);
    assert_eq!(r.read_field_header(), Some((1, 5)));
    assert_eq!(r.read_i32().unwrap(), 1);
    assert_eq!(r.read_field_header(), Some((3, 8)));
    assert_eq!(r.read_string().unwrap(), "x");
    assert_eq!(r.read_field_header(), None);
}

#[test]
fn thrift_reader_list_and_skip() {
    // list of 3 i32, then a struct field to skip: { field 1 i32 5, stop }
    let data = [0x35, 0x02, 0x04, 0x06, 0x15, 0x0a, 0x00, 0x07];
    let mut r = ThriftReader::new(&data);
    assert_eq!(r.read_list_header().unwrap(), (5, 3));
    for _ in 0..3 {
        r.read_i32().unwrap();
    }
    r.skip_field(12).unwrap();
    assert_eq!(r.pos(), 7);
    assert_eq!(r.read_byte().unwrap(), 0x07);
}

#[test]
fn thrift_reader_overlong_varint() {
    let data = [0xff; 11];
    let mut r = ThriftReader::new(&data);
    match r.read_varint() {
        Err(ParquetError::InvalidFile(msg)) => assert_eq!(msg, "Varint too long"),
        other => panic!("unexpected {:?}", other),
    }
}

#[test]
fn page_varints() {
    let data = [0x03, 0x80];
    let mut pos = 0usize;
    assert_eq!(read_zigzag_varint(&data, &mut pos).unwrap(), -2);
    assert_eq!(pos, 1);
    match read_zigzag_varint(&data, &mut pos) {
        Err(ParquetError::InvalidFile(msg)) => assert_eq!(msg, "Varint extends past data"),
        other => panic!("unexpected {:?}", other),
    }
    let mut pos = 0usize;
    skip_thrift_value(&[0x01, 0x02, 0x03], &mut pos, 8).unwrap();
    assert_eq!(pos, 2);
}

#[test]
fn page_header_of_dictionary_page() {
    // type 2 (dictionary), sizes 10 and 8, then a dictionary page header struct
    let data = [0x15, 0x04, 0x15, 0x14, 0x15, 0x10, 0x1c, 0x15, 0x02, 0x00, 0x00];
    let h = parse_page_header(&data).unwrap();
    assert_eq!(h.page_type, PageType::DictionaryPage);
    assert_eq!(h.uncompressed_size, 10);
    assert_eq!(h.compressed_size, 8);
    assert_eq!(h.num_values, 0);
    assert_eq!(h.header_size, 11);
    // dictionary page header in field 7, followed by four page bytes
    let data = [0x15, 4, 0x15, 8, 0x15, 8, 0x4c, 0x15, 2, 0x15, 0, 0, 0, 1, 2, 3, 4];
    let h = parse_page_header(&data).unwrap();
    assert_eq!(h.page_type, PageType::DictionaryPage);
    assert_eq!(h.uncompressed_size, 4);
    assert_eq!(h.compressed_size, 4);
    assert_eq!(h.header_size, 13);
}

#[test]
fn page_header_of_data_page() {
    let data = [0x15, 0x00, 0x15, 0x08, 0x15, 0x08, 0x2c, 0x15, 0x04, 0x15, 0x00, 0x00, 0x00, 0xaa];
    let h = parse_page_header(&data).unwrap();
    assert_eq!(h.page_type, PageType::DataPage);
    assert_eq!(h.num_values, 2);
    assert_eq!(h.header_size, 13);
    match parse_page_header(&data[..1]) {
        Err(ParquetError::InvalidFile(msg)) => assert_eq!(msg, "Varint extends past data"),
        other => panic!("unexpected {:?}", other),
    }
    match parse_page_header(&[]) {
        Err(ParquetError::InvalidFile(msg)) => assert_eq!(msg, "Unexpected end of page header"),
        other => panic!("unexpected {:?}", other),
    }
}

#[test]
fn plain_decoders() {
    let data = [1, 0, 0, 0, 0xff, 0xff, 0xff, 0xff, 9];
    assert_eq!(decode_plain_i32(&data, 5), vec![1, -1]);
    assert_eq!(decode_plain_i32(&data, 1), vec![1]);
    assert_eq!(decode_plain_i64(&data, 2), vec![0xffff_ffff_0000_0001u64 as i64]);
    let f = 1.5f32.to_le_bytes();
    assert_eq!(decode_plain_f32(&f, 1), vec![1.5f32.to_bits()]);
    let d = (-2.25f64).to_le_bytes();
    assert_eq!(decode_plain_f64(&d, 3), vec![(-2.25f64).to_bits()]);
    let mut int96 = 5i64.to_le_bytes().to_vec();
    int96.extend_from_slice(&[9, 9, 9, 9]);
    assert_eq!(decode_plain_int96(&int96, 1), vec![5]);
    assert_eq!(decode_plain_bool(&[0b0000_0101], 4), vec![1, 0, 1, 0]);
    assert_eq!(decode_plain_bool(&[0xff], 10).len(), 8);
    let arrays = [2, 0, 0, 0, b'o', b'k', 5, 0, 0, 0, b'x'];
    assert_eq!(decode_plain_byte_array(&arrays, 5), vec![b"ok".to_vec()]);
    assert_eq!(decode_fixed_len_byte_array(b"abcdefg", 3, 5), vec![b"abc".to_vec(), b"def".to_vec()]);
    assert_eq!(decode_fixed_len_byte_array(b"abc", 0, 2), vec![Vec::<u8>::new(), Vec::new()]);
}

#[test]
fn accumulator_appends_pages() {
    let mut acc = ColumnDataAccumulator::new(ParquetType::Int96);
    let mut page = 7i64.to_le_bytes().to_vec();
    page.extend_from_slice(&[0, 0, 0, 0]);
    acc.decode_and_append(&page, ParquetType::Int96, 1).unwrap();
    acc.decode_and_append(&page, ParquetType::Int96, 1).unwrap();
    match acc.into_column_data().unwrap() {
        ColumnData::Int64(v) => assert_eq!(v, vec![7, 7]),
        other => panic!("unexpected {:?}", other),
    }
    let mut acc = ColumnDataAccumulator::new(ParquetType::FixedLenByteArray(2));
    acc.decode_and_append(b"abcd", ParquetType::FixedLenByteArray(2), 2).unwrap();
    match acc.into_column_data().unwrap() {
        ColumnData::ByteArray(v) => assert_eq!(v, vec![b"ab".to_vec(), b"cd".to_vec()]),
        other => panic!("unexpected {:?}", other),
    }
}

#[test]
fn codecs_by_compression() {
    assert!(matches!(get_codec(Compression::Uncompressed), Ok(Codec::Plain(_))));
    assert!(matches!(get_codec(Compression::Snappy), Ok(Codec::Snappy(_))));
    match get_codec(Compression::Zstd) {
        Err(ParquetError::UnsupportedCompression(msg)) => assert_eq!(msg, "Zstd codec not implemented"),
        other => panic!("unexpected {:?}", other),
    }
    match get_codec(Compression::Lzo) {
        Err(ParquetError::UnsupportedCompression(msg)) => assert_eq!(msg, "Lzo codec not implemented"),
        other => panic!("unexpected {:?}", other),
    }
}

#[test]
fn plain_codec_is_identity() {
    let c = PlainCodec;
    assert_eq!(c.decompress(b"abc", 3).unwrap(), b"abc".to_vec());
    assert_eq!(c.compress(b"xyz").unwrap(), b"xyz".to_vec());
}

#[test]
fn snappy_codec_round_trip() {
    let c = SnappyCodec;
    let data = b"aaaaaaaaaaaaaaaaaaaaaaaaaaaaaaaaaaaaaaaaaaaaaaaaaaaaaaaaaaaaaaaaaaaaaaaa".to_vec();
    let packed = c.compress(&data).unwrap();
    assert!(packed.len() < data.len());
    assert_ne!(packed, data);
    assert_eq!(c.decompress(&packed, data.len()).unwrap(), data);
    match c.decompress(&[], 0) {
        Err(ParquetError::DataError(msg)) => assert!(msg.starts_with("Snappy decompress error: ")),
        other => panic!("unexpected {:?}", other),
    }
}

#[test]
fn schema_builder_sets_last_column() {
    let schema = SchemaBuilder::new()
        .with_encoding(Encoding::RleBitPacked)
        .add_column("a", ParquetType::Int32, LogicalType::Date)
        .add_optional_column("b", ParquetType::Int96, LogicalType::Timestamp(TimestampUnit::Micros))
        .with_encoding(Encoding::DeltaBinaryPacked)
        .with_compression(Compression::Gzip)
        .build();
    assert_eq!(schema.len(), 2);
    assert_eq!(schema[0].encoding, Encoding::Plain);
    assert_eq!(schema[0].compression, Compression::Uncompressed);
    assert_eq!(schema[0].logical_type, LogicalType::Date);
    assert_eq!(schema[1].encoding, Encoding::DeltaBinaryPacked);
    assert_eq!(schema[1].compression, Compression::Gzip);
    assert_eq!(schema[1].logical_type, LogicalType::Timestamp(TimestampUnit::Micros));
    assert!(SchemaBuilder::default().build().is_empty());
}

#[test]
fn default_types_for_every_physical_type() {
    let cases = [
        (ParquetType::Boolean, LogicalType::Boolean),
        (ParquetType::Int64, LogicalType::Integer),
        (ParquetType::Float, LogicalType::Float),
        (ParquetType::Double, LogicalType::Float),
        (ParquetType::FixedLenByteArray(4), LogicalType::String),
        (ParquetType::Int96, LogicalType::Timestamp(TimestampUnit::Nanos)),
    ];
    for (t, l) in cases {
        let col = ColumnSchema::default_for_type("c", t);
        assert_eq!(col.logical_type, l);
        assert_eq!(col.physical_type, t);
        assert_eq!(col.encoding, Encoding::Plain);
        assert_eq!(col.compression, Compression::Uncompressed);
        assert_eq!(col.name, "c");
    }
    let d = LogicalType::Decimal { precision: 10, scale: 2 };
    assert_ne!(d, LogicalType::Decimal { precision: 10, scale: 3 });
}

#[test]
fn streaming_reader_buffer() {
    let mut reader = StreamingParquetReader::new(Cursor::new(vec![4u8, 5, 6]), 8);
    assert_eq!(reader.buffer_size(), 8);
    assert!(reader.current_buffer().is_empty());
    assert_eq!(reader.read_next_chunk().unwrap(), Some(vec![4, 5, 6]));
    assert_eq!(reader.current_buffer(), &[4, 5, 6]);
    assert_eq!(reader.read_next_chunk().unwrap(), None);
    assert!(reader.current_buffer().is_empty());
    assert_eq!(reader.chunk_from_read(&[1, 2, 3], 2), Some(vec![1, 2]));
    assert_eq!(reader.current_buffer(), &[1, 2]);
}

#[test]
fn truncate_cells() {
    assert_eq!(truncate("short", 24), "short");
    assert_eq!(truncate("abcdefghijklmnopqrstuvwx", 24), "abcdefghijklmnopqrstuvwx");
    assert_eq!(truncate("abcdefghijklmnopqrstuvwxyz", 24), "abcdefghijklmnopqrstuvw…");
    assert_eq!(truncate("héllo", 4), "hé…");
}

#[test]
fn thrift_strings_are_decoded_lossily() {
    let data = [0x03, b'a', 0xff, b'b'];
    let mut r = ThriftReader::new(&data);
    assert_eq!(r.read_string().unwrap(), "a\u{fffd}b");
    let short = [0x05, b'a'];
    let mut r = ThriftReader::new(&short);
    match r.read_string() {
        Err(ParquetError::InvalidFile(msg)) => assert_eq!(msg, "String length exceeds data"),
        other => panic!("unexpected {:?}", other),
    }
}

#[test]
fn test_int32_conversion() {
    let data = ColumnData::Int32(vec![1, 2, 3, 4, 5]);
    let arr = ArrowConverter::column_to_arrow(&data, ParquetType::Int32).unwrap();
    match arr {
        ArrowValues::Int32(v) => {
            assert_eq!(v.len(), 5);
            assert_eq!(v[0], 1);
            assert_eq!(v[4], 5);
        },
        other => panic!("unexpected {:?}", other),
    }
}

#[test]
fn test_string_conversion() {
    let data = ColumnData::ByteArray(vec![b"hello".to_vec(), b"world".to_vec()]);
    let arr = ArrowConverter::column_to_arrow(&data, ParquetType::ByteArray).unwrap();
    match arr {
        ArrowValues::Utf8(v) => {
            assert_eq!(v.len(), 2);
            assert_eq!(v[0], "hello");
            assert_eq!(v[1], "world");
        },
        other => panic!("unexpected {:?}", other),
    }
}

#[test]
fn arrow_values_of_other_kinds() {
    match ArrowConverter::column_to_arrow(&ColumnData::Boolean(vec![0, 1, 2]), ParquetType::Boolean).unwrap() {
        ArrowValues::Boolean(v) => assert_eq!(v, vec![false, true, true]),
        other => panic!("unexpected {:?}", other),
    }
    match ArrowConverter::column_to_arrow(&ColumnData::ByteArray(vec![vec![0xff, 0x41], b"ok".to_vec()]), ParquetType::ByteArray)
        .unwrap()
    {
        ArrowValues::Utf8(v) => assert_eq!(v, vec!["".to_string(), "ok".to_string()]),
        other => panic!("unexpected {:?}", other),
    }
    match ArrowConverter::column_to_arrow(&ColumnData::Double(vec![2.5f64.to_bits()]), ParquetType::Double).unwrap() {
        ArrowValues::Float64(v) => assert_eq!(v, vec![2.5f64.to_bits()]),
        other => panic!("unexpected {:?}", other),
    }
    assert_eq!(ArrowConverter::arrow_data_type(ParquetType::Int96), ArrowType::Int64);
    assert_eq!(ArrowConverter::arrow_data_type(ParquetType::ByteArray), ArrowType::Utf8);
    assert_eq!(ArrowConverter::arrow_data_type(ParquetType::FixedLenByteArray(16)), ArrowType::FixedSizeBinary(16));
}

#[test]
fn long_form_list_count_is_unsigned() {
    let mut data = vec![0xf5, 0x0f];
    data.extend_from_slice(&[0u8; 15]);
    let mut pos = 0usize;
    skip_thrift_value(&data, &mut pos, 9).unwrap();
    assert_eq!(pos, 17);
}

#[test]
fn varint_encodings_read_back() {
    // u64::MAX takes ten bytes
    let mut data = vec![0xff; 9];
    data.push(0x01);
    data.push(0x7f);
    let mut r = ThriftReader::new(&data);
    assert_eq!(r.read_varint().unwrap(), u64::MAX);
    assert_eq!(r.remaining(), 1);
    // zigzag of -2147483648 is 4294967295: five bytes
    let data = [0x00, 0xff, 0xff, 0xff, 0xff, 0x0f, 0x09];
    let mut pos = 1usize;
    assert_eq!(read_zigzag_varint(&data, &mut pos).unwrap(), i32::MIN);
    assert_eq!(pos, 6);
    let mut r = ThriftReader::new(&[0x04, 0x03]);
    assert_eq!(r.read_i32().unwrap(), 2);
    assert_eq!(r.read_i64().unwrap(), -2);
}

#[test]
fn zero_buffer_size_reads_byte_by_byte() {
    let mut reader = StreamingParquetReader::new(Cursor::new(vec![7u8, 8]), 0);
    assert_eq!(reader.read_next_chunk().unwrap(), Some(vec![7]));
    assert_eq!(reader.read_next_chunk().unwrap(), Some(vec![8]));
    assert_eq!(reader.read_next_chunk().unwrap(), None);
}
