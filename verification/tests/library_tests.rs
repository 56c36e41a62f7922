use parquet_lite::{read_metadata, ColumnSchema, Compression, LogicalType, ParquetType, SchemaBuilder, StreamingParquetReader};
use std::io::Cursor;

#[test]
fn test_invalid_magic() {
    let data = b"NOT_PARQUET_DATA_AT_ALL!!";
    let result = read_metadata(data);
    assert!(result.is_err());
}

#[test]
fn test_too_small() {
    let data = b"PAR1";
    let result = read_metadata(data);
    assert!(result.is_err());
}

#[test]
fn test_schema_builder_integration() {
    let schema = SchemaBuilder::new()
        .add_column("id", ParquetType::Int64, LogicalType::Integer)
        .add_column("name", ParquetType::ByteArray, LogicalType::String)
        .add_optional_column("value", ParquetType::Double, LogicalType::Float)
        .with_compression(Compression::Snappy)
        .build();

    assert_eq!(schema.len(), 3);
    assert_eq!(schema[0].name, "id");
    assert_eq!(schema[1].name, "name");
    assert_eq!(schema[2].name, "value");
    assert!(!schema[2].required);
}

#[test]
fn test_schema_builder() {
    let schema = SchemaBuilder::new()
        .add_column("id", ParquetType::Int64, LogicalType::Integer)
        .add_column("name", ParquetType::ByteArray, LogicalType::String)
        .add_optional_column("score", ParquetType::Double, LogicalType::Float)
        .with_compression(Compression::Snappy)
        .build();

    assert_eq!(schema.len(), 3);
    assert_eq!(schema[0].name, "id");
    assert!(schema[0].required);
    assert_eq!(schema[2].name, "score");
    assert!(!schema[2].required);
    assert_eq!(schema[2].compression, Compression::Snappy);
}

#[test]
fn test_default_for_type() {
    let col = ColumnSchema::default_for_type("age", ParquetType::Int32);
    assert_eq!(col.logical_type, LogicalType::Integer);
    assert!(col.required);

    let col = ColumnSchema::default_for_type("name", ParquetType::ByteArray);
    assert_eq!(col.logical_type, LogicalType::String);
}

#[test]
fn test_streaming_reader_chunks() {
    let data = vec![1u8, 2, 3, 4, 5, 6, 7, 8, 9, 10];
    let cursor = Cursor::new(data.clone());
    let mut reader = StreamingParquetReader::new(cursor, 4);

    let chunk1 = reader.read_next_chunk().unwrap().unwrap();
    assert_eq!(chunk1.len(), 4);
    assert_eq!(chunk1, vec![1, 2, 3, 4]);

    let chunk2 = reader.read_next_chunk().unwrap().unwrap();
    assert_eq!(chunk2.len(), 4);
    assert_eq!(chunk2, vec![5, 6, 7, 8]);

    let chunk3 = reader.read_next_chunk().unwrap().unwrap();
    assert_eq!(chunk3.len(), 2);
    assert_eq!(chunk3, vec![9, 10]);

    let chunk4 = reader.read_next_chunk().unwrap();
    assert!(chunk4.is_none());
}
