use parquet_php::column::{Column, ColumnType};
use parquet_php::error::ParquetError;
use parquet_php::metadata::Metadata;
use parquet_php::options::{Compression, Encoding, ReaderOptions, WriterOptions};
use parquet_php::parquet_bytes::parquet_bytes_metadata;
use parquet_php::reader::{projection_indices, BatchCursor};
use parquet_php::schema::Schema;
use parquet_php::writer::{WriterMode, WriterSession};

use parquet::basic::{
    BrotliLevel, Compression as ParquetCompression, Encoding as ParquetEncoding, GzipLevel, ZstdLevel,
};
use parquet::schema::types::ColumnPath;

fn s(t: &str) -> String {
    t.to_string()
}

#[test]
fn column_type_names() {
    assert_eq!(Column::php_boolean(s("a")).php_type(), "boolean");
    assert_eq!(Column::int32(s("a")).php_type(), "int32");
    assert_eq!(Column::int64(s("a")).php_type(), "int64");
    assert_eq!(Column::php_float(s("a")).php_type(), "float");
    assert_eq!(Column::double(s("a")).php_type(), "double");
    assert_eq!(Column::php_string(s("a")).php_type(), "string");
    assert_eq!(Column::date(s("a")).php_type(), "date");
    assert_eq!(Column::date_time(s("a")).php_type(), "dateTime");
    assert_eq!(Column::time(s("a")).php_type(), "time");
    assert_eq!(Column::json(s("a")).php_type(), "json");
    assert_eq!(Column::php_enum(s("a")).php_type(), "enum");
    assert_eq!(Column::uuid(s("a")).php_type(), "uuid");
    assert_eq!(Column::binary(s("a")).php_type(), "binary");
    assert_eq!(Column::decimal(s("a"), 10, 2).unwrap().php_type(), "decimal(10,2)");
}

#[test]
fn nested_column_type_names() {
    let tags = Column::list(s("tags"), &Column::php_string(s("element")));
    assert_eq!(tags.php_type(), "list<string>");
    let addr = Column::php_struct(s("address"), vec![Column::int32(s("a")), Column::php_string(s("b"))]);
    assert_eq!(addr.php_type(), "struct<a:int32,b:string>");
    let meta = Column::map(s("meta"), &Column::php_string(s("key")), &Column::int32(s("value")));
    assert_eq!(meta.php_type(), "map<string,int32>");
    let deep = Column::list(s("l"), &Column::map(s("m"), &Column::int64(s("k")), &Column::decimal(s("v"), 5, -1).unwrap()));
    assert_eq!(deep.php_type(), "list<map<int64,decimal(5,-1)>>");
}

#[test]
fn decimal_column_refusals() {
    assert!(matches!(Column::decimal(s("d"), 256, 2), Err(ParquetError::InvalidPrecision(256))));
    assert!(matches!(Column::decimal(s("d"), -1, 2), Err(ParquetError::InvalidPrecision(-1))));
    assert!(matches!(Column::decimal(s("d"), 10, 200), Err(ParquetError::InvalidScale(200))));
    assert!(Column::decimal(s("d"), 0, 0).is_ok());
}

#[test]
fn columns_nullable_until_required() {
    let c = Column::int64(s("id"));
    assert!(!c.is_required());
    let r = c.required();
    assert!(r.is_required());
    assert_eq!(r.name(), "id");
    assert_eq!(r.col_type, ColumnType::Int64);
}

#[test]
fn schema_lookups() {
    assert!(matches!(Schema::create(vec![]), Err(ParquetError::EmptySchema)));
    let schema = Schema::create(vec![Column::int64(s("id")), Column::php_string(s("name")), Column::double(s("id"))]).unwrap();
    assert!(schema.has(s("name")));
    assert!(!schema.has(s("missing")));
    let c = schema.column(s("id")).unwrap();
    assert_eq!(c.php_type(), "int64");
    match schema.column(s("missing")) {
        Err(ParquetError::ColumnNotFound(n)) => assert_eq!(n, "missing"),
        _ => panic!("expected ColumnNotFound"),
    }
    assert_eq!(schema.columns().len(), 3);
}

#[test]
fn schema_arrow_roundtrip() {
    let schema = Schema::create(vec![
        Column::int64(s("id")).required(),
        Column::json(s("doc")),
        Column::list(s("tags"), &Column::php_string(s("element"))),
        Column::map(s("m"), &Column::php_string(s("k")), &Column::int32(s("v")).required()),
    ])
    .unwrap();
    let fields = schema.to_arrow_schema();
    let back = Schema::from_arrow_schema(&fields);
    let cols = back.columns();
    assert_eq!(cols[0].name(), "id");
    assert!(cols[0].is_required());
    assert_eq!(cols[1].php_type(), "string");
    assert_eq!(cols[2].php_type(), "list<string>");
    assert_eq!(cols[3].php_type(), "map<string,int32>");
    match &cols[3].col_type {
        ColumnType::MapOf { key, value } => {
            assert_eq!(key.name(), "key");
            assert!(key.is_required());
            assert_eq!(value.name(), "value");
            assert!(value.is_required());
        },
        _ => panic!("expected a map"),
    }
}

#[test]
fn reader_options_values() {
    let o = ReaderOptions::create();
    assert_eq!(o.batch_size(), 8192);
    assert!(o.columns().is_none());
    assert!(matches!(o.with_batch_size(0), Err(ParquetError::InvalidBatchSize(0))));
    assert!(matches!(o.with_batch_size(-3), Err(ParquetError::InvalidBatchSize(-3))));
    let o2 = o.with_batch_size(5000).unwrap().with_columns(vec![s("id"), s("name")]);
    assert_eq!(o2.batch_size(), 5000);
    assert_eq!(o2.columns(), Some(vec![s("id"), s("name")]));
    assert_eq!(o.batch_size(), 8192);
}

#[test]
fn writer_options_values() {
    let o = WriterOptions::create();
    assert_eq!(o.compression(), Compression::Uncompressed);
    assert_eq!(o.row_group_size(), 134217728);
    assert_eq!(o.page_size(), 1048576);
    assert!(o.column_compressions().is_empty());
    let o2 = o
        .with_compression(Compression::Zstd)
        .with_column_compression(s("payload"), Compression::Snappy)
        .with_column_compression(s("payload"), Compression::Gzip)
        .with_column_encoding(s("id"), Encoding::DeltaBinaryPacked);
    assert_eq!(o2.compression(), Compression::Zstd);
    assert_eq!(o2.column_compressions(), vec![(s("payload"), Compression::Gzip)]);
    assert_eq!(o2.column_encodings(), vec![(s("id"), Encoding::DeltaBinaryPacked)]);
    assert!(matches!(o.with_row_group_size(0), Err(ParquetError::InvalidRowGroupSize(0))));
    assert!(matches!(o.with_page_size(-1), Err(ParquetError::InvalidPageSize(-1))));
    assert_eq!(o.with_page_size(4096).unwrap().page_size(), 4096);
    assert_eq!(o.with_row_group_size(10).unwrap().row_group_size(), 10);
}

#[test]
fn metadata_from_footer() {
    let m = Metadata::from_footer(100, 2, Some(s("parquet-rs")), 1);
    assert_eq!(m.row_count(), 100);
    assert_eq!(m.row_group_count(), 2);
    assert_eq!(m.created_by(), Some(s("parquet-rs")));
    assert_eq!(m.version(), 1);
}

#[test]
fn projection_skips_unknown_names() {
    let fields = vec![s("id"), s("name"), s("price")];
    assert_eq!(projection_indices(&vec![s("price"), s("nope"), s("id")], &fields), vec![2, 0]);
    assert_eq!(projection_indices(&vec![], &fields), Vec::<usize>::new());
}

#[test]
fn cursor_ends_once() {
    let mut c = BatchCursor::new();
    assert!(c.active());
    c.finish();
    assert!(!c.active());
}

#[test]
fn writer_session_states() {
    let schema = Schema::create(vec![Column::int64(s("id"))]).unwrap();
    let mut w = WriterSession::new();
    assert_eq!(w.mode(), WriterMode::Closed);
    assert!(w.check_open().is_ok());
    assert!(matches!(w.batch(1), Err(ParquetError::WriterNotOpen)));
    assert!(matches!(w.batch(0), Ok(false)));
    assert!(matches!(w.close(), Err(ParquetError::WriterAlreadyClosed)));
    w.opened(WriterMode::Buffer, &schema);
    assert!(matches!(w.check_open(), Err(ParquetError::WriterAlreadyOpen)));
    assert!(matches!(w.batch(3), Ok(true)));
    assert!(matches!(w.get_buffer(), Err(ParquetError::NoBuffer)));
    assert!(matches!(w.close(), Ok(WriterMode::Buffer)));
    w.buffer_closed(vec![1, 2, 3]);
    assert_eq!(w.get_buffer().unwrap(), vec![1, 2, 3]);
    assert_eq!(w.take_buffer().unwrap(), vec![1, 2, 3]);
    assert!(matches!(w.take_buffer(), Err(ParquetError::BufferMissing)));
    assert!(matches!(w.close(), Err(ParquetError::WriterAlreadyClosed)));
}

#[test]
fn writer_properties_follow_options() {
    let o = WriterOptions::create()
        .with_compression(Compression::Zstd)
        .with_column_compression(s("a"), Compression::Snappy)
        .with_column_encoding(s("b"), Encoding::DeltaBinaryPacked)
        .with_row_group_size(1000)
        .unwrap()
        .with_page_size(4096)
        .unwrap();
    let props = o.to_writer_properties().unwrap().into_properties();
    assert_eq!(props.max_row_group_row_count(), Some(1000));
    assert_eq!(props.data_page_size_limit(), 4096);
    assert_eq!(props.compression(&ColumnPath::from("a")), ParquetCompression::SNAPPY);
    assert_eq!(props.compression(&ColumnPath::from("b")), ParquetCompression::ZSTD(ZstdLevel::default()));
    assert_eq!(props.encoding(&ColumnPath::from("b")), Some(ParquetEncoding::DELTA_BINARY_PACKED));
    assert_eq!(props.encoding(&ColumnPath::from("a")), None);
}

#[test]
fn default_writer_properties() {
    let props = WriterOptions::create().to_writer_properties().unwrap().into_properties();
    assert_eq!(props.max_row_group_row_count(), Some(134217728));
    assert_eq!(props.data_page_size_limit(), 1048576);
    assert_eq!(props.compression(&ColumnPath::from("x")), ParquetCompression::UNCOMPRESSED);
}

#[test]
fn dictionary_column_encoding_refused() {
    let o = WriterOptions::create()
        .with_column_encoding(s("a"), Encoding::Plain)
        .with_column_encoding(s("b"), Encoding::RleDictionary);
    assert_eq!(
        o.to_writer_properties().err(),
        Some(ParquetError::DictionaryFallbackEncoding { column: s("b") })
    );
    let o = WriterOptions::create().with_column_encoding(s("c"), Encoding::PlainDictionary);
    assert_eq!(
        o.to_writer_properties().err(),
        Some(ParquetError::DictionaryFallbackEncoding { column: s("c") })
    );
}

#[test]
fn codecs_at_default_levels() {
    let props = |c: Compression| {
        WriterOptions::create().with_compression(c).to_writer_properties().unwrap().into_properties().compression(&ColumnPath::from("x"))
    };
    assert_eq!(props(Compression::Uncompressed), ParquetCompression::UNCOMPRESSED);
    assert_eq!(props(Compression::Snappy), ParquetCompression::SNAPPY);
    assert_eq!(props(Compression::Gzip), ParquetCompression::GZIP(GzipLevel::default()));
    assert_eq!(props(Compression::Brotli), ParquetCompression::BROTLI(BrotliLevel::default()));
    assert_eq!(props(Compression::Lz4Raw), ParquetCompression::LZ4_RAW);
    assert_eq!(props(Compression::Zstd), ParquetCompression::ZSTD(ZstdLevel::default()));
}

#[test]
fn encodings_map_one_to_one() {
    let cases = [
        (Encoding::Plain, ParquetEncoding::PLAIN),
        (Encoding::DeltaBinaryPacked, ParquetEncoding::DELTA_BINARY_PACKED),
        (Encoding::DeltaLengthByteArray, ParquetEncoding::DELTA_LENGTH_BYTE_ARRAY),
        (Encoding::DeltaByteArray, ParquetEncoding::DELTA_BYTE_ARRAY),
        (Encoding::ByteStreamSplit, ParquetEncoding::BYTE_STREAM_SPLIT),
    ];
    for (e, expected) in cases {
        let props = WriterOptions::create().with_column_encoding(s("c"), e).to_writer_properties().unwrap().into_properties();
        assert_eq!(props.encoding(&ColumnPath::from("c")), Some(expected));
    }
}

#[test]
fn last_column_compression_wins() {
    let props = WriterOptions::create()
        .with_column_compression(s("a"), Compression::Snappy)
        .with_column_compression(s("b"), Compression::Gzip)
        .with_column_compression(s("a"), Compression::Lz4Raw)
        .to_writer_properties()
        .unwrap()
        .into_properties();
    assert_eq!(props.compression(&ColumnPath::from("a")), ParquetCompression::LZ4_RAW);
    assert_eq!(props.compression(&ColumnPath::from("b")), ParquetCompression::GZIP(GzipLevel::default()));
    assert_eq!(props.compression(&ColumnPath::from("c")), ParquetCompression::UNCOMPRESSED);
}

fn small_parquet_file(rows: i64) -> Vec<u8> {
    let field = arrow::datatypes::Field::new("id", arrow::datatypes::DataType::Int64, false);
    let schema = std::sync::Arc::new(arrow::datatypes::Schema::new(vec![field]));
    let column: arrow::array::ArrayRef = std::sync::Arc::new(arrow::array::Int64Array::from((0..rows).collect::<Vec<i64>>()));
    let batch = arrow::record_batch::RecordBatch::try_new(schema.clone(), vec![column]).unwrap();
    let mut writer = parquet::arrow::ArrowWriter::try_new(Vec::new(), schema, None).unwrap();
    writer.write(&batch).unwrap();
    writer.into_inner().unwrap()
}

#[test]
fn metadata_of_parquet_bytes() {
    let m = parquet_bytes_metadata(&small_parquet_file(5)).unwrap();
    assert_eq!(m.row_count(), 5);
    assert_eq!(m.row_group_count(), 1);
    assert_eq!(m.version(), 1);
    assert!(m.created_by().unwrap().starts_with("parquet-rs version"));
    match parquet_bytes_metadata(&b"not parquet".to_vec()) {
        Err(ParquetError::InvalidParquetData(message)) => assert!(!message.is_empty()),
        other => panic!("unexpected {other:?}"),
    }
}
