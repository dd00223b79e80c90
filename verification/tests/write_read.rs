use parquet_php::arrow_model::{ArrowField, ArrowType, TimeUnit};
use parquet_php::column::Column;
use parquet_php::column_data::{ColumnData, ColumnValues};
use parquet_php::decode::{record_batch_to_rows, value_from_array, RecordBatchData};
use parquet_php::encode::{build_arrow_array, rows_to_record_batch};
use parquet_php::error::ParquetError;
use parquet_php::php::{key_of, PhpKey, PhpValue};
use parquet_php::schema::Schema;
use parquet_php::writer::{WriterMode, WriterSession};

fn s(t: &str) -> String {
    t.to_string()
}

fn text(t: &str) -> PhpValue {
    PhpValue::Str(s(t))
}

fn arr(entries: Vec<(&str, PhpValue)>) -> PhpValue {
    PhpValue::Array(entries.into_iter().map(|(k, v)| (key_of(k), v)).collect())
}

fn list(values: Vec<PhpValue>) -> PhpValue {
    PhpValue::Array(values.into_iter().enumerate().map(|(i, v)| (PhpKey::Long(i as i64), v)).collect())
}

fn write_then_read(schema: &Schema, rows: &Vec<PhpValue>) -> Vec<Vec<(String, PhpValue)>> {
    let fields = schema.to_arrow_schema();
    let columns = rows_to_record_batch(rows, &fields).unwrap();
    let batch = RecordBatchData { fields, columns, num_rows: rows.len() };
    record_batch_to_rows(&batch).unwrap()
}

#[test]
fn primitive_columns_written_and_read() {
    let schema = Schema::create(vec![
        Column::int64(s("id")).required(),
        Column::php_string(s("name")),
        Column::double(s("price")),
        Column::php_boolean(s("active")),
        Column::date(s("created_at")),
        Column::decimal(s("amount"), 10, 2).unwrap(),
    ])
    .unwrap();
    let price = 9.99f64.to_bits();
    let rows = vec![
        arr(vec![
            ("id", PhpValue::Long(1)),
            ("name", text("Alice")),
            ("price", PhpValue::Double(price)),
            ("active", PhpValue::Bool(true)),
            ("created_at", text("2024-01-15")),
            ("amount", text("123.45")),
        ]),
        arr(vec![("id", PhpValue::Long(2)), ("name", PhpValue::Null), ("created_at", text("2024-02-20")), ("amount", text("67.89"))]),
    ];
    let fields = schema.to_arrow_schema();
    let columns = rows_to_record_batch(&rows, &fields).unwrap();
    assert_eq!(columns[0], ColumnData { valid: vec![true, true], values: ColumnValues::Int64s(vec![1, 2]) });
    assert_eq!(columns[1], ColumnData { valid: vec![true, false], values: ColumnValues::Texts(vec![s("Alice"), s("")]) });
    assert_eq!(columns[4], ColumnData { valid: vec![true, true], values: ColumnValues::Int32s(vec![19737, 19773]) });
    assert_eq!(columns[5], ColumnData { valid: vec![true, true], values: ColumnValues::Decimals(vec![12345, 6789]) });
    let back = write_then_read(&schema, &rows);
    assert_eq!(
        back[0],
        vec![
            (s("id"), PhpValue::Long(1)),
            (s("name"), text("Alice")),
            (s("price"), PhpValue::Double(price)),
            (s("active"), PhpValue::Bool(true)),
            (s("created_at"), text("2024-01-15")),
            (s("amount"), text("123.45")),
        ]
    );
    assert_eq!(back[1][1], (s("name"), PhpValue::Null));
    assert_eq!(back[1][2], (s("price"), PhpValue::Null));
    assert_eq!(back[1][5], (s("amount"), text("67.89")));
}

#[test]
fn nested_columns_written_and_read() {
    let schema = Schema::create(vec![
        Column::php_string(s("name")).required(),
        Column::list(s("tags"), &Column::php_string(s("element"))),
        Column::php_struct(s("address"), vec![Column::php_string(s("street")), Column::php_string(s("city")), Column::php_string(s("zip"))]),
        Column::map(s("metadata"), &Column::php_string(s("key")), &Column::int32(s("value"))),
    ])
    .unwrap();
    let rows = vec![arr(vec![
        ("name", text("Alice")),
        ("tags", list(vec![text("admin"), text("active")])),
        ("address", arr(vec![("street", text("123 Main St")), ("city", text("Paris")), ("zip", text("75001"))])),
        ("metadata", arr(vec![("login_count", PhpValue::Long(42)), ("score", PhpValue::Long(100))])),
    ])];
    let back = write_then_read(&schema, &rows);
    assert_eq!(back[0][1], (s("tags"), list(vec![text("admin"), text("active")])));
    assert_eq!(
        back[0][2],
        (s("address"), arr(vec![("street", text("123 Main St")), ("city", text("Paris")), ("zip", text("75001"))]))
    );
    assert_eq!(
        back[0][3],
        (s("metadata"), arr(vec![("login_count", PhpValue::Long(42)), ("score", PhpValue::Long(100))]))
    );
}

#[test]
fn null_nested_values_read_as_null() {
    let schema = Schema::create(vec![
        Column::list(s("tags"), &Column::int32(s("element"))),
        Column::php_struct(s("point"), vec![Column::int32(s("x")), Column::int32(s("y"))]),
        Column::map(s("m"), &Column::int64(s("key")), &Column::php_string(s("value"))),
    ])
    .unwrap();
    let rows = vec![
        arr(vec![]),
        arr(vec![
            ("tags", list(vec![PhpValue::Long(1), PhpValue::Null])),
            ("point", arr(vec![("x", PhpValue::Long(3))])),
            ("m", arr(vec![("7", text("seven"))])),
        ]),
    ];
    let back = write_then_read(&schema, &rows);
    assert_eq!(back[0], vec![(s("tags"), PhpValue::Null), (s("point"), PhpValue::Null), (s("m"), PhpValue::Null)]);
    assert_eq!(back[1][0], (s("tags"), list(vec![PhpValue::Long(1), PhpValue::Null])));
    assert_eq!(back[1][1], (s("point"), arr(vec![("x", PhpValue::Long(3)), ("y", PhpValue::Null)])));
    assert_eq!(back[1][2], (s("m"), PhpValue::Array(vec![(PhpKey::Long(7), text("seven"))])));
}

#[test]
fn text_typed_columns_written_and_read() {
    let schema = Schema::create(vec![
        Column::uuid(s("id")),
        Column::binary(s("blob")),
        Column::time(s("at")),
        Column::date_time(s("when")),
        Column::json(s("doc")),
    ])
    .unwrap();
    let rows = vec![arr(vec![
        ("id", text("550E8400-E29B-41D4-A716-446655440000")),
        ("blob", text("caf\u{e9}")),
        ("at", text("12:34:56.5")),
        ("when", text("2024-01-15 10:30:00")),
        ("doc", text("{\"a\":1}")),
    ])];
    let fields = schema.to_arrow_schema();
    let columns = rows_to_record_batch(&rows, &fields).unwrap();
    assert_eq!(columns[1].values, ColumnValues::Binaries(vec![vec![0x63, 0x61, 0x66, 0xc3, 0xa9]]));
    assert_eq!(columns[2].values, ColumnValues::Int64s(vec![45296500000]));
    let back = write_then_read(&schema, &rows);
    assert_eq!(
        back[0],
        vec![
            (s("id"), text("550e8400-e29b-41d4-a716-446655440000")),
            (s("blob"), text("caf\u{e9}")),
            (s("at"), text("12:34:56.500000")),
            (s("when"), text("2024-01-15T10:30:00.000000Z")),
            (s("doc"), text("{\"a\":1}")),
        ]
    );
}

#[test]
fn row_refusals() {
    let schema = Schema::create(vec![Column::int64(s("id")).required(), Column::date(s("d"))]).unwrap();
    let fields = schema.to_arrow_schema();
    let missing = vec![arr(vec![("d", text("2024-01-01"))])];
    assert_eq!(
        rows_to_record_batch(&missing, &fields).unwrap_err(),
        ParquetError::MissingRequired { column: s("id"), row: 0 }
    );
    let null_id = vec![arr(vec![("id", PhpValue::Long(1))]), arr(vec![("id", PhpValue::Null)])];
    assert_eq!(
        rows_to_record_batch(&null_id, &fields).unwrap_err(),
        ParquetError::MissingRequired { column: s("id"), row: 1 }
    );
    assert_eq!(rows_to_record_batch(&vec![PhpValue::Long(3)], &fields).unwrap_err(), ParquetError::RowNotArray(0));
    let wrong = vec![arr(vec![("id", text("1"))])];
    assert_eq!(
        rows_to_record_batch(&wrong, &fields).unwrap_err(),
        ParquetError::TypeMismatch { column: s("id"), expected: s("int64"), row: 0 }
    );
    let bad_date = vec![arr(vec![("id", PhpValue::Long(1)), ("d", text("2024-02-30"))])];
    assert_eq!(
        rows_to_record_batch(&bad_date, &fields).unwrap_err(),
        ParquetError::InvalidDate { column: s("d"), value: s("2024-02-30") }
    );
    let not_text = vec![arr(vec![("id", PhpValue::Long(1)), ("d", PhpValue::Long(5))])];
    assert_eq!(
        rows_to_record_batch(&not_text, &fields).unwrap_err(),
        ParquetError::TypeMismatch { column: s("d"), expected: s("date (Y-m-d string)"), row: 0 }
    );
}

#[test]
fn value_refusals() {
    let cases: Vec<(Column, PhpValue, ParquetError)> = vec![
        (Column::int32(s("n")), PhpValue::Long(1 << 40), ParquetError::TypeMismatch { column: s("n"), expected: s("int32"), row: 0 }),
        (Column::uuid(s("u")), text("not-a-uuid"), ParquetError::InvalidUuid { column: s("u"), value: s("not-a-uuid") }),
        (Column::time(s("t")), text("xx"), ParquetError::InvalidTime { column: s("t"), value: s("xx") }),
        (Column::time(s("t")), text("10:00:00.12345\u{e9}"), ParquetError::InvalidTime { column: s("t"), value: s("10:00:00.12345\u{e9}") }),
        (Column::date_time(s("w")), text("soon"), ParquetError::InvalidDateTime { column: s("w"), value: s("soon") }),
        (Column::decimal(s("a"), 10, 2).unwrap(), text("1.x"), ParquetError::InvalidDecimal { column: s("a"), value: s("1.x") }),
        (Column::binary(s("b")), PhpValue::Other, ParquetError::TypeMismatch { column: s("b"), expected: s("binary (string)"), row: 0 }),
        (Column::php_boolean(s("f")), PhpValue::Long(1), ParquetError::TypeMismatch { column: s("f"), expected: s("boolean"), row: 0 }),
        (Column::php_float(s("f")), PhpValue::Long(1), ParquetError::TypeMismatch { column: s("f"), expected: s("float"), row: 0 }),
    ];
    for (column, value, expected) in cases {
        let name = column.name();
        let field = column.to_arrow_field();
        let rows = vec![PhpValue::Array(vec![(key_of(&name), value)])];
        assert_eq!(build_arrow_array(&rows, &field).unwrap_err(), expected);
    }
}

#[test]
fn nested_refusals_name_the_column() {
    let schema = Schema::create(vec![Column::php_struct(s("address"), vec![Column::int32(s("zip"))])]).unwrap();
    let fields = schema.to_arrow_schema();
    let rows = vec![arr(vec![("address", arr(vec![("zip", text("75001"))]))])];
    assert_eq!(
        rows_to_record_batch(&rows, &fields).unwrap_err(),
        ParquetError::TypeMismatch { column: s("address.zip"), expected: s("int32"), row: 0 }
    );
    let schema = Schema::create(vec![Column::list(s("xs"), &Column::date(s("element")))]).unwrap();
    let fields = schema.to_arrow_schema();
    let rows = vec![arr(vec![("xs", list(vec![text("2024-01-01"), text("nope")]))])];
    assert_eq!(
        rows_to_record_batch(&rows, &fields).unwrap_err(),
        ParquetError::TypeMismatch { column: s("xs"), expected: s("date (Y-m-d)"), row: 0 }
    );
    let rows = vec![arr(vec![("xs", text("2024-01-01"))])];
    assert_eq!(
        rows_to_record_batch(&rows, &fields).unwrap_err(),
        ParquetError::TypeMismatch { column: s("xs"), expected: s("array (for list)"), row: 0 }
    );
    let schema = Schema::create(vec![Column::map(s("m"), &Column::php_string(s("k")), &Column::int32(s("v")))]).unwrap();
    let fields = schema.to_arrow_schema();
    let rows = vec![arr(vec![("m", arr(vec![("a", text("x"))]))])];
    assert_eq!(
        rows_to_record_batch(&rows, &fields).unwrap_err(),
        ParquetError::TypeMismatch { column: s("m.value"), expected: s("int32"), row: 0 }
    );
}

#[test]
fn map_keys_and_values_must_match_in_number() {
    let field = |name: &str, data_type: ArrowType, nullable: bool| ArrowField { name: s(name), data_type, nullable };
    let entries = field(
        "entries",
        ArrowType::Struct(vec![field("keys", ArrowType::Utf8, false), field("values", ArrowType::Time64(TimeUnit::Nanosecond), true)]),
        false,
    );
    let m = field("m", ArrowType::MapOf(Box::new(entries), false), true);
    let rows = vec![arr(vec![("m", arr(vec![("a", PhpValue::Null)]))])];
    assert_eq!(
        build_arrow_array(&rows, &m).unwrap_err(),
        ParquetError::MapLengthMismatch { column: s("m"), row: 0, keys: 1, values: 0, valid: true, nested: false }
    );
}

#[test]
fn uuids_inside_lists_structs_and_maps() {
    let u = "550e8400-e29b-41d4-a716-446655440000";
    let bytes = [0x55u8, 0x0e, 0x84, 0x00, 0xe2, 0x9b, 0x41, 0xd4, 0xa7, 0x16, 0x44, 0x66, 0x55, 0x44, 0x00, 0x00];
    let schema = Schema::create(vec![
        Column::list(s("ids"), &Column::uuid(s("element"))),
        Column::php_struct(s("p"), vec![Column::uuid(s("id")), Column::int32(s("n"))]),
        Column::map(s("m"), &Column::php_string(s("k")), &Column::uuid(s("v"))),
    ])
    .unwrap();
    let rows = vec![
        arr(vec![
            ("ids", list(vec![text(u), PhpValue::Null])),
            ("p", arr(vec![("id", text(u)), ("n", PhpValue::Long(1))])),
            ("m", arr(vec![("a", text(u)), ("b", PhpValue::Null)])),
        ]),
        arr(vec![("ids", PhpValue::Null), ("p", PhpValue::Null), ("m", PhpValue::Null)]),
    ];
    let fields = schema.to_arrow_schema();
    let columns = rows_to_record_batch(&rows, &fields).unwrap();
    match &columns[0].values {
        ColumnValues::Lists(ends, elements) => {
            assert_eq!(ends, &vec![2, 2]);
            assert_eq!(elements.values, ColumnValues::Uuids(vec![bytes, [0u8; 16]]));
            assert_eq!(elements.valid, vec![true, false]);
        }
        other => panic!("not a list column: {other:?}"),
    }
    match &columns[1].values {
        ColumnValues::Structs(children) => {
            assert_eq!(children[0].values, ColumnValues::Uuids(vec![bytes, [0u8; 16]]));
            assert_eq!(children[0].valid, vec![true, false]);
            assert_eq!(children[1].valid.len(), 2);
        }
        other => panic!("not a struct column: {other:?}"),
    }
    let back = write_then_read(&schema, &rows);
    assert_eq!(
        back[0],
        vec![
            (s("ids"), list(vec![text(u), PhpValue::Null])),
            (s("p"), arr(vec![("id", text(u)), ("n", PhpValue::Long(1))])),
            (s("m"), arr(vec![("a", text(u)), ("b", PhpValue::Null)])),
        ]
    );
    assert_eq!(back[1], vec![(s("ids"), PhpValue::Null), (s("p"), PhpValue::Null), (s("m"), PhpValue::Null)]);
    let bad = vec![arr(vec![("ids", list(vec![text("nope")]))])];
    assert_eq!(
        rows_to_record_batch(&bad, &fields).unwrap_err(),
        ParquetError::TypeMismatch { column: s("ids"), expected: s("uuid"), row: 0 }
    );
}

#[test]
fn map_integer_keys_from_texts() {
    let schema = Schema::create(vec![Column::map(s("m"), &Column::int64(s("k")), &Column::php_boolean(s("v")))]).unwrap();
    let fields = schema.to_arrow_schema();
    let rows = vec![arr(vec![("m", arr(vec![("12", PhpValue::Bool(true)), ("-3", PhpValue::Bool(false))]))])];
    let columns = rows_to_record_batch(&rows, &fields).unwrap();
    match &columns[0].values {
        ColumnValues::Maps(ends, keys, values) => {
            assert_eq!(ends, &vec![2]);
            assert_eq!(keys.valid, vec![true, true]);
            assert_eq!(keys.values, ColumnValues::Int64s(vec![12, -3]));
            assert_eq!(values.values, ColumnValues::Booleans(vec![true, false]));
        },
        _ => panic!("expected a map column"),
    }
    let not_numeric = vec![arr(vec![("m", arr(vec![("12", PhpValue::Bool(true)), ("x", PhpValue::Bool(false))]))])];
    assert_eq!(
        rows_to_record_batch(&not_numeric, &fields).unwrap_err(),
        ParquetError::NullInRequiredField { column: s("m") }
    );
}

#[test]
fn nulls_where_arrow_admits_none_refused() {
    let schema = Schema::create(vec![
        Column::list(s("tags"), &Column::php_string(s("element")).required()),
        Column::php_struct(s("p"), vec![Column::int64(s("x")).required(), Column::int64(s("y"))]),
    ])
    .unwrap();
    let fields = schema.to_arrow_schema();
    let ok = vec![
        arr(vec![("tags", list(vec![text("a")])), ("p", arr(vec![("x", PhpValue::Long(1))]))]),
        arr(vec![]),
    ];
    assert!(rows_to_record_batch(&ok, &fields).is_ok());
    let null_element = vec![arr(vec![("tags", list(vec![text("a"), PhpValue::Null]))])];
    assert_eq!(
        rows_to_record_batch(&null_element, &fields).unwrap_err(),
        ParquetError::MissingRequired { column: s("tags.element"), row: 0 }
    );
    let missing_field = vec![arr(vec![("p", arr(vec![("y", PhpValue::Long(2))]))])];
    assert_eq!(
        rows_to_record_batch(&missing_field, &fields).unwrap_err(),
        ParquetError::MissingRequired { column: s("p.x"), row: 0 }
    );
}

#[test]
fn decimal_configuration_checked_by_arrow() {
    let column = Column::decimal(s("a"), 0, 0).unwrap();
    let rows = vec![arr(vec![("a", text("1"))])];
    match build_arrow_array(&rows, &column.to_arrow_field()) {
        Err(ParquetError::InvalidDecimalConfig(m)) => {
            assert_eq!(m, "Invalid argument error: precision cannot be 0, has to be between [1, 38]")
        }
        other => panic!("unexpected {:?}", other),
    }
    let column = Column::decimal(s("a"), 5, 7).unwrap();
    match build_arrow_array(&rows, &column.to_arrow_field()) {
        Err(ParquetError::InvalidDecimalConfig(m)) => {
            assert_eq!(m, "Invalid argument error: scale 7 is greater than precision 5")
        }
        other => panic!("unexpected {:?}", other),
    }
    let column = Column::decimal(s("a"), 40, 2).unwrap();
    match build_arrow_array(&rows, &column.to_arrow_field()) {
        Err(ParquetError::InvalidDecimalConfig(m)) => {
            assert_eq!(m, "Invalid argument error: precision 40 is greater than max 38")
        }
        other => panic!("unexpected {:?}", other),
    }
}

#[test]
fn unsupported_types_refused() {
    let field = ArrowField { name: s("x"), data_type: ArrowType::Other, nullable: true };
    assert_eq!(
        build_arrow_array(&vec![], &field).unwrap_err(),
        ParquetError::UnsupportedType { column: s("x"), data_type: ArrowType::Other }
    );
    let field = ArrowField { name: s("t"), data_type: ArrowType::Time64(TimeUnit::Nanosecond), nullable: true };
    assert!(matches!(build_arrow_array(&vec![], &field), Err(ParquetError::UnsupportedType { .. })));
}

#[test]
fn read_refusals_and_replacements() {
    let date = ArrowField { name: s("d"), data_type: ArrowType::Date32, nullable: true };
    let column = ColumnData { valid: vec![true, true], values: ColumnValues::Int32s(vec![95026236, 95026237]) };
    assert_eq!(value_from_array(&column, 0, &date).unwrap(), text("+262142-12-31"));
    assert_eq!(value_from_array(&column, 1, &date).unwrap_err(), ParquetError::DateOutOfRange(95026237));
    let column = ColumnData { valid: vec![true, true, true], values: ColumnValues::Int32s(vec![-1, -96465292, -96465293]) };
    assert_eq!(value_from_array(&column, 0, &date).unwrap(), text("1969-12-31"));
    assert_eq!(value_from_array(&column, 1, &date).unwrap(), text("-262143-01-01"));
    assert_eq!(value_from_array(&column, 2, &date).unwrap_err(), ParquetError::DateOutOfRange(-96465293));
    let ts = ArrowField { name: s("t"), data_type: ArrowType::Timestamp(TimeUnit::Microsecond, None), nullable: true };
    let column = ColumnData { valid: vec![true], values: ColumnValues::Int64s(vec![i64::MAX]) };
    assert_eq!(value_from_array(&column, 0, &ts).unwrap_err(), ParquetError::InvalidTimestamp(i64::MAX));
    let bin = ArrowField { name: s("b"), data_type: ArrowType::Binary, nullable: true };
    let column = ColumnData { valid: vec![true], values: ColumnValues::Binaries(vec![vec![0x66, 0xff]]) };
    assert_eq!(value_from_array(&column, 0, &bin).unwrap(), text("f\u{fffd}"));
    let other = ArrowField { name: s("o"), data_type: ArrowType::Other, nullable: true };
    let column = ColumnData { valid: vec![true], values: ColumnValues::Unread };
    assert_eq!(value_from_array(&column, 0, &other).unwrap(), PhpValue::Null);
}

#[test]
fn map_read_keeps_string_and_integer_keys() {
    let kf = ArrowField { name: s("key"), data_type: ArrowType::Boolean, nullable: false };
    let vf = ArrowField { name: s("value"), data_type: ArrowType::Int64, nullable: true };
    let entries = ArrowField { name: s("entries"), data_type: ArrowType::Struct(vec![kf, vf]), nullable: false };
    let field = ArrowField { name: s("m"), data_type: ArrowType::MapOf(Box::new(entries), false), nullable: true };
    let column = ColumnData {
        valid: vec![true],
        values: ColumnValues::Maps(
            vec![2],
            Box::new(ColumnData { valid: vec![true, true], values: ColumnValues::Booleans(vec![true, false]) }),
            Box::new(ColumnData { valid: vec![true, true], values: ColumnValues::Int64s(vec![1, 2]) }),
        ),
    };
    assert_eq!(value_from_array(&column, 0, &field).unwrap(), PhpValue::Array(vec![]));
}

#[test]
fn struct_read_numeric_field_names() {
    let f0 = ArrowField { name: s("0"), data_type: ArrowType::Int64, nullable: true };
    let f1 = ArrowField { name: s("x"), data_type: ArrowType::Int64, nullable: true };
    let field = ArrowField { name: s("s"), data_type: ArrowType::Struct(vec![f0, f1]), nullable: true };
    let column = ColumnData {
        valid: vec![true],
        values: ColumnValues::Structs(vec![
            ColumnData { valid: vec![true], values: ColumnValues::Int64s(vec![5]) },
            ColumnData { valid: vec![false], values: ColumnValues::Int64s(vec![0]) },
        ]),
    };
    assert_eq!(
        value_from_array(&column, 0, &field).unwrap(),
        PhpValue::Array(vec![(PhpKey::Long(0), PhpValue::Long(5)), (PhpKey::Str(s("x")), PhpValue::Null)])
    );
}

#[test]
fn writer_session_prepares_batches() {
    let schema = Schema::create(vec![Column::int32(s("n"))]).unwrap();
    let mut w = WriterSession::new();
    let rows = vec![arr(vec![("n", PhpValue::Long(4))])];
    assert_eq!(w.prepare_batch(&rows).unwrap_err(), ParquetError::WriterNotOpen);
    w.opened(WriterMode::File, &schema);
    assert!(w.prepare_batch(&vec![]).unwrap().is_none());
    let columns = w.prepare_batch(&rows).unwrap().unwrap();
    assert_eq!(columns, vec![ColumnData { valid: vec![true], values: ColumnValues::Int32s(vec![4]) }]);
}

#[test]
fn canonical_number_texts_read_back() {
    let schema = Schema::create(vec![
        Column::time(s("at")),
        Column::decimal(s("price"), 12, 2).unwrap(),
        Column::decimal(s("count"), 10, 0).unwrap(),
    ])
    .unwrap();
    let rows = vec![
        arr(vec![("at", text("00:00:00.000001")), ("price", text("-1.05")), ("count", text("12345"))]),
        arr(vec![("at", text("23:59:59.999999")), ("price", text("0.00")), ("count", text("-7"))]),
    ];
    let back = write_then_read(&schema, &rows);
    assert_eq!(back[0], vec![(s("at"), text("00:00:00.000001")), (s("price"), text("-1.05")), (s("count"), text("12345"))]);
    assert_eq!(back[1], vec![(s("at"), text("23:59:59.999999")), (s("price"), text("0.00")), (s("count"), text("-7"))]);
}

#[test]
fn small_negative_decimal_keeps_sign() {
    let schema = Schema::create(vec![Column::decimal(s("price"), 12, 2).unwrap()]).unwrap();
    let rows = vec![arr(vec![("price", text("-0.05"))])];
    let fields = schema.to_arrow_schema();
    let columns = rows_to_record_batch(&rows, &fields).unwrap();
    assert_eq!(columns[0].values, ColumnValues::Decimals(vec![-5]));
    let stored = ColumnData { valid: vec![true], values: ColumnValues::Decimals(vec![-5]) };
    let read = value_from_array(&stored, 0, &fields[0]).unwrap();
    assert_eq!(read, text("-0.05"));
    let back = write_then_read(&schema, &rows);
    assert_eq!(back[0], vec![(s("price"), text("-0.05"))]);
}

#[test]
fn struct_read_follows_field_order() {
    let schema = Schema::create(vec![Column::php_struct(s("p"), vec![Column::int64(s("x")), Column::php_string(s("y"))])]).unwrap();
    let rows = vec![arr(vec![("p", arr(vec![("y", text("b")), ("extra", PhpValue::Long(9)), ("x", PhpValue::Long(1))]))])];
    let back = write_then_read(&schema, &rows);
    assert_eq!(back[0], vec![(s("p"), arr(vec![("x", PhpValue::Long(1)), ("y", text("b"))]))]);
}

#[test]
fn map_string_keys_read_as_array_keys() {
    let schema = Schema::create(vec![Column::map(s("m"), &Column::php_string(s("k")), &Column::double(s("v")))]).unwrap();
    let half = 0.5f64.to_bits();
    let entries = vec![
        (PhpKey::Str(s("01")), PhpValue::Double(half)),
        (PhpKey::Long(1), PhpValue::Null),
        (PhpKey::Long(-3), PhpValue::Double(half)),
    ];
    let rows = vec![arr(vec![("m", PhpValue::Array(entries))])];
    let back = write_then_read(&schema, &rows);
    assert_eq!(
        back[0],
        vec![(
            s("m"),
            PhpValue::Array(vec![
                (PhpKey::Str(s("01")), PhpValue::Double(half)),
                (PhpKey::Long(1), PhpValue::Null),
                (PhpKey::Long(-3), PhpValue::Double(half)),
            ])
        )]
    );
}

#[test]
fn dates_before_1970_read_back() {
    let schema = Schema::create(vec![Column::date(s("d"))]).unwrap();
    let rows = vec![arr(vec![("d", text("1969-12-31"))]), arr(vec![("d", text("0001-03-01"))])];
    let back = write_then_read(&schema, &rows);
    assert_eq!(back[0], vec![(s("d"), text("1969-12-31"))]);
    assert_eq!(back[1], vec![(s("d"), text("0001-03-01"))]);
}

#[test]
fn required_struct_field_missing_names_path_and_row() {
    let schema = Schema::create(vec![Column::php_struct(s("address"), vec![Column::php_string(s("street")).required()])]).unwrap();
    let fields = schema.to_arrow_schema();
    let rows = vec![arr(vec![("address", arr(vec![]))])];
    assert_eq!(
        rows_to_record_batch(&rows, &fields).unwrap_err(),
        ParquetError::MissingRequired { column: s("address.street"), row: 0 }
    );
    let null_struct = vec![arr(vec![("address", PhpValue::Null)])];
    assert!(rows_to_record_batch(&null_struct, &fields).is_ok());
}

#[test]
fn required_map_values_refuse_nulls() {
    let schema = Schema::create(vec![
        Column::map(s("m"), &Column::php_string(s("k")), &Column::int64(s("v")).required()),
        Column::list(s("l"), &Column::map(s("inner"), &Column::php_string(s("k")), &Column::int64(s("v")).required())),
    ])
    .unwrap();
    let fields = schema.to_arrow_schema();
    let rows = vec![arr(vec![("m", arr(vec![("a", PhpValue::Long(1))]))]), arr(vec![("m", arr(vec![("b", PhpValue::Null)]))])];
    assert_eq!(
        rows_to_record_batch(&rows, &fields).unwrap_err(),
        ParquetError::MissingRequired { column: s("m.value"), row: 1 }
    );
    let rows = vec![arr(vec![("l", list(vec![arr(vec![("a", PhpValue::Null)])]))])];
    assert_eq!(
        rows_to_record_batch(&rows, &fields).unwrap_err(),
        ParquetError::MissingRequired { column: s("l.value"), row: 0 }
    );
}
