use otlp2records::text::to_text;
use otlp2records::{build_batch, schema_def, schema_defs, BuildError, ColumnData, DataType, SchemaDef, SchemaField, Value};

fn field(name: &str, t: DataType, required: bool) -> SchemaField {
    SchemaField { name: name.to_string(), field_type: t, required }
}

fn row(entries: Vec<(&str, Value)>) -> Value {
    Value::Object(entries.into_iter().map(|(k, v)| (k.to_string(), v)).collect())
}

fn text(v: Value) -> Option<String> {
    to_text(&v).map(|t| String::from_utf8(t).unwrap())
}

#[test]
fn text_forms_of_values() {
    assert_eq!(text(Value::Integer(42)), Some("42".to_string()));
    assert_eq!(text(Value::Integer(-9_223_372_036_854_775_808)), Some("-9223372036854775808".to_string()));
    assert_eq!(text(Value::Boolean(false)), Some("false".to_string()));
    assert_eq!(text(Value::Float(1.5f64.to_bits())), Some("1.5".to_string()));
    assert_eq!(text(Value::Float(f64::NAN.to_bits())), None);
    assert_eq!(text(Value::Null), None);
    assert_eq!(text(Value::Bytes(b"plain \"text\"".to_vec())), Some("plain \"text\"".to_string()));
    let nested = Value::Array(vec![
        Value::Integer(1),
        Value::Bytes(b"a\"b\\c\n\x01".to_vec()),
        Value::Object(vec![("k".to_string(), Value::Null), ("t".to_string(), Value::Boolean(true))]),
        Value::Array(vec![]),
        Value::Float(2.0f64.to_bits()),
    ]);
    assert_eq!(
        text(nested),
        Some(r#"[1,"a\"b\\c\n\u0001",{"k":null,"t":true},[],2.0]"#.to_string())
    );
}

#[test]
fn utf8_column_coerces_and_pads_nulls() {
    let schema = SchemaDef {
        name: "t".to_string(),
        fields: vec![field("a", DataType::Utf8, true), field("b", DataType::Utf8, false)],
    };
    let rows = vec![
        row(vec![("a", Value::Integer(7)), ("b", Value::Null)]),
        row(vec![("b", Value::Boolean(true))]),
    ];
    let b = build_batch(&schema, &rows).unwrap();
    assert_eq!(b.num_rows, 2);
    match &b.columns[0].data {
        ColumnData::Utf8(v) => assert_eq!(v, &vec![b"7".to_vec(), b"".to_vec()]),
        _ => panic!(),
    }
    assert_eq!(b.columns[0].validity, vec![true, true]);
    assert_eq!(b.columns[1].validity, vec![false, true]);
}

#[test]
fn null_in_required_field_fails() {
    let schema = SchemaDef {
        name: "t".to_string(),
        fields: vec![field("n", DataType::Int64, true)],
    };
    let rows = vec![row(vec![("n", Value::Integer(1))]), row(vec![("n", Value::Null)])];
    match build_batch(&schema, &rows) {
        Err(BuildError::NullInNonNullable { field }) => assert_eq!(field, "n"),
        other => panic!("unexpected {:?}", other.err()),
    }
}

#[test]
fn type_mismatch_fails_the_batch() {
    let schema = SchemaDef {
        name: "t".to_string(),
        fields: vec![field("n", DataType::Int64, false)],
    };
    let rows = vec![row(vec![("n", Value::Bytes(b"x".to_vec()))])];
    match build_batch(&schema, &rows) {
        Err(BuildError::TypeMismatch { field, expected, actual }) => {
            assert_eq!(field, "n");
            assert_eq!(expected, "int64");
            assert_eq!(actual, "bytes");
        }
        other => panic!("unexpected {:?}", other.err()),
    }
}

#[test]
fn numeric_coercions() {
    let schema = SchemaDef {
        name: "t".to_string(),
        fields: vec![
            field("i", DataType::Int64, false),
            field("f", DataType::Float64, false),
            field("b", DataType::Boolean, false),
        ],
    };
    let rows = vec![
        row(vec![("i", Value::Boolean(true)), ("f", Value::Integer(3)), ("b", Value::Boolean(true))]),
        row(vec![("i", Value::Integer(-4)), ("f", Value::Float(0.5f64.to_bits()))]),
    ];
    let b = build_batch(&schema, &rows).unwrap();
    match &b.columns[0].data {
        ColumnData::Int64(v) => assert_eq!(v, &vec![1, -4]),
        _ => panic!(),
    }
    match &b.columns[1].data {
        ColumnData::Float64(v) => assert_eq!(v, &vec![3.0f64.to_bits(), 0.5f64.to_bits()]),
        _ => panic!(),
    }
    assert_eq!(b.columns[2].validity, vec![true, false]);
    let bad = vec![row(vec![("f", Value::Float(f64::INFINITY.to_bits()))])];
    assert!(matches!(build_batch(&schema, &bad), Err(BuildError::TypeMismatch { .. })));
}

#[test]
fn nested_columns() {
    let item = field(
        "item",
        DataType::Struct(vec![field("x", DataType::Int64, true), field("m", DataType::TextMap, false)]),
        true,
    );
    let schema = SchemaDef {
        name: "t".to_string(),
        fields: vec![field("l", DataType::List(Box::new(item)), false)],
    };
    let rows = vec![
        row(vec![(
            "l",
            Value::Array(vec![
                row(vec![("x", Value::Integer(1)), ("m", row(vec![("k", Value::Integer(5))]))]),
                row(vec![("x", Value::Integer(2)), ("extra", Value::Null)]),
            ]),
        )]),
        row(vec![]),
    ];
    let b = build_batch(&schema, &rows).unwrap();
    assert_eq!(b.columns[0].validity, vec![true, false]);
    match &b.columns[0].data {
        ColumnData::List { lengths, items } => {
            assert_eq!(lengths, &vec![2, 0]);
            assert_eq!(items.validity, vec![true, true]);
            match &items.data {
                ColumnData::Struct(cs) => {
                    match &cs[0].data {
                        ColumnData::Int64(v) => assert_eq!(v, &vec![1, 2]),
                        _ => panic!(),
                    }
                    match &cs[1].data {
                        ColumnData::TextMap(v) => {
                            assert_eq!(v[0], vec![(b"k".to_vec(), Some(b"5".to_vec()))]);
                            assert!(v[1].is_empty());
                        }
                        _ => panic!(),
                    }
                    assert_eq!(cs[1].validity, vec![true, false]);
                }
                _ => panic!(),
            }
        }
        _ => panic!(),
    }
}

#[test]
fn rows_must_be_objects() {
    let schema = schema_def("logs").unwrap();
    assert!(matches!(build_batch(&schema, &vec![Value::Integer(1)]), Err(BuildError::TypeMismatch { .. })));
    let b = build_batch(&schema, &vec![]).unwrap();
    assert_eq!(b.num_rows, 0);
    assert_eq!(b.columns.len(), schema.fields.len());
}

#[test]
fn registry_holds_six_schemas() {
    let names: Vec<String> = schema_defs().into_iter().map(|d| d.name).collect();
    assert_eq!(names, vec!["logs", "traces", "gauge", "sum", "histogram", "exp_histogram"]);
    assert!(schema_def("summary").is_none());
    let a = schema_def("sum").unwrap();
    let b = schema_def("sum").unwrap();
    assert_eq!(format!("{:?}", a), format!("{:?}", b));
    let names: Vec<&str> = a.fields.iter().map(|f| f.name.as_str()).collect();
    assert!(names.contains(&"is_monotonic"));
    assert!(names.contains(&"aggregation_temporality"));
}

#[test]
fn integral_doubles_fill_integer_columns() {
    let schema = SchemaDef {
        name: "t".to_string(),
        fields: vec![field("n", DataType::Int64, false)],
    };
    let rows = vec![
        row(vec![("n", Value::Float(3.0f64.to_bits()))]),
        row(vec![("n", Value::Float((-9.223372036854775808e18f64).to_bits()))]),
        row(vec![("n", Value::Float(0.5f64.to_bits()))]),
        row(vec![("n", Value::Float(1e19f64.to_bits()))]),
        row(vec![("n", Value::Float((-0.0f64).to_bits()))]),
    ];
    let b = build_batch(&schema, &rows).unwrap();
    match &b.columns[0].data {
        ColumnData::Int64(v) => assert_eq!(v, &vec![3, i64::MIN, 0, 0, 0]),
        _ => panic!(),
    }
    assert_eq!(b.columns[0].validity, vec![true, true, false, false, true]);
    let required = SchemaDef {
        name: "t".to_string(),
        fields: vec![field("n", DataType::Int64, true)],
    };
    let bad = vec![row(vec![("n", Value::Float(2.5f64.to_bits()))])];
    assert!(matches!(build_batch(&required, &bad), Err(BuildError::TypeMismatch { .. })));
}

#[test]
fn invalid_utf8_text_is_replaced() {
    assert_eq!(text(Value::Bytes(vec![0x61, 0xff])), Some("a\u{fffd}".to_string()));
    assert_eq!(
        text(Value::Array(vec![Value::Bytes(vec![0xff])])),
        Some("[\"\u{fffd}\"]".to_string())
    );
}
