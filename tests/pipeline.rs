use otlp2records::{
    decode_logs, decode_metrics, decode_traces, schema_def, transform_logs, transform_metrics,
    transform_traces, Batch, Column, ColumnData, DecodeError, Error, InputFormat, Value,
};
use prost::encoding::{encode_key, encode_varint, WireType};

fn len_field(field: u32, payload: &[u8], out: &mut Vec<u8>) {
    encode_key(field, WireType::LengthDelimited, out);
    encode_varint(payload.len() as u64, out);
    out.extend_from_slice(payload);
}

fn fixed64_field(field: u32, v: u64, out: &mut Vec<u8>) {
    encode_key(field, WireType::SixtyFourBit, out);
    out.extend_from_slice(&v.to_le_bytes());
}

fn varint_field(field: u32, v: u64, out: &mut Vec<u8>) {
    encode_key(field, WireType::Varint, out);
    encode_varint(v, out);
}

fn string_any(s: &str) -> Vec<u8> {
    let mut v = Vec::new();
    len_field(1, s.as_bytes(), &mut v);
    v
}

fn key_value(k: &str, any: &[u8]) -> Vec<u8> {
    let mut v = Vec::new();
    len_field(1, k.as_bytes(), &mut v);
    len_field(2, any, &mut v);
    v
}

fn resource(service: &str) -> Vec<u8> {
    let mut r = Vec::new();
    len_field(1, &key_value("service.name", &string_any(service)), &mut r);
    r
}

fn scope(name: &str, version: &str) -> Vec<u8> {
    let mut s = Vec::new();
    len_field(1, name.as_bytes(), &mut s);
    len_field(2, version.as_bytes(), &mut s);
    s
}

fn log_record(time: u64, severity: u64, text: &str, body: &str) -> Vec<u8> {
    let mut l = Vec::new();
    fixed64_field(1, time, &mut l);
    varint_field(2, severity, &mut l);
    len_field(3, text.as_bytes(), &mut l);
    len_field(5, &string_any(body), &mut l);
    l
}

fn logs_request(res: &[u8], scopes: &[(Vec<u8>, Vec<Vec<u8>>)]) -> Vec<u8> {
    let mut rl = Vec::new();
    len_field(1, res, &mut rl);
    for (sc, recs) in scopes {
        let mut sl = Vec::new();
        len_field(1, sc, &mut sl);
        for r in recs {
            len_field(2, r, &mut sl);
        }
        len_field(2, &sl, &mut rl);
    }
    let mut req = Vec::new();
    len_field(1, &rl, &mut req);
    req
}

fn column<'a>(b: &'a Batch, schema: &str, name: &str) -> &'a Column {
    let def = schema_def(schema).unwrap();
    let j = def.fields.iter().position(|f| f.name == name).unwrap();
    &b.columns[j]
}

fn ints(c: &Column) -> Vec<i64> {
    match &c.data {
        ColumnData::Int64(v) => v.clone(),
        _ => panic!("not an int64 column"),
    }
}

fn texts(c: &Column) -> Vec<String> {
    match &c.data {
        ColumnData::Utf8(v) => v.iter().map(|t| String::from_utf8(t.clone()).unwrap()).collect(),
        _ => panic!("not a utf8 column"),
    }
}

fn member<'a>(v: &'a Value, k: &str) -> &'a Value {
    match v {
        Value::Object(es) => &es.iter().find(|(n, _)| n == k).unwrap().1,
        _ => panic!("not an object"),
    }
}

#[test]
fn logs_protobuf_one_record() {
    let req = logs_request(
        &resource("test-service"),
        &[(scope("test-lib", "1.0.0"), vec![log_record(1_700_000_000_000_000_000, 9, "INFO", "hi")])],
    );
    let b = transform_logs(&req, InputFormat::Protobuf).unwrap();
    assert_eq!(b.num_rows, 1);
    assert_eq!(ints(column(&b, "logs", "time_unix_nano")), vec![1_700_000_000_000_000_000]);
    assert_eq!(ints(column(&b, "logs", "severity_number")), vec![9]);
    assert_eq!(texts(column(&b, "logs", "severity_text")), vec!["INFO".to_string()]);
    assert_eq!(texts(column(&b, "logs", "body")), vec!["hi".to_string()]);
    let res = column(&b, "logs", "resource");
    match &res.data {
        ColumnData::Struct(children) => match &children[0].data {
            ColumnData::TextMap(rows) => {
                assert_eq!(rows.len(), 1);
                assert_eq!(rows[0], vec![(b"service.name".to_vec(), Some(b"test-service".to_vec()))]);
            }
            _ => panic!("attributes are not a map"),
        },
        _ => panic!("resource is not a struct"),
    }
    let sc = column(&b, "logs", "scope");
    match &sc.data {
        ColumnData::Struct(children) => {
            assert_eq!(texts(&children[0]), vec!["test-lib".to_string()]);
            assert_eq!(texts(&children[1]), vec!["1.0.0".to_string()]);
        }
        _ => panic!("scope is not a struct"),
    }
}

#[test]
fn every_column_has_one_entry_per_row() {
    let req = logs_request(
        &resource("svc"),
        &[
            (scope("a", "1"), vec![log_record(1, 1, "x", "one"), log_record(2, 2, "y", "two")]),
            (scope("b", "2"), vec![log_record(3, 3, "z", "three")]),
        ],
    );
    let b = transform_logs(&req, InputFormat::Protobuf).unwrap();
    assert_eq!(b.num_rows, 3);
    for c in &b.columns {
        assert_eq!(c.validity.len(), 3);
    }
    let def = schema_def("logs").unwrap();
    for (f, c) in def.fields.iter().zip(b.columns.iter()) {
        if f.required {
            assert!(c.validity.iter().all(|v| *v), "null in required field {}", f.name);
        }
    }
}

#[test]
fn rows_are_denormalized_per_scope() {
    let req = logs_request(
        &resource("svc"),
        &[
            (scope("a", "1"), vec![log_record(1, 1, "x", "one"), log_record(2, 2, "y", "two")]),
            (scope("b", "2"), vec![log_record(3, 3, "z", "three")]),
        ],
    );
    let rows = decode_logs(&req, InputFormat::Protobuf).unwrap();
    assert_eq!(rows.len(), 3);
    let names: Vec<Vec<u8>> = rows
        .iter()
        .map(|r| match member(member(r, "scope"), "name") {
            Value::Bytes(t) => t.clone(),
            _ => panic!(),
        })
        .collect();
    assert_eq!(names, vec![b"a".to_vec(), b"a".to_vec(), b"b".to_vec()]);
    for r in &rows {
        match member(member(r, "resource"), "attributes") {
            Value::Object(es) => {
                assert_eq!(es.len(), 1);
                assert_eq!(es[0].0, "service.name");
                assert!(matches!(&es[0].1, Value::Bytes(t) if t == b"svc"));
            }
            _ => panic!(),
        }
    }
}

fn span(start: u64, end: u64) -> Vec<u8> {
    let mut s = Vec::new();
    len_field(1, &[0xab; 16], &mut s);
    len_field(2, &[0x01, 0x02, 0x03, 0x04, 0x05, 0x06, 0x07, 0x08], &mut s);
    len_field(5, b"op", &mut s);
    varint_field(6, 2, &mut s);
    fixed64_field(7, start, &mut s);
    fixed64_field(8, end, &mut s);
    s
}

fn traces_request(spans: &[Vec<u8>]) -> Vec<u8> {
    let mut ss = Vec::new();
    len_field(1, &scope("lib", "1"), &mut ss);
    for s in spans {
        len_field(2, s, &mut ss);
    }
    let mut rs = Vec::new();
    len_field(1, &resource("svc"), &mut rs);
    len_field(2, &ss, &mut rs);
    let mut req = Vec::new();
    len_field(1, &rs, &mut req);
    req
}

#[test]
fn span_duration_is_end_minus_start() {
    let req = traces_request(&[span(10, 30)]);
    let b = transform_traces(&req, InputFormat::Protobuf).unwrap();
    assert_eq!(b.num_rows, 1);
    assert_eq!(ints(column(&b, "traces", "duration_ns")), vec![20]);
    assert_eq!(ints(column(&b, "traces", "start_time_unix_nano")), vec![10]);
    assert_eq!(ints(column(&b, "traces", "end_time_unix_nano")), vec![30]);
    assert_eq!(ints(column(&b, "traces", "kind")), vec![2]);
    assert_eq!(
        texts(column(&b, "traces", "trace_id")),
        vec!["abababababababababababababababab".to_string()]
    );
    assert_eq!(texts(column(&b, "traces", "span_id")), vec!["0102030405060708".to_string()]);
    assert_eq!(texts(column(&b, "traces", "parent_span_id")), vec!["".to_string()]);
}

#[test]
fn span_ending_before_start_has_zero_duration() {
    let rows = decode_traces(&traces_request(&[span(30, 10)]), InputFormat::Protobuf).unwrap();
    assert!(matches!(member(&rows[0], "duration_ns"), Value::Integer(0)));
}

#[test]
fn span_without_end_has_null_duration() {
    let rows = decode_traces(&traces_request(&[span(30, 0)]), InputFormat::Protobuf).unwrap();
    assert!(matches!(member(&rows[0], "duration_ns"), Value::Null));
    assert!(matches!(member(&rows[0], "end_time_unix_nano"), Value::Null));
}

fn number_point(time: u64, value_bits: u64) -> Vec<u8> {
    let mut p = Vec::new();
    fixed64_field(3, time, &mut p);
    fixed64_field(4, value_bits, &mut p);
    p
}

fn int_point(time: u64, v: i64) -> Vec<u8> {
    let mut p = Vec::new();
    fixed64_field(3, time, &mut p);
    fixed64_field(6, v as u64, &mut p);
    p
}

fn metric(name: &str, kind_field: u32, body: &[u8]) -> Vec<u8> {
    let mut m = Vec::new();
    len_field(1, name.as_bytes(), &mut m);
    len_field(kind_field, body, &mut m);
    m
}

fn gauge(points: &[Vec<u8>]) -> Vec<u8> {
    let mut g = Vec::new();
    for p in points {
        len_field(1, p, &mut g);
    }
    g
}

fn sum(points: &[Vec<u8>], temporality: u64, monotonic: bool) -> Vec<u8> {
    let mut s = gauge(points);
    varint_field(2, temporality, &mut s);
    varint_field(3, monotonic as u64, &mut s);
    s
}

fn summary_with_one_point() -> Vec<u8> {
    let mut p = Vec::new();
    fixed64_field(3, 5, &mut p);
    let mut s = Vec::new();
    len_field(1, &p, &mut s);
    s
}

fn metrics_request(metrics: &[Vec<u8>]) -> Vec<u8> {
    let mut sm = Vec::new();
    len_field(1, &scope("meter", "1"), &mut sm);
    for m in metrics {
        len_field(2, m, &mut sm);
    }
    let mut rm = Vec::new();
    len_field(1, &resource("svc"), &mut rm);
    len_field(2, &sm, &mut rm);
    let mut req = Vec::new();
    len_field(1, &rm, &mut req);
    req
}

#[test]
fn metrics_of_mixed_kinds() {
    let req = metrics_request(&[
        metric("g", 5, &gauge(&[number_point(1, 1.0f64.to_bits())])),
        metric("s", 7, &sum(&[number_point(1, 2.0f64.to_bits())], 2, true)),
        metric("q", 11, &summary_with_one_point()),
    ]);
    let m = transform_metrics(&req, InputFormat::Protobuf).unwrap();
    assert_eq!(m.gauge.as_ref().unwrap().num_rows, 1);
    assert_eq!(m.sum.as_ref().unwrap().num_rows, 1);
    assert!(m.histogram.is_none());
    assert!(m.exp_histogram.is_none());
    assert_eq!(m.skipped.summary, 1);
    let s = m.sum.as_ref().unwrap();
    assert_eq!(ints(column(s, "sum", "aggregation_temporality")), vec![2]);
    match &column(s, "sum", "is_monotonic").data {
        ColumnData::Boolean(v) => assert_eq!(v, &vec![true]),
        _ => panic!(),
    }
    match &column(s, "sum", "value").data {
        ColumnData::Float64(v) => assert_eq!(v, &vec![2.0f64.to_bits()]),
        _ => panic!(),
    }
}

#[test]
fn nan_gauge_value_is_skipped() {
    let req = metrics_request(&[metric("g", 5, &gauge(&[number_point(1, f64::NAN.to_bits())]))]);
    let m = transform_metrics(&req, InputFormat::Protobuf).unwrap();
    assert!(m.gauge.is_none());
    assert_eq!(m.skipped.non_finite, 1);
    assert!(m.skipped.has_skipped());
}

#[test]
fn infinite_values_are_skipped_and_finite_kept() {
    let req = metrics_request(&[metric(
        "g",
        5,
        &gauge(&[
            number_point(1, f64::INFINITY.to_bits()),
            number_point(2, 3.5f64.to_bits()),
            number_point(3, f64::NEG_INFINITY.to_bits()),
        ]),
    )]);
    let d = decode_metrics(&req, InputFormat::Protobuf).unwrap();
    assert_eq!(d.gauge.len(), 1);
    assert_eq!(d.skipped.non_finite, 2);
    assert!(matches!(member(&d.gauge[0], "value"), Value::Float(b) if *b == 3.5f64.to_bits()));
}

#[test]
fn integer_values_are_widened_to_doubles() {
    let req = metrics_request(&[metric("g", 5, &gauge(&[int_point(1, 3)]))]);
    let d = decode_metrics(&req, InputFormat::Protobuf).unwrap();
    assert!(matches!(member(&d.gauge[0], "value"), Value::Float(b) if *b == 3.0f64.to_bits()));
}

#[test]
fn points_go_to_the_batch_of_their_kind_only() {
    let mut hp = Vec::new();
    fixed64_field(3, 7, &mut hp);
    fixed64_field(4, 4, &mut hp);
    let mut h = Vec::new();
    len_field(1, &hp, &mut h);
    varint_field(2, 1, &mut h);
    let req = metrics_request(&[
        metric("h", 9, &h),
        metric("s", 7, &sum(&[number_point(1, 1.0f64.to_bits()), number_point(2, 2.0f64.to_bits())], 1, false)),
    ]);
    let d = decode_metrics(&req, InputFormat::Protobuf).unwrap();
    assert_eq!(d.gauge.len(), 0);
    assert_eq!(d.sum.len(), 2);
    assert_eq!(d.histogram.len(), 1);
    assert_eq!(d.exp_histogram.len(), 0);
    assert!(matches!(member(&d.histogram[0], "count"), Value::Integer(4)));
    let m = transform_metrics(&req, InputFormat::Protobuf).unwrap();
    assert_eq!(m.histogram.as_ref().unwrap().num_rows, 1);
}

const JSON_LOGS: &str = r#"{
    "resourceLogs": [{
        "resource": { "attributes": [{ "key": "service.name", "value": { "stringValue": "json-svc" } }]},
        "scopeLogs": [{
            "scope": { "name": "lib", "version": "1" },
            "logRecords": [{
                "timeUnixNano": "1700000000000000000",
                "observedTimeUnixNano": "1700000000100000000",
                "severityNumber": 9,
                "severityText": "INFO",
                "body": { "stringValue": "JSON log" },
                "traceId": "5B8EFFF798038103D269B633813FC60C",
                "attributes": [
                    { "key": "n", "value": { "intValue": "42" } },
                    { "key": "n", "value": { "intValue": "43" } }
                ]
            }]
        }]
    }]
}"#;

#[test]
fn json_auto_matches_json() {
    let a = decode_logs(JSON_LOGS.as_bytes(), InputFormat::Auto).unwrap();
    let j = decode_logs(JSON_LOGS.as_bytes(), InputFormat::Json).unwrap();
    assert_eq!(format!("{:?}", a), format!("{:?}", j));
    assert_eq!(a.len(), 1);
    assert!(matches!(member(&a[0], "time_unix_nano"), Value::Integer(1_700_000_000_000_000_000)));
    assert!(matches!(member(&a[0], "trace_id"), Value::Bytes(t) if t == b"5b8efff798038103d269b633813fc60c"));
    match member(&a[0], "attributes") {
        Value::Object(es) => {
            assert_eq!(es.len(), 1);
            assert!(matches!(es[0].1, Value::Integer(43)));
        }
        _ => panic!(),
    }
    let b = transform_logs(JSON_LOGS.as_bytes(), InputFormat::Json).unwrap();
    assert_eq!(b.num_rows, 1);
    assert_eq!(texts(column(&b, "logs", "body")), vec!["JSON log".to_string()]);
}

#[test]
fn binary_payload_succeeds_as_protobuf_under_auto() {
    let req = logs_request(&resource("svc"), &[(scope("a", "1"), vec![log_record(1, 1, "x", "y")])]);
    let rows = decode_logs(&req, InputFormat::Auto).unwrap();
    assert_eq!(rows.len(), 1);
}

#[test]
fn double_failure_names_both_causes() {
    let e = decode_logs(&[0xff, 0xfe, 0xfd], InputFormat::Auto).unwrap_err();
    match e {
        DecodeError::Unsupported(m) => {
            assert!(m.starts_with("protobuf decode failed: protobuf decode error: "), "{}", m);
            assert!(m.contains("; json fallback failed: json decode error: "), "{}", m);
        }
        other => panic!("unexpected {:?}", other),
    }
    let e = decode_traces(b"{ not json", InputFormat::Auto).unwrap_err();
    match e {
        DecodeError::Unsupported(m) => {
            assert!(m.starts_with("json decode failed: json decode error: "), "{}", m);
            assert!(m.contains("; protobuf fallback failed: protobuf decode error: "), "{}", m);
        }
        other => panic!("unexpected {:?}", other),
    }
}

#[test]
fn explicit_formats_fail_with_their_own_error() {
    assert!(matches!(decode_logs(&[0xff, 0xfe, 0xfd], InputFormat::Protobuf), Err(DecodeError::Proto(_))));
    assert!(matches!(decode_logs(b"[1,", InputFormat::Json), Err(DecodeError::Json(_))));
    assert!(matches!(decode_metrics(b"[]", InputFormat::Json), Err(DecodeError::Json(_))));
    assert!(matches!(
        transform_logs(&[0xff], InputFormat::Protobuf),
        Err(Error::Decode(DecodeError::Proto(_)))
    ));
}

#[test]
fn empty_payload_decodes_to_no_rows() {
    assert_eq!(decode_logs(&[], InputFormat::Protobuf).unwrap().len(), 0);
    let m = transform_metrics(&[], InputFormat::Protobuf).unwrap();
    assert!(m.gauge.is_none() && m.sum.is_none());
    assert!(!m.skipped.has_skipped());
    let b = transform_traces(&[], InputFormat::Protobuf).unwrap();
    assert_eq!(b.num_rows, 0);
}

#[test]
fn unknown_fields_are_skipped_and_wrong_wire_types_fail() {
    let mut rec = log_record(5, 1, "x", "y");
    varint_field(99, 7, &mut rec);
    len_field(98, b"ignored", &mut rec);
    let req = logs_request(&resource("svc"), &[(scope("a", "1"), vec![rec])]);
    let rows = decode_logs(&req, InputFormat::Protobuf).unwrap();
    assert_eq!(rows.len(), 1);
    assert!(matches!(member(&rows[0], "time_unix_nano"), Value::Integer(5)));

    let mut bad = Vec::new();
    varint_field(1, 5, &mut bad);
    let req = logs_request(&resource("svc"), &[(scope("a", "1"), vec![bad])]);
    assert!(matches!(decode_logs(&req, InputFormat::Protobuf), Err(DecodeError::Proto(_))));
}

#[test]
fn bytes_values_render_as_base64() {
    let mut any = Vec::new();
    len_field(7, &[0xde, 0xad, 0xbe, 0xef], &mut any);
    let mut l = Vec::new();
    fixed64_field(1, 1, &mut l);
    len_field(5, &any, &mut l);
    let req = logs_request(&resource("svc"), &[(scope("a", "1"), vec![l])]);
    let rows = decode_logs(&req, InputFormat::Protobuf).unwrap();
    assert!(matches!(member(&rows[0], "body"), Value::Bytes(t) if t == b"3q2+7w=="));
}

#[test]
fn huge_timestamps_saturate_and_duration_stays_non_negative() {
    let rows = decode_traces(&traces_request(&[span(1, u64::MAX)]), InputFormat::Protobuf).unwrap();
    assert!(matches!(member(&rows[0], "end_time_unix_nano"), Value::Integer(i64::MAX)));
    assert!(matches!(member(&rows[0], "duration_ns"), Value::Integer(d) if *d == i64::MAX - 1));
    let rows = decode_traces(&traces_request(&[span(1u64 << 63, 5)]), InputFormat::Protobuf).unwrap();
    assert!(matches!(member(&rows[0], "duration_ns"), Value::Integer(0)));
}

#[test]
fn auto_fails_when_neither_decoder_accepts() {
    assert!(decode_metrics(b"[1, 2]", InputFormat::Auto).is_err());
    assert!(transform_logs(&[0xff, 0xfe, 0xfd], InputFormat::Auto).is_err());
}

#[test]
fn double_failure_message_is_fixed_by_the_bytes() {
    match decode_logs(&[0xff, 0xfe, 0xfd], InputFormat::Auto) {
        Err(DecodeError::Unsupported(m)) => assert_eq!(
            m,
            "protobuf decode failed: protobuf decode error: invalid ExportLogsServiceRequest message; \
             json fallback failed: json decode error: invalid OTLP-JSON logs document"
        ),
        other => panic!("unexpected {:?}", other),
    }
}
