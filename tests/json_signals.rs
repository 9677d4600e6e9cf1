use otlp2records::{decode_metrics, decode_traces, transform_metrics, InputFormat, Value};

fn member<'a>(v: &'a Value, k: &str) -> &'a Value {
    match v {
        Value::Object(es) => &es.iter().find(|(n, _)| n == k).unwrap().1,
        _ => panic!("not an object"),
    }
}

const JSON_TRACES: &str = r#"{"resourceSpans":[{"resource":{"attributes":[]},"scopeSpans":[{"scope":{"name":"s"},"spans":[
  {"traceId":"0af7651916cd43dd8448eb211c80319c","spanId":"b7ad6b7169203331","parentSpanId":"",
   "name":"GET","kind":2,"startTimeUnixNano":"1000","endTimeUnixNano":"1500",
   "status":{"code":2,"message":"boom"},
   "events":[{"timeUnixNano":"1200","name":"e","attributes":[{"key":"k","value":{"boolValue":true}}]}],
   "links":[{"traceId":"00","spanId":"01"}]}
]}]}]}"#;

#[test]
fn json_traces_decode_with_duration_status_events_and_links() {
    let rows = decode_traces(JSON_TRACES.as_bytes(), InputFormat::Json).unwrap();
    assert_eq!(rows.len(), 1);
    let r = &rows[0];
    assert!(matches!(member(r, "duration_ns"), Value::Integer(500)));
    assert!(matches!(member(r, "status_code"), Value::Integer(2)));
    assert!(matches!(member(r, "status_message"), Value::Bytes(t) if t == b"boom"));
    assert!(matches!(member(r, "kind"), Value::Integer(2)));
    assert!(matches!(member(r, "span_id"), Value::Bytes(t) if t == b"b7ad6b7169203331"));
    match member(r, "events") {
        Value::Array(evs) => {
            assert_eq!(evs.len(), 1);
            assert!(matches!(member(&evs[0], "time_unix_nano"), Value::Integer(1200)));
        }
        _ => panic!(),
    }
    match member(r, "links") {
        Value::Array(ls) => {
            assert_eq!(ls.len(), 1);
            assert!(matches!(member(&ls[0], "span_id"), Value::Bytes(t) if t == b"01"));
        }
        _ => panic!(),
    }
}

const JSON_METRICS: &str = r#"{"resourceMetrics":[{"resource":{},"scopeMetrics":[{"scope":{},"metrics":[
  {"name":"g","gauge":{"dataPoints":[{"timeUnixNano":"1","asDouble":1.0},{"timeUnixNano":"2","asDouble":"NaN"},{"timeUnixNano":"3"}]}},
  {"name":"s","sum":{"aggregationTemporality":2,"isMonotonic":true,"dataPoints":[{"timeUnixNano":"1","asInt":"5"}]}},
  {"name":"h","histogram":{"aggregationTemporality":1,"dataPoints":[{"count":"3","sum":6.5,"bucketCounts":["1","2"],"explicitBounds":[1.0]}]}},
  {"name":"e","exponentialHistogram":{"dataPoints":[{"count":"2","scale":-1,"zeroCount":"1","positive":{"offset":-2,"bucketCounts":["1"]}}]}},
  {"name":"q","summary":{"dataPoints":[{},{}]}}
]}]}]}"#;

#[test]
fn json_metrics_dispatch_by_kind() {
    let d = decode_metrics(JSON_METRICS.as_bytes(), InputFormat::Auto).unwrap();
    assert_eq!(d.gauge.len(), 1);
    assert_eq!(d.sum.len(), 1);
    assert_eq!(d.histogram.len(), 1);
    assert_eq!(d.exp_histogram.len(), 1);
    assert_eq!(d.skipped.non_finite, 1);
    assert_eq!(d.skipped.missing_value, 1);
    assert_eq!(d.skipped.summary, 2);
    assert!(matches!(member(&d.gauge[0], "value"), Value::Float(b) if *b == 1.0f64.to_bits()));
    assert!(matches!(member(&d.sum[0], "value"), Value::Float(b) if *b == 5.0f64.to_bits()));
    assert!(matches!(member(&d.sum[0], "is_monotonic"), Value::Boolean(true)));
    assert!(matches!(member(&d.histogram[0], "sum"), Value::Float(b) if *b == 6.5f64.to_bits()));
    assert!(matches!(member(&d.histogram[0], "min"), Value::Null));
    assert!(matches!(member(&d.exp_histogram[0], "scale"), Value::Integer(-1)));
    assert!(matches!(member(member(&d.exp_histogram[0], "positive"), "offset"), Value::Integer(-2)));
    let m = transform_metrics(JSON_METRICS.as_bytes(), InputFormat::Json).unwrap();
    assert_eq!(m.histogram.unwrap().num_rows, 1);
    assert_eq!(m.exp_histogram.unwrap().num_rows, 1);
}

#[test]
fn json_auto_and_json_modes_give_the_same_rows() {
    let a = decode_traces(JSON_TRACES.as_bytes(), InputFormat::Auto).unwrap();
    let j = decode_traces(JSON_TRACES.as_bytes(), InputFormat::Json).unwrap();
    assert_eq!(format!("{:?}", a), format!("{:?}", j));
}

#[test]
fn missing_json_start_gives_null_duration() {
    let doc = r#"{"resourceSpans":[{"scopeSpans":[{"spans":[{"endTimeUnixNano":"5"},{"startTimeUnixNano":"9","endTimeUnixNano":"4"}]}]}]}"#;
    let rows = decode_traces(doc.as_bytes(), InputFormat::Json).unwrap();
    assert_eq!(rows.len(), 2);
    assert!(matches!(member(&rows[0], "duration_ns"), Value::Null));
    assert!(matches!(member(&rows[1], "duration_ns"), Value::Integer(0)));
}
