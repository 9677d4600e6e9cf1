use otlp2records::{vrl_value_to_json, vrl_value_to_json_lossy, Json, Value};

fn get<'a>(j: &'a Json, key: &str) -> Option<&'a Json> {
    match j {
        Json::Object(ms) => ms.iter().find(|(k, _)| k == key).map(|(_, v)| v),
        _ => None,
    }
}

fn number(j: &Json) -> String {
    match j {
        Json::Number(t) => String::from_utf8(t.clone()).unwrap(),
        other => panic!("not a number: {:?}", other),
    }
}

#[test]
fn test_vrl_value_to_json_string() {
    let v = Value::Bytes(b"hello".to_vec());
    let result = vrl_value_to_json(&v);
    assert!(matches!(result, Some(Json::Str(s)) if s == b"hello"));
}

#[test]
fn test_vrl_value_to_json_integer() {
    let v = Value::Integer(42);
    let result = vrl_value_to_json(&v).unwrap();
    assert_eq!(number(&result), "42");
}

#[test]
fn test_vrl_value_to_json_float() {
    let v = Value::Float(3.14f64.to_bits());
    let result = vrl_value_to_json(&v).unwrap();
    assert_eq!(number(&result), "3.14");
}

#[test]
fn test_vrl_value_to_json_boolean() {
    let v = Value::Boolean(true);
    let result = vrl_value_to_json(&v);
    assert!(matches!(result, Some(Json::Bool(true))));
}

#[test]
fn test_vrl_value_to_json_null() {
    let v = Value::Null;
    let result = vrl_value_to_json(&v);
    assert!(matches!(result, Some(Json::Null)));
}

#[test]
fn test_vrl_value_to_json_array() {
    let v = Value::Array(vec![Value::Integer(1), Value::Integer(2), Value::Integer(3)]);
    let result = vrl_value_to_json(&v).unwrap();
    match result {
        Json::Array(items) => {
            let texts: Vec<String> = items.iter().map(number).collect();
            assert_eq!(texts, vec!["1", "2", "3"]);
        }
        other => panic!("not an array: {:?}", other),
    }
}

#[test]
fn test_vrl_value_to_json_object() {
    let v = Value::Object(vec![
        ("key".to_string(), Value::Bytes(b"value".to_vec())),
        ("number".to_string(), Value::Integer(42)),
    ]);
    let result = vrl_value_to_json(&v);
    assert!(result.is_some());
    let obj = result.unwrap();
    assert!(matches!(get(&obj, "key"), Some(Json::Str(s)) if s == b"value"));
    assert_eq!(number(get(&obj, "number").unwrap()), "42");
}

#[test]
fn test_vrl_value_to_json_object_skips_nulls() {
    let v = Value::Object(vec![
        ("present".to_string(), Value::Bytes(b"value".to_vec())),
        ("absent".to_string(), Value::Null),
    ]);
    let result = vrl_value_to_json(&v);
    assert!(result.is_some());
    let obj = result.unwrap();
    assert!(matches!(get(&obj, "present"), Some(Json::Str(s)) if s == b"value"));
    assert!(get(&obj, "absent").is_none());
}

#[test]
fn test_vrl_value_to_json_lossy() {
    let v = Value::Bytes(b"test".to_vec());
    assert!(matches!(vrl_value_to_json_lossy(&v), Json::Str(s) if s == b"test"));
}

#[test]
fn non_finite_doubles_have_no_json_form() {
    assert!(vrl_value_to_json(&Value::Float(f64::NAN.to_bits())).is_none());
    assert!(matches!(vrl_value_to_json_lossy(&Value::Float(f64::INFINITY.to_bits())), Json::Null));
    let v = Value::Array(vec![Value::Float(f64::NAN.to_bits()), Value::Integer(-7)]);
    match vrl_value_to_json(&v).unwrap() {
        Json::Array(items) => {
            assert_eq!(items.len(), 1);
            assert_eq!(number(&items[0]), "-7");
        }
        other => panic!("not an array: {:?}", other),
    }
}

#[test]
fn invalid_text_bytes_are_replaced() {
    let v = Value::Bytes(vec![0x61, 0xff]);
    assert!(matches!(vrl_value_to_json(&v), Some(Json::Str(s)) if s == "a\u{fffd}".as_bytes()));
}
