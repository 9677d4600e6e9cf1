use otlp2records::{looks_like_json, parse_format, InputFormat};

#[test]
fn input_format_debug() {
    assert_eq!(format!("{:?}", InputFormat::Protobuf), "Protobuf");
    assert_eq!(format!("{:?}", InputFormat::Json), "Json");
    assert_eq!(format!("{:?}", InputFormat::Auto), "Auto");
}

#[test]
fn input_format_equality() {
    assert_eq!(InputFormat::Protobuf, InputFormat::Protobuf);
    assert_ne!(InputFormat::Protobuf, InputFormat::Json);
    assert_ne!(InputFormat::Json, InputFormat::Auto);
}

#[test]
fn test_parse_format_protobuf() {
    assert!(matches!(parse_format("protobuf"), Ok(InputFormat::Protobuf)));
    assert!(matches!(parse_format("PROTOBUF"), Ok(InputFormat::Protobuf)));
    assert!(matches!(parse_format("Protobuf"), Ok(InputFormat::Protobuf)));
}

#[test]
fn test_parse_format_proto() {
    assert!(matches!(parse_format("proto"), Ok(InputFormat::Protobuf)));
    assert!(matches!(parse_format("PROTO"), Ok(InputFormat::Protobuf)));
}

#[test]
fn test_parse_format_json() {
    assert!(matches!(parse_format("json"), Ok(InputFormat::Json)));
    assert!(matches!(parse_format("JSON"), Ok(InputFormat::Json)));
    assert!(matches!(parse_format("Json"), Ok(InputFormat::Json)));
}

#[test]
fn test_parse_format_auto() {
    assert!(matches!(parse_format("auto"), Ok(InputFormat::Auto)));
    assert!(matches!(parse_format("AUTO"), Ok(InputFormat::Auto)));
    assert!(matches!(parse_format("Auto"), Ok(InputFormat::Auto)));
}

#[test]
fn test_parse_format_invalid() {
    let result = parse_format("xml");
    assert!(result.is_err());

    let result = parse_format("");
    assert!(result.is_err());

    let result = parse_format("binary");
    assert!(result.is_err());
}

#[test]
fn invalid_format_message_names_the_input() {
    assert_eq!(
        parse_format("xml").unwrap_err(),
        "Invalid format 'xml': expected 'protobuf', 'proto', 'json', or 'auto'"
    );
}

#[test]
fn content_types_map_to_formats() {
    assert_eq!(InputFormat::from_content_type(Some("application/json")), InputFormat::Json);
    assert_eq!(InputFormat::from_content_type(Some("  Application/JSON ")), InputFormat::Json);
    assert_eq!(InputFormat::from_content_type(Some("application/otlp+json")), InputFormat::Auto);
    assert_eq!(InputFormat::from_content_type(Some("application/x-protobuf")), InputFormat::Protobuf);
    assert_eq!(InputFormat::from_content_type(Some("application/protobuf")), InputFormat::Protobuf);
    assert_eq!(InputFormat::from_content_type(Some("APPLICATION/OTLP")), InputFormat::Protobuf);
    assert_eq!(InputFormat::from_content_type(Some("text/plain")), InputFormat::Auto);
    assert_eq!(InputFormat::from_content_type(Some("")), InputFormat::Auto);
    assert_eq!(InputFormat::from_content_type(None), InputFormat::Auto);
}

#[test]
fn json_is_sniffed_from_the_first_non_space_byte() {
    assert!(looks_like_json(b"{}"));
    assert!(looks_like_json(b" \n\t[1]"));
    assert!(!looks_like_json(b""));
    assert!(!looks_like_json(b"   "));
    assert!(!looks_like_json(&[0x0a, 0x05, 0x7b]));
    assert!(!looks_like_json(b"x{"));
}
