use typikon::{bridge_items, bridge_module, dispatch_arms, parse_schema, python_registrations, BridgeDispatch};

const SCHEMA: &str = "#[version(10)] type Hash = Vec<u8> #[exact_len(32)]; #[flags(u8)] enum Flags { IsBot = 0, } struct ChatUser { id: u64, }";

#[test]
fn bridge_module_names_the_generated_source() {
    assert_eq!(bridge_module("chat-10.rs"), "chat_10");
    assert_eq!(bridge_module("my.chat-10.rs"), "my_chat_10");
    assert_eq!(bridge_module("odd.rs.rs"), "odd");
    assert_eq!(bridge_module("plain"), "plain");
}

#[test]
fn bridge_items_decode_each_item_as_its_native_type() {
    let schema = parse_schema(SCHEMA).unwrap();
    let items = bridge_items(&schema, "chat-10.rs");
    let lines: Vec<&str> = items.lines().collect();
    assert_eq!(lines.len(), 6);
    assert_eq!(
        lines[0],
        "pub fn encode_binary_hash(input: &[u8]) -> Result<Vec<u8>, String> { let mut decoder = typikon::Decoder::new(input, typikon::DEFAULT_MAX_PACKET_SIZE).map_err(|error| format!(\"{error:?}\"))?; let value: chat_10::Hash = typikon::WireCodec::decode(&mut decoder).map_err(|error| format!(\"{error:?}\"))?; if value.len() != 32 { return Err(\"invalid exact length\".into()); } if !decoder.is_finished() { return Err(\"trailing bytes\".into()); } Ok(input.to_vec()) }"
    );
    assert!(lines[1].starts_with("pub fn decode_binary_hash(input: &[u8])"));
    assert!(lines[2].contains("let _: chat_10::Flags = typikon::WireCodec::decode"));
    assert!(lines[3].starts_with("pub fn decode_binary_flags("));
    assert!(lines[4].contains("let value: chat_10::ChatUser = typikon::WireCodec::decode(&mut decoder).map_err(|error| format!(\"{error:?}\"))?; if !decoder.is_finished()"));
    assert!(lines[5].starts_with("pub fn decode_binary_chat_user("));
    assert!(!lines[4].contains("invalid exact length"));
}

#[test]
fn dispatch_arms_follow_the_schema_items() {
    let schema = parse_schema(SCHEMA).unwrap();
    assert_eq!(
        dispatch_arms(&schema, BridgeDispatch::Encode),
        "        \"hash\" => encode_binary_hash(&input).map(Buffer::from).map_err(napi::Error::from_reason),\n        \"flags\" => encode_binary_flags(&input).map(Buffer::from).map_err(napi::Error::from_reason),\n        \"chat_user\" => encode_binary_chat_user(&input).map(Buffer::from).map_err(napi::Error::from_reason),\n"
    );
    assert!(dispatch_arms(&schema, BridgeDispatch::Decode).contains("\"chat_user\" => decode_binary_chat_user(&input)"));
    assert!(dispatch_arms(&schema, BridgeDispatch::Validate).contains(
        "\"flags\" => validate_borrowed_flags(&input).map_err(|error| napi::Error::from_reason(format!(\"{error:?}\"))),\n"
    ));
    assert!(dispatch_arms(&schema, BridgeDispatch::Borrow).contains(
        "\"hash\" => { validate_borrowed_hash(&input).map_err(|error| napi::Error::from_reason(format!(\"{error:?}\")))?; Ok(input) },\n"
    ));
}

#[test]
fn python_registrations_add_three_functions_per_item() {
    let schema = parse_schema(SCHEMA).unwrap();
    let lines = python_registrations(&schema);
    assert_eq!(lines.lines().count(), 9);
    assert!(lines.starts_with("    module.add_function(wrap_pyfunction!(encode_hash, module)?)?;\n"));
    assert!(lines.ends_with("    module.add_function(wrap_pyfunction!(validate_borrowed_chat_user, module)?)?;\n"));
}
