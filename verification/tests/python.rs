use typikon::{generate_python_binding, parse_schema, BridgeKind};

#[test]
fn python_facade_wraps_the_pyo3_extension() {
    let schema = parse_schema("#[version(10)] struct User { id: u64, }").unwrap();
    let source = generate_python_binding(&schema);
    assert!(source.contains("from typikon_python import encode_user as _native_encode_user"));
    assert!(source.contains("def encode_user"));
    assert!(source.contains("def decode_user"));
    assert!(source.contains("def borrowed_user"));
    assert!(source.contains("def borrowed_packet_user"));
    assert!(source.contains("return memoryview(wire)"));
    assert!(source.contains("return _native_encode_user(value)"));
    assert!(source.contains("LAYER = 10"));
}

#[test]
fn python_facade_lists_every_item_in_its_exports() {
    let schema =
        parse_schema("#[version(4)] struct UserProfile { id: u64, } enum Color { Red = 1, }")
            .unwrap();
    let source = generate_python_binding(&schema);
    assert!(source.starts_with("from __future__ import annotations\n"));
    assert!(source.contains(
        "validate_borrowed_user_profile as _native_validate_borrowed_user_profile, encode_color as _native_encode_color"
    ));
    assert!(source.ends_with(
        "__all__ = [\"LAYER\", \"UserProfile\", \"encode_user_profile\", \"decode_user_profile\", \"validate_borrowed_user_profile\", \"borrowed_user_profile\", \"borrowed_packet_user_profile\", \"Color\", \"encode_color\", \"decode_color\", \"validate_borrowed_color\", \"borrowed_color\", \"borrowed_packet_color\"]\n"
    ));
    assert!(source.contains("return BorrowedPacket(wire, \"UserProfile\")"));
}

#[test]
fn bridge_sources_are_named_by_language_schema_and_layer() {
    assert_eq!(BridgeKind::Python.file_name("chat", 10), "python.chat-10.rs");
    assert_eq!(BridgeKind::Go.file_name("chat", 10), "golang.chat-10.rs");
    assert_eq!(BridgeKind::TypeScript.file_name("layer", 8), "typescript.layer-8.rs");
    assert_eq!(BridgeKind::ALL.len(), 3);
}
