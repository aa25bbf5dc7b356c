use typikon::{generate_typescript_binding, parse_schema};

#[test]
fn typescript_views_decode_direct_fixed_bytes_in_enum_variants() {
    let schema =
        parse_schema("#[version(10)] enum Peer { User { user_id: u32, user_ref: bytes[24] }, }")
            .unwrap();
    let typescript = generate_typescript_binding(&schema);
    assert!(typescript.contains("user_ref: d.take(24)"));
}

#[test]
fn typescript_preserves_64_bit_integer_precision() {
    let schema =
        parse_schema("#[version(10)] struct Message { unsigned: u64, signed: i64, }").unwrap();
    let generated = generate_typescript_binding(&schema);
    assert!(generated.contains("unsigned: bigint"));
    assert!(generated.contains("signed: bigint"));
    assert!(generated.contains("u64(v: bigint)"));
    assert!(generated.contains("u64(): bigint"));
    assert!(generated.contains("i64(): bigint"));
    assert!(!generated.contains("u64(): number"));
    assert!(!generated.contains("i64(): number"));
}

#[test]
fn typescript_binding_starts_with_the_wire_runtime() {
    let schema = parse_schema("#[version(3)] struct Ping { id: u32, }").unwrap();
    let typescript = generate_typescript_binding(&schema);
    assert!(typescript.starts_with("export interface TypikonNative {"));
    assert!(typescript.contains("export function encodeBinaryPing("));
    assert!(typescript.contains("native.encodeBinary(3, \"ping\""));
}

#[test]
fn typescript_binding_needs_aliases_that_resolve() {
    let ready = parse_schema("#[version(1)] type Id = u64; struct User { id: Id, }").unwrap();
    assert!(typikon::typescript_binding_ready(&ready));
    let looping = parse_schema("#[version(1)] type Id = Id; struct User { id: Id, }").unwrap();
    assert!(!typikon::typescript_binding_ready(&looping));
}
