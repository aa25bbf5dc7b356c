use typikon::{
    artifact_names, canonical_form, is_backward_compatible, parse_schema, struct_constructor_cid, validate,
    CompatibilityError, Item, Type,
};

const PRIMITIVES: [&str; 14] = [
    "bool", "u8", "u16", "u32", "u64", "u128", "i8", "i16", "i32", "i64", "i128", "f32", "f64",
    "String",
];

#[test]
fn primitive_types_have_individual_cases() {
    for (index, primitive) in PRIMITIVES.iter().enumerate() {
        let schema = parse_schema(&format!(
            "#[version({index})] struct Value {{ field: {primitive}, }}"
        ))
        .unwrap();
        let Item::Struct(item) = &schema.items[0] else {
            panic!()
        };
        assert_eq!(schema.version, index as u16);
        assert_eq!(item.fields[0].ty, Type::Primitive((*primitive).into()));
    }
}

#[test]
fn parses_enum_variants_and_fields() {
    let schema = parse_schema(
        "#[version(1)] enum Message { Text { text: String, }, Image { data: Vec<u8>, }, }",
    )
    .unwrap();
    let Item::Enum(item) = &schema.items[0] else {
        panic!()
    };
    assert_eq!(item.name, "Message");
    assert_eq!(item.variants.len(), 2);
    assert_eq!(
        item.variants[0].fields[0].ty,
        Type::Primitive("String".into())
    );
    assert_eq!(
        item.variants[1].fields[0].ty,
        Type::Vec(Box::new(Type::Primitive("u8".into())))
    );
}

#[test]
fn parses_unit_enum_with_values() {
    let schema = parse_schema("#[version(1)] enum Status { Online = 0, Offline = 1, }").unwrap();
    let Item::Enum(item) = &schema.items[0] else {
        panic!()
    };
    assert_eq!(
        item.variants.iter().map(|v| v.value).collect::<Vec<_>>(),
        vec![Some(0), Some(1)]
    );
}

#[test]
fn parses_flags() {
    let schema =
        parse_schema("#[version(3)] #[flags(u16)] enum UserFlags { IsBot = 0, IsPremium = 2, }")
            .unwrap();
    let Item::Flags(flags) = &schema.items[0] else {
        panic!()
    };
    assert_eq!(flags.name, "UserFlags");
    assert_eq!(flags.underlying, "u16");
    assert_eq!(flags.bits[0].value, 0);
    assert_eq!(flags.bits[1].name, "IsPremium");
}

#[test]
fn parses_guard_and_cid_and_calculates_fingerprint() {
    let schema = parse_schema("#[version(1)] #[flags(u8)] enum F { Ready = 0, } struct Message { flags: F, #[guard(flags.ready)] value: u64, }").unwrap();
    let Item::Struct(item) = &schema.items[1] else {
        panic!()
    };
    assert_eq!(item.cid, None);
    assert_eq!(item.fields[1].guard.as_deref(), Some("flags.ready"));
    assert_eq!(canonical_form(item), "Message|flags:F|[ready]value:u64");
    assert_eq!(struct_constructor_cid(item).len(), 16);
}

#[test]
fn rejects_invalid_semantics() {
    for source in [
        "#[version(1)] struct A { value: Missing, }",
        "#[version(1)] struct A { x: u8, x: u16, }",
        "#[version(1)] struct A { #[guard(flags.ready)] value: u64, }",
        "#[version(1)] #[flags(String)] enum F { Ready = 0, }",
        "#[version(1)] #[cid(1234)] struct A {}",
        "#[version(1)] struct A {} struct B { values: Map<A, u8>, }",
        "#[version(1)] struct A { values: Map<f32, u8>, }",
        "#[version(1)] #[flags(u8)] enum F { A = 0, B = 0, }",
        "#[version(1)] #[flags(u8)] enum F { A = 8, }",
        "#[version(1)] enum E { A = 0, B = 0, }",
        "#[version(1)] enum E { #[cid(aaaaaaaaaaaaaaaa)] A, }",
        "#[version(1)] #[cid(aaaaaaaaaaaaaaaa)] struct A {}",
        "#[version(1)] struct 1A {}",
        "#[version(18446744073709551616)] struct A {}",
        "#[version(65536)] struct A {}",
    ] {
        assert!(
            parse_schema(source).is_err(),
            "accepted invalid semantics: {source}"
        );
    }
}

#[test]
fn rejects_many_invalid_schemas() {
    let invalid = [
        "",
        "struct A {}",
        "#[version()] struct A {}",
        "#[version(x)] struct A {}",
        "#[version(1)] unknown A {}",
        "#[version(1)] struct {}",
        "#[version(1)] struct A { field }",
        "#[version(1)] struct A { field: }",
        "#[version(1)] struct A { field: Vec<u8, }",
        "#[version(1)] struct A { field: Map<u8>, }",
        "#[version(1)] enum A { X }",
        "#[version(1)] enum A { X = , }",
        "#[version(1)] #[flags()] enum F {}",
        "#[version(1)] #[flags(u8)] enum F { A, }",
    ];
    for source in invalid {
        assert!(parse_schema(source).is_err(), "accepted: {source:?}");
    }
}

#[test]
fn accepts_whitespace_comments_and_deep_nesting() {
    for gap in [
        " ",
        "\n",
        "\t",
        "\r\n",
        " // comment\n ",
        " /* block\n comment */ ",
    ] {
        let source =
            format!("#[version(1)]{gap}struct A {{ value: Map<String, Vec<Map<u8, u64>>>, }}");
        assert!(parse_schema(&source).is_ok(), "rejected gap {gap:?}");
    }
    for depth in 1..=20 {
        let mut ty = "u8".to_owned();
        for _ in 0..depth {
            ty = format!("Vec<{ty}>");
        }
        assert!(parse_schema(&format!("#[version(1)] struct Deep {{ value: {ty}, }}")).is_ok());
    }
}

#[test]
fn rejects_unterminated_block_comments() {
    assert!(parse_schema("#[version(1)] /* missing end struct A {} ").is_err());
}

#[test]
fn parses_fixed_bytes_exact_lengths_and_aliases() {
    let schema = parse_schema(
        "#[version(1)] type ConnectionId = bytes[16]; struct Packet { id: ConnectionId, hash: Vec<u8> #[exact_len(32)], }",
    )
    .unwrap();
    assert!(matches!(schema.items[0], Item::Alias(_)));
    assert!(matches!(schema.items[1], Item::Struct(_)));
    let Item::Struct(packet) = &schema.items[1] else {
        unreachable!()
    };
    assert_eq!(packet.fields[0].ty, Type::Primitive("ConnectionId".into()));
    assert_eq!(packet.fields[1].exact_len, Some(32));
}

#[test]
fn rejects_alias_exact_len_on_non_bytes_vector() {
    for source in [
        "#[version(1)] type Bad = String #[exact_len(4)];",
        "#[version(1)] type Bad = Vec<u16> #[exact_len(4)];",
        "#[version(1)] type Bad = bytes[4] #[exact_len(4)];",
    ] {
        assert!(
            parse_schema(source).is_err(),
            "accepted invalid alias: {source}"
        );
    }
}

#[test]
fn parses_optional_and_includes_it_in_canonical_form() {
    let schema = parse_schema(
        "#[version(1)] struct Profile { bio: Optional<String>, values: Vec<Optional<u64>>, }",
    )
    .unwrap();
    let Item::Struct(profile) = &schema.items[0] else {
        panic!("expected struct");
    };
    assert_eq!(
        canonical_form(profile),
        "Profile|bio:Optional<String>|values:Vec<Optional<u64>>"
    );
}

#[test]
fn accepts_optional_trailing_commas_in_flags_and_enums() {
    assert!(
        parse_schema("#[version(1)] #[flags(u16)] enum F { Ready = 0 } enum E { Value = 0 }")
            .is_ok()
    );
}

#[test]
fn enforces_type_nesting_limit() {
    for depth in [100, 101] {
        let mut ty = "u8".to_owned();
        for _ in 0..depth {
            ty = format!("Vec<{ty}>");
        }
        let source = format!("#[version(1)] struct Deep {{ value: {ty}, }}");
        assert_eq!(parse_schema(&source).is_ok(), depth == 100);
    }
}

#[test]
fn accepts_one_hundred_generated_schemas() {
    for version in 0..100 {
        let source = format!(
            "#[version({version})] struct Item{version} {{ id: u64, values: Vec<String>, }}"
        );
        let schema = parse_schema(&source).unwrap();
        assert_eq!(schema.version, version as u16);
        assert_eq!(schema.items.len(), 1);
    }
}

#[test]
fn rejects_float_map_keys_as_a_schema_error() {
    for key in ["f32", "f64"] {
        let source = format!("#[version(1)] struct Message {{ values: Map<{key}, String>, }}");
        let error = parse_schema(&source).unwrap_err();
        assert_eq!(error.message, "map key must be an orderable primitive type");
    }
}

#[test]
fn rejects_non_primitive_map_keys_without_panicking() {
    let error = parse_schema(
        "#[version(1)] struct Key { id: u64, } struct Message { values: Map<Key, String>, }",
    )
    .unwrap_err();
    assert_eq!(error.message, "map key must be an orderable primitive type");
}

#[test]
fn allows_new_items_enum_variants_and_flag_bits() {
    let old = parse_schema(
        "#[version(1)] #[flags(u8)] enum Flags { Ready = 0, } enum Kind { Text { value: u8, }, } struct Message { flags: Flags, kind: Kind, }",
    )
    .unwrap();
    let new = parse_schema(
        "#[version(2)] #[flags(u8)] enum Flags { Ready = 0, Seen = 1, } enum Kind { Text { value: u8, }, Image { value: u8, }, } struct Message { flags: Flags, kind: Kind, } struct Added { id: u64, }",
    )
    .unwrap();
    assert_eq!(is_backward_compatible(&old, &new), Ok(()));
}

#[test]
fn rejects_existing_field_changes() {
    let old = parse_schema("#[version(1)] struct Message { id: u64, }").unwrap();
    let new = parse_schema("#[version(2)] struct Message { id: u32, }").unwrap();
    assert!(matches!(
        is_backward_compatible(&old, &new),
        Err(CompatibilityError::ExistingItemChanged { .. })
    ));
}

#[test]
fn rejects_existing_enum_variant_changes() {
    let old = parse_schema("#[version(1)] enum Kind { Text { value: String, }, }").unwrap();
    let new = parse_schema("#[version(2)] enum Kind { Text { value: Vec<u8>, }, }").unwrap();
    assert!(matches!(
        is_backward_compatible(&old, &new),
        Err(CompatibilityError::ExistingEnumVariantChanged { .. })
    ));
}

#[test]
fn parse_errors_report_message_and_byte_offset() {
    let error = parse_schema("#[version(1)] struct é {}").unwrap_err();
    assert_eq!(error.message, "expected identifier");
    assert_eq!(error.position, 21);
    let error = parse_schema("#[version(1)] /* open").unwrap_err();
    assert_eq!(error.message, "unterminated block comment");
    assert_eq!(error.position, 14);
    let schema = parse_schema("#[version(1)] struct A { x: u8 }").unwrap();
    assert_eq!(schema.items.len(), 1);
}

#[test]
fn validation_errors_name_the_rule_at_offset_zero() {
    let error = parse_schema("#[version(1)] struct A {} struct A {}").unwrap_err();
    assert_eq!(error.message, "duplicate item name");
    assert_eq!(error.position, 0);
    let error = parse_schema("#[version(1)] enum E { A = 0, B = 0, }").unwrap_err();
    assert_eq!(error.message, "duplicate enum variant value");
    let error = parse_schema("#[version(1)] type Bad = String #[exact_len(4)];").unwrap_err();
    assert_eq!(error.message, "exact_len is only valid for Vec<u8>");
    let error = parse_schema("#[version(1)] struct A { #[guard(flags.ready)] value: u64, }")
        .unwrap_err();
    assert_eq!(error.message, "guard must reference an earlier field");
    let schema = parse_schema("#[version(1)] struct A { x: u8, }").unwrap();
    assert_eq!(validate(&schema), Ok(()));
}

#[test]
fn a_valid_schema_is_compatible_with_itself_and_with_added_items() {
    let old = parse_schema("#[version(1)] #[flags(u8)] enum F { Ready = 0, } struct A { f: F, #[guard(f.ready)] x: u8, }").unwrap();
    assert_eq!(is_backward_compatible(&old, &old), Ok(()));
    let new = parse_schema("#[version(2)] #[flags(u8)] enum F { Ready = 0, } struct A { f: F, #[guard(f.ready)] x: u8, } struct B { y: u64, }").unwrap();
    assert_eq!(is_backward_compatible(&old, &new), Ok(()));
    let changed = parse_schema("#[version(2)] #[flags(u16)] enum F { Ready = 0, } struct A { f: F, #[guard(f.ready)] x: u8, }").unwrap();
    assert_eq!(
        is_backward_compatible(&old, &changed),
        Err(CompatibilityError::ExistingItemChanged { name: "F".into() })
    );
}

#[test]
fn canonical_form_and_cid_of_a_known_struct() {
    let schema = parse_schema("#[version(1)] struct Ping { id: u64, }").unwrap();
    let Item::Struct(ping) = &schema.items[0] else {
        panic!()
    };
    assert_eq!(canonical_form(ping), "Ping|id:u64");
    let cid = struct_constructor_cid(ping);
    let expected = blake3::hash(b"Ping|id:u64").to_hex()[..16].to_owned();
    assert_eq!(cid, expected);
    let with_cid = format!("#[version(1)] #[cid({cid})] struct Ping {{ id: u64, }}");
    assert!(parse_schema(&with_cid).is_ok());
    let upper = format!("#[version(1)] #[cid({})] struct Ping {{ id: u64, }}", cid.to_uppercase());
    assert!(parse_schema(&upper).is_ok());
}

#[test]
fn does_not_duplicate_layer_already_in_schema_filename() {
    let schema = parse_schema("#[version(8)] struct User { id: u64, }").unwrap();
    let names = artifact_names("layer-8.typ", schema.version);
    assert_eq!(names.rust_file_name, "layer-8.rs");
    assert_eq!(names.public_schema_file_name, "layer-8.public.typ");
    assert_eq!(names.bridge_file_names[0], "python.layer-8.rs");
    assert_eq!(names.go_file_name, "layer-8.go");
    assert_eq!(names.python_file_name, "layer_8.py");
    assert_eq!(names.typescript_file_name, "layer-8.ts");
}

#[test]
fn artifact_names_carry_the_schema_layer() {
    let schema = parse_schema("#[version(18)] struct User { id: u64, }").unwrap();
    let names = artifact_names("valty.typ", schema.version);
    assert_eq!(schema.version, 18);
    assert_eq!(names.rust_file_name, "valty-18.rs");
    assert_eq!(names.public_schema_file_name, "valty-18.public.typ");
    assert_eq!(
        names.bridge_file_names,
        ["python.valty-18.rs", "golang.valty-18.rs", "typescript.valty-18.rs"]
    );
    assert_eq!(names.bridge_header_name, "valty-18.h");
    assert_eq!(names.go_file_name, "valty-18.go");
    assert_eq!(names.python_file_name, "valty_18.py");
    assert_eq!(names.typescript_file_name, "valty-18.ts");
}

#[test]
fn artifact_names_keep_other_suffixes() {
    let names = artifact_names("my-chat-3", 30);
    assert_eq!(names.rust_file_name, "my-chat-3-30.rs");
    assert_eq!(names.python_file_name, "my_chat_3_30.py");
    let names = artifact_names("chat-30.typ", 30);
    assert_eq!(names.go_file_name, "chat-30.go");
    assert_eq!(names.bridge_header_name, "chat-30.h");
}
