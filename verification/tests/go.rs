use typikon::{
    generate_go_declarations, generate_typescript_binding, go_declarations_ready, parse_schema,
    struct_constructor_cid, Item,
};

#[test]
fn go_binding_uses_real_go_integer_types() {
    let schema =
        parse_schema("#[version(10)] struct Message { small: u8, id: u64, signed: i32, }").unwrap();
    let source = generate_go_declarations(&schema);
    assert!(source.contains("Small uint8"));
    assert!(source.contains("Id uint64"));
    assert!(source.contains("Signed int32"));
    assert!(!source.contains(" Small u8"));
    assert!(!source.contains(" Id u64"));
}

#[test]
fn generated_backends_validate_fixed_and_exact_bytes() {
    let schema = parse_schema(
        "#[version(10)] type ConnectionId = bytes[16]; struct Packet { id: ConnectionId, hash: Vec<u8> #[exact_len(32)], }",
    )
    .unwrap();
    let go = generate_go_declarations(&schema);
    assert!(go.contains("type ConnectionId = [16]byte"));
    assert!(go.contains("invalid exact byte length"));
    let typescript = generate_typescript_binding(&schema);
    assert!(typescript.contains("export type ConnectionId = Uint8Array;"));
    assert!(typescript.contains("invalid exact byte length"));
}

#[test]
fn generated_go_and_typescript_views_cover_borrowable_fields() {
    let schema = parse_schema(
        "#[version(10)] struct User { id: u64, name: String, tags: Vec<String>, } struct Attachment { id: u64, name: String, } enum Event { Created { user: User }, } enum Batch { Items { values: Vec<String>, entries: Map<String, String> }, }",
    )
    .unwrap();
    let go = generate_go_declarations(&schema);
    assert!(go.contains("type UserView struct"));
    assert!(go.contains("func BorrowUser"));
    assert!(go.contains("func BorrowAttachment"));
    assert!(go.contains("Name []byte"));
    assert!(go.contains("readUserView"));
    assert!(go.contains("BorrowUserLazy"));
    let typescript = generate_typescript_binding(&schema);
    assert!(typescript.contains("export interface UserView"));
    assert!(typescript.contains("name: Uint8Array"));
    assert!(typescript.contains("decodeUserView"));
    assert!(typescript.contains("decodeUserLazyView"));
    assert!(typescript.contains("LazyCollection"));
    assert!(typescript.contains("borrowBinary"));
    assert!(typescript.contains("export class BorrowedPacket<T>"));
    assert!(typescript.contains("borrowUserView"));
    assert!(typescript.contains("borrowUserLazyView"));
    assert!(typescript.contains("export type EventView"));
    assert!(typescript.contains("LazyCollection<Uint8Array>"));
    assert!(typescript.contains("itemsvaluesCount"));
    assert!(go.contains("func BorrowBatchLazy"));
    assert!(go.contains("BatchItemsValuesLazyView"));
    assert!(go.contains("BatchItemsEntriesEntry"));
    assert!(go.contains("entry.Key)>=0"));
}

#[test]
fn generated_backends_derive_guard_bits_from_field_presence() {
    let schema = parse_schema(
        "#[version(10)] #[flags(u16)] enum Flags { HasAvatar = 2, HasBio = 3, } struct User { flags: Flags, #[guard(flags.has_avatar)] avatar: String, #[guard(flags.has_bio)] bio: String, }",
    )
    .unwrap();
    let go = generate_go_declarations(&schema);
    assert!(go.contains("__typikon_effective_Flags:=v.Flags"));
    assert!(go.contains("v.Avatar!=nil"));
    assert!(go.contains("v.Bio!=nil"));
    assert_eq!(go.matches("__typikon_effective_Flags:=v.Flags").count(), 1);
    assert!(go.contains("encode_flags(e,__typikon_effective_Flags)"));
    let typescript = generate_typescript_binding(&schema);
    assert!(typescript.contains("let effective_flags = value.flags"));
    assert!(typescript.contains("value.avatar !== undefined"));
    assert!(typescript.contains("value.bio !== undefined"));
    assert_eq!(typescript.matches("let effective_flags = value.flags").count(), 1);
    assert!(typescript.contains("write_flags(e, effective_flags)"));
}

#[test]
fn generated_language_types_preserve_flags_and_enums() {
    let schema = parse_schema(
        "#[version(10)] #[flags(u16)] enum Flags { Ready = 0, } enum Event { Created { id: u64 }, }",
    )
    .unwrap();
    let go = generate_go_declarations(&schema);
    assert!(go.contains("type Flags uint16"));
    assert!(go.contains("type Event interface{isEvent()}"));
    assert!(!go.contains("encoding/json"));
    let typescript = generate_typescript_binding(&schema);
    assert!(typescript.contains("export type Flags = number;"));
    assert!(typescript.contains("export type Event = { Created:"));
}

#[test]
fn go_declarations_start_with_the_byte_string_order() {
    let schema = parse_schema("#[version(3)] struct Ping { id: u32, }").unwrap();
    let go = generate_go_declarations(&schema);
    assert!(go.starts_with("func wireBytesCompare(a,b []byte) int {"));
    assert!(go.contains("type Ping struct {\n    Id uint32\n}\n"));
    assert!(go.contains("func EncodePing(v Ping)([]byte,error)"));
    assert!(go.contains("C.typikon_3_ping_validate_borrowed("));
}

#[test]
fn go_names_are_snake_and_pascal_case() {
    let schema =
        parse_schema("#[version(1)] struct UserProfile { display_name: String, } ").unwrap();
    let go = generate_go_declarations(&schema);
    assert!(go.contains("func encode_user_profile(e *wireEncoder,v UserProfile)"));
    assert!(go.contains("    DisplayName string\n"));
    assert!(go.contains(" DisplayName []byte;"));
}

#[test]
fn go_constructor_ids_are_byte_literals() {
    let schema = parse_schema("#[version(1)] struct Ping { id: u32, }").unwrap();
    let Item::Struct(ping) = &schema.items[0] else {
        panic!()
    };
    let cid = struct_constructor_cid(ping);
    let pairs: Vec<String> = (0..8).map(|k| format!("0x{}", &cid[2 * k..2 * k + 2])).collect();
    let go = generate_go_declarations(&schema);
    assert!(go.contains(&format!("var PingCID=[]byte{{{}}}\n", pairs.join(","))));
}

#[test]
fn go_unit_enums_are_strings_of_their_values() {
    let schema = parse_schema("#[version(1)] enum Color { Red = 1, Green = 4, }").unwrap();
    let go = generate_go_declarations(&schema);
    assert!(go.contains("type Color string\n"));
    assert!(go.contains("case \"Red\": e.u64(1);case \"Green\": e.u64(4);"));
    assert!(go.contains("case 1:return \"Red\",nil;case 4:return \"Green\",nil;"));
}

#[test]
fn go_optional_fields_use_local_presence_tags() {
    let schema = parse_schema("#[version(1)] struct Note { text: Optional<String>, }").unwrap();
    let go = generate_go_declarations(&schema);
    assert!(go.contains("if v.Text==nil{e.u8(0)}else{e.u8(1);e.string(*(v.Text));};"));
    assert!(go.contains("optionalTagvText,e:=d.u8();"));
}

#[test]
fn go_declarations_need_aliases_that_resolve() {
    let ready = parse_schema("#[version(1)] type Id = u64; struct User { id: Id, }").unwrap();
    assert!(go_declarations_ready(&ready));
    let looping = parse_schema("#[version(1)] type Id = Id; struct User { id: Id, }").unwrap();
    assert!(!go_declarations_ready(&looping));
}

#[test]
fn c_prototypes_declare_each_native_validator() {
    let schema = parse_schema("#[version(10)] struct UserProfile { id: u64, } enum Mode { Fast = 1, }")
        .unwrap();
    assert_eq!(
        typikon::generate_c_prototypes(&schema),
        "int32_t typikon_10_user_profile_validate_borrowed(const uint8_t *input, size_t len);\nint32_t typikon_10_mode_validate_borrowed(const uint8_t *input, size_t len);\n"
    );
}

#[test]
fn guard_bits_are_the_named_flags_bits() {
    let schema = parse_schema(
        "#[version(10)] #[flags(u16)] enum Flags { HasAvatar = 2, HasBio = 3, } struct User { flags: Flags, #[guard(flags.has_avatar)] avatar: String, #[guard(flags.has_bio)] bio: String, }",
    )
    .unwrap();
    let go = generate_go_declarations(&schema);
    assert!(go.contains("if v.Avatar!=nil{__typikon_effective_Flags|=Flags(1<<2)}"));
    assert!(go.contains("if v.Bio!=nil{__typikon_effective_Flags|=Flags(1<<3)}"));
    assert!(go.contains("if __typikon_effective_Flags&(1<<3)!=0{"));
    assert!(go.contains("if v.Flags&(1<<3)!=0{"));
    assert!(!go.contains("(1<<0)"));
    assert_eq!(go.matches("__typikon_effective_Flags:=v.Flags").count(), 1);
    let typescript = generate_typescript_binding(&schema);
    assert!(typescript.contains("if (value.avatar !== undefined) effective_flags |= (1 << 2)"));
    assert!(typescript.contains("if (value.bio !== undefined) effective_flags |= (1 << 3)"));
    assert!(typescript.contains("if ((value.flags & (1 << 3)) !== 0)"));
    assert!(!typescript.contains("(1 << 0)"));
    assert_eq!(typescript.matches("let effective_flags = value.flags").count(), 1);
}
