//! How schema types read in TypeScript: the type a value has, the view a
//! packet is read into, and the expressions that write and read a value.

use vstd::prelude::*;
use vstd::string::StringExecFns;

use crate::ast::{Item, ItemModel, Schema, StructModel, Type, TypeModel};
use crate::compatibility::{find_item, spec_find_item};
use crate::fingerprint::{push_literal, spec_number};
use crate::text::{decimal, starts_with_char, text_is};

verus! {

// ---------------------------------------------------------------------------
// Names and shapes
// ---------------------------------------------------------------------------

/// Some item of the schema is called `name`.
pub open spec fn spec_named(items: Seq<ItemModel>, name: Seq<char>) -> bool {
    spec_find_item(items, name) is Some
}

pub(crate) fn is_named(schema: &Schema, name: &String) -> (r: bool)
    ensures
        r == spec_named(schema@.items, name@),
{
    find_item(&schema.items, name).is_some()
}

/// `Vec<u8>`: a byte string.
pub open spec fn spec_is_bytes(ty: TypeModel) -> bool {
    match ty {
        TypeModel::Vec(item) => match *item {
            TypeModel::Primitive(name) => name == "u8"@,
            _ => false,
        },
        _ => false,
    }
}

pub(crate) fn is_bytes_type(ty: &Type) -> (r: bool)
    ensures
        r == spec_is_bytes(ty@),
{
    match ty {
        Type::Vec(item) => {
            assert(ty@ == TypeModel::Vec(Box::new(item@)));
            match &**item {
                Type::Primitive(name) => text_is(name, "u8"),
                _ => false,
            }
        },
        _ => false,
    }
}

/// A collection read lazily: a vector or a map, but not a byte string.
pub open spec fn spec_is_collection(ty: TypeModel) -> bool {
    (ty is Vec || ty is Mapping) && !spec_is_bytes(ty)
}

pub(crate) fn is_collection(ty: &Type) -> (r: bool)
    ensures
        r == spec_is_collection(ty@),
{
    match ty {
        Type::Vec(_) | Type::Mapping(_, _) => !is_bytes_type(ty),
        _ => false,
    }
}

/// `String`.
pub open spec fn spec_is_string(ty: TypeModel) -> bool {
    ty matches TypeModel::Primitive(name) && name == "String"@
}

pub(crate) fn is_string_type(ty: &Type) -> (r: bool)
    ensures
        r == spec_is_string(ty@),
{
    match ty {
        Type::Primitive(name) => text_is(name, "String"),
        _ => false,
    }
}

/// The number `n` as decimal text.
pub(crate) fn number_text(n: u64) -> (r: String)
    ensures
        r@ == spec_number(n as nat),
{
    decimal(n)
}

/// The name of the encoder and decoder method for a primitive.
pub open spec fn spec_wire_method(name: Seq<char>) -> Seq<char> {
    if name == "String"@ {
        "string"@
    } else if name == "bool"@ {
        "bool"@
    } else if name == "f32"@ {
        "f32"@
    } else if name == "f64"@ {
        "f64"@
    } else if name == "u8"@ {
        "u8"@
    } else if name == "u16"@ {
        "u16"@
    } else if name == "u32"@ {
        "u32"@
    } else if name == "u64"@ {
        "u64"@
    } else if name == "i8"@ {
        "i8"@
    } else if name == "i16"@ {
        "i16"@
    } else if name == "i32"@ {
        "i32"@
    } else if name == "i64"@ {
        "i64"@
    } else {
        "u8"@
    }
}

/// The TypeScript encoder and decoder method for each wire primitive is the
/// one named after it (`string` for `String`): a signed type is never read
/// or written as an unsigned one, nor a narrow one as a wide one.
pub proof fn lemma_wire_method_is_the_primitive(name: Seq<char>)
    requires
        name == "String"@
            || name == "bool"@
            || name == "f32"@
            || name == "f64"@
            || name == "u8"@
            || name == "u16"@
            || name == "u32"@
            || name == "u64"@
            || name == "i8"@
            || name == "i16"@
            || name == "i32"@
            || name == "i64"@,
    ensures
        spec_wire_method(name) == if name == "String"@ {
            "string"@
        } else {
            name
        },
{
    reveal_strlit("String");
    reveal_strlit("bool");
    reveal_strlit("f32");
    reveal_strlit("f64");
    reveal_strlit("u8");
    reveal_strlit("u16");
    reveal_strlit("u32");
    reveal_strlit("u64");
    reveal_strlit("i8");
    reveal_strlit("i16");
    reveal_strlit("i32");
    reveal_strlit("i64");
    reveal_strlit("string");
}

pub(crate) fn typescript_wire_method(name: &String) -> (r: &'static str)
    ensures
        r@ == spec_wire_method(name@),
{
    if text_is(name, "String") {
        "string"
    } else if text_is(name, "bool") {
        "bool"
    } else if text_is(name, "f32") {
        "f32"
    } else if text_is(name, "f64") {
        "f64"
    } else if text_is(name, "u8") {
        "u8"
    } else if text_is(name, "u16") {
        "u16"
    } else if text_is(name, "u32") {
        "u32"
    } else if text_is(name, "u64") {
        "u64"
    } else if text_is(name, "i8") {
        "i8"
    } else if text_is(name, "i16") {
        "i16"
    } else if text_is(name, "i32") {
        "i32"
    } else if text_is(name, "i64") {
        "i64"
    } else {
        "u8"
    }
}

/// The first struct of the schema called `name`.
pub open spec fn spec_first_struct(items: Seq<ItemModel>, name: Seq<char>) -> Option<StructModel>
    decreases items.len(),
{
    if items.len() == 0 {
        None
    } else {
        match items[0] {
            ItemModel::Struct(st) => if st.name == name {
                Some(st)
            } else {
                spec_first_struct(items.drop_first(), name)
            },
            _ => spec_first_struct(items.drop_first(), name),
        }
    }
}

/// The struct called `name` has a collection field, so it has a lazy view.
pub open spec fn spec_has_lazy_view(items: Seq<ItemModel>, name: Seq<char>) -> bool {
    match spec_first_struct(items, name) {
        Some(st) => exists|i: int| 0 <= i < st.fields.len() && spec_is_collection(#[trigger] st.fields[i].ty),
        None => false,
    }
}

/// Some field of `fields` is a lazily read collection.
fn has_collection(fields: &Vec<crate::ast::Field>) -> (r: bool)
    ensures
        r == exists|i: int|
            0 <= i < fields@.len() && spec_is_collection(#[trigger] fields@[i]@.ty),
{
    let mut j: usize = 0;
    while j < fields.len()
        invariant
            j <= fields@.len(),
            forall|k: int| 0 <= k < j ==> !spec_is_collection(#[trigger] fields@[k]@.ty),
        decreases fields@.len() - j,
    {
        if is_collection(&fields[j].ty) {
            assert(spec_is_collection(fields@[j as int]@.ty));
            return true;
        }
        j = j + 1;
    }
    false
}

pub(crate) fn typescript_has_lazy_view(name: &String, schema: &Schema) -> (r: bool)
    ensures
        r == spec_has_lazy_view(schema@.items, name@),
{
    let ghost items = schema@.items;
    let mut i: usize = 0;
    assert(items.skip(0) =~= items);
    while i < schema.items.len()
        invariant
            i <= schema.items@.len() == items.len(),
            items == schema@.items,
            spec_first_struct(items, name@) == spec_first_struct(items.skip(i as int), name@),
        decreases schema.items@.len() - i,
    {
        assert(items.skip(i as int).drop_first() =~= items.skip(i + 1));
        assert(items.skip(i as int)[0] == schema.items@[i as int]@);
        match &schema.items[i] {
            Item::Struct(st) => {
                if st.name == *name {
                    let r = has_collection(&st.fields);
                    proof {
                        assert(spec_first_struct(items.skip(i as int), name@) == Some(st@));
                        if r {
                            let k = choose|k: int|
                                0 <= k < st.fields@.len() && spec_is_collection(
                                    #[trigger] st.fields@[k]@.ty,
                                );
                            assert(st@.fields[k] == st.fields@[k]@);
                        } else {
                            assert forall|k: int| 0 <= k < st@.fields.len() implies !spec_is_collection(
                                #[trigger] st@.fields[k].ty,
                            ) by {
                                assert(st@.fields[k] == st.fields@[k]@);
                            }
                        }
                    }
                    return r;
                }
            },
            _ => {},
        }
        i = i + 1;
    }
    false
}

/// The type called `name` is read into a view of its own: a struct, or an
/// enum with fields.
pub open spec fn spec_named_view(items: Seq<ItemModel>, name: Seq<char>) -> bool {
    match spec_find_item(items, name) {
        Some(ItemModel::Struct(_)) => true,
        Some(ItemModel::Enum(e)) => !(forall|i: int|
            0 <= i < e.variants.len() ==> (#[trigger] e.variants[i]).fields.len() == 0),
        _ => false,
    }
}

/// Every variant of `variants` is without fields.
fn all_unit(variants: &Vec<crate::ast::EnumVariant>) -> (r: bool)
    ensures
        r == forall|i: int| 0 <= i < variants@.len() ==> (#[trigger] variants@[i])@.fields.len() == 0,
{
    let mut i: usize = 0;
    while i < variants.len()
        invariant
            i <= variants@.len(),
            forall|k: int| 0 <= k < i ==> (#[trigger] variants@[k])@.fields.len() == 0,
        decreases variants@.len() - i,
    {
        if variants[i].fields.len() != 0 {
            return false;
        }
        i = i + 1;
    }
    true
}

pub(crate) fn typescript_named_view(name: &String, schema: &Schema) -> (r: bool)
    ensures
        r == spec_named_view(schema@.items, name@),
{
    match find_item(&schema.items, name) {
        Some(Item::Struct(_)) => true,
        Some(Item::Enum(e)) => {
            let unit = all_unit(&e.variants);
            proof {
                assert forall|k: int| 0 <= k < e@.variants.len() implies e@.variants[k]
                    == e.variants@[k]@ by {}
                if !unit {
                    let k = choose|k: int|
                        0 <= k < e.variants@.len() && (#[trigger] e.variants@[k])@.fields.len() != 0;
                    assert(e@.variants[k].fields.len() != 0);
                }
            }
            !unit
        },
        _ => false,
    }
}

// ---------------------------------------------------------------------------
// Types
// ---------------------------------------------------------------------------

/// The TypeScript type of a value.
pub open spec fn spec_ts_type(ty: TypeModel, items: Seq<ItemModel>) -> Seq<char>
    decreases ty,
{
    match ty {
        TypeModel::FixedBytes(_) => "Uint8Array"@,
        TypeModel::Optional(item) => spec_ts_type(*item, items) + " | undefined"@,
        TypeModel::Primitive(name) => if name == "String"@ {
            "string"@
        } else if name == "bool"@ {
            "boolean"@
        } else if name.len() > 0 && name[0] == 'f' {
            "number"@
        } else if name == "u64"@ || name == "i64"@ {
            "bigint"@
        } else if name.len() > 0 && (name[0] == 'u' || name[0] == 'i') {
            "number"@
        } else if spec_named(items, name) {
            name
        } else {
            "unknown"@
        },
        TypeModel::Vec(item) => if spec_is_bytes(ty) {
            "Uint8Array"@
        } else {
            "Array<"@ + spec_ts_type(*item, items) + ">"@
        },
        TypeModel::Mapping(_, value) => "Record<string, "@ + spec_ts_type(*value, items) + ">"@,
    }
}

/// The TypeScript type of each wire primitive: `string` for `String`,
/// `boolean` for `bool`, `bigint` for the 64-bit integers, whose values a
/// `number` cannot hold exactly, and `number` for the rest.
pub proof fn lemma_ts_primitive_types(name: Seq<char>, items: Seq<ItemModel>)
    requires
        name == "String"@
            || name == "bool"@
            || name == "f32"@
            || name == "f64"@
            || name == "u8"@
            || name == "u16"@
            || name == "u32"@
            || name == "u64"@
            || name == "i8"@
            || name == "i16"@
            || name == "i32"@
            || name == "i64"@,
    ensures
        spec_ts_type(TypeModel::Primitive(name), items) == if name == "String"@ {
            "string"@
        } else if name == "bool"@ {
            "boolean"@
        } else if name == "u64"@ || name == "i64"@ {
            "bigint"@
        } else {
            "number"@
        },
{
    reveal_strlit("String");
    reveal_strlit("bool");
    reveal_strlit("f32");
    reveal_strlit("f64");
    reveal_strlit("u8");
    reveal_strlit("u16");
    reveal_strlit("u32");
    reveal_strlit("u64");
    reveal_strlit("i8");
    reveal_strlit("i16");
    reveal_strlit("i32");
    reveal_strlit("i64");
    reveal_strlit("string");
    reveal_strlit("boolean");
    reveal_strlit("number");
    reveal_strlit("bigint");
}


pub(crate) fn typescript_type(ty: &Type, schema: &Schema) -> (r: String)
    ensures
        r@ == spec_ts_type(ty@, schema@.items),
    decreases ty,
{
    match ty {
        Type::FixedBytes(_) => "Uint8Array".to_owned(),
        Type::Optional(item) => {
            let mut out = typescript_type(item, schema);
            push_literal(&mut out, " | undefined");
            out
        },
        Type::Primitive(name) => {
            if text_is(name, "String") {
                "string".to_owned()
            } else if text_is(name, "bool") {
                "boolean".to_owned()
            } else if starts_with_char(name.as_str(), 'f') {
                "number".to_owned()
            } else if text_is(name, "u64") || text_is(name, "i64") {
                "bigint".to_owned()
            } else if starts_with_char(name.as_str(), 'u') || starts_with_char(name.as_str(), 'i') {
                "number".to_owned()
            } else if is_named(schema, name) {
                name.clone()
            } else {
                "unknown".to_owned()
            }
        },
        Type::Vec(item) => {
            if is_bytes_type(ty) {
                "Uint8Array".to_owned()
            } else {
                let mut out = "Array<".to_owned();
                let inner = typescript_type(item, schema);
                out.append(inner.as_str());
                push_literal(&mut out, ">");
                out
            }
        },
        Type::Mapping(_, value) => {
            let mut out = "Record<string, ".to_owned();
            let inner = typescript_type(value, schema);
            out.append(inner.as_str());
            push_literal(&mut out, ">");
            out
        },
    }
}

/// The type of a value in a view of the packet: byte strings and strings
/// stay bytes, named types with a view of their own are read into it, and a
/// map is a list of entries.
pub open spec fn spec_view_type(ty: TypeModel, items: Seq<ItemModel>) -> Seq<char>
    decreases ty,
{
    match ty {
        TypeModel::Optional(item) => spec_view_type(*item, items) + " | undefined"@,
        TypeModel::FixedBytes(_) => "Uint8Array"@,
        TypeModel::Primitive(name) => if name == "String"@ {
            "Uint8Array"@
        } else if spec_named(items, name) {
            if spec_named_view(items, name) {
                name + "View"@
            } else {
                name
            }
        } else {
            spec_ts_type(ty, items)
        },
        TypeModel::Vec(item) => if spec_is_bytes(ty) {
            "Uint8Array"@
        } else {
            "Array<"@ + spec_view_type(*item, items) + ">"@
        },
        TypeModel::Mapping(key, value) => "Array<{ key: "@ + spec_view_type(*key, items)
            + "; value: "@ + spec_view_type(*value, items) + " }>"@,
    }
}

pub(crate) fn typescript_view_type(ty: &Type, schema: &Schema) -> (r: String)
    ensures
        r@ == spec_view_type(ty@, schema@.items),
    decreases ty,
{
    match ty {
        Type::Optional(item) => {
            let mut out = typescript_view_type(item, schema);
            push_literal(&mut out, " | undefined");
            out
        },
        Type::FixedBytes(_) => "Uint8Array".to_owned(),
        Type::Primitive(name) => {
            if text_is(name, "String") {
                "Uint8Array".to_owned()
            } else if is_named(schema, name) {
                if typescript_named_view(name, schema) {
                    let mut out = name.clone();
                    push_literal(&mut out, "View");
                    out
                } else {
                    name.clone()
                }
            } else {
                typescript_type(ty, schema)
            }
        },
        Type::Vec(item) => {
            if is_bytes_type(ty) {
                "Uint8Array".to_owned()
            } else {
                let mut out = "Array<".to_owned();
                let inner = typescript_view_type(item, schema);
                out.append(inner.as_str());
                push_literal(&mut out, ">");
                out
            }
        },
        Type::Mapping(key, value) => {
            let mut out = "Array<{ key: ".to_owned();
            let k = typescript_view_type(key, schema);
            out.append(k.as_str());
            push_literal(&mut out, "; value: ");
            let v = typescript_view_type(value, schema);
            out.append(v.as_str());
            push_literal(&mut out, " }>");
            out
        },
    }
}

/// The type of a value in a lazy view: as in a view, but a struct with
/// collections is read into its lazy view.
pub open spec fn spec_lazy_view_type(ty: TypeModel, items: Seq<ItemModel>) -> Seq<char>
    decreases ty,
{
    match ty {
        TypeModel::Vec(item) => if spec_is_bytes(ty) {
            "Uint8Array"@
        } else {
            "Array<"@ + spec_lazy_view_type(*item, items) + ">"@
        },
        TypeModel::Primitive(name) => if spec_named(items, name) && spec_has_lazy_view(items, name) {
            name + "LazyView"@
        } else {
            spec_view_type(ty, items)
        },
        TypeModel::Mapping(key, value) => "Array<{ key: "@ + spec_lazy_view_type(*key, items)
            + "; value: "@ + spec_lazy_view_type(*value, items) + " }>"@,
        _ => spec_view_type(ty, items),
    }
}

pub(crate) fn typescript_lazy_view_type(ty: &Type, schema: &Schema) -> (r: String)
    ensures
        r@ == spec_lazy_view_type(ty@, schema@.items),
    decreases ty,
{
    match ty {
        Type::Vec(item) => {
            if is_bytes_type(ty) {
                "Uint8Array".to_owned()
            } else {
                let mut out = "Array<".to_owned();
                let inner = typescript_lazy_view_type(item, schema);
                out.append(inner.as_str());
                push_literal(&mut out, ">");
                out
            }
        },
        Type::Primitive(name) => {
            if is_named(schema, name) && typescript_has_lazy_view(name, schema) {
                let mut out = name.clone();
                push_literal(&mut out, "LazyView");
                out
            } else {
                typescript_view_type(ty, schema)
            }
        },
        Type::Mapping(key, value) => {
            let mut out = "Array<{ key: ".to_owned();
            let k = typescript_lazy_view_type(key, schema);
            out.append(k.as_str());
            push_literal(&mut out, "; value: ");
            let v = typescript_lazy_view_type(value, schema);
            out.append(v.as_str());
            push_literal(&mut out, " }>");
            out
        },
        _ => typescript_view_type(ty, schema),
    }
}

/// The type of one item of a lazy collection: a map's entry, a vector's
/// element.
pub open spec fn spec_lazy_item_type(ty: TypeModel, items: Seq<ItemModel>) -> Seq<char> {
    match ty {
        TypeModel::Mapping(key, value) => "{ key: "@ + spec_lazy_view_type(*key, items)
            + "; value: "@ + spec_lazy_view_type(*value, items) + " }"@,
        TypeModel::Vec(item) => spec_lazy_view_type(*item, items),
        _ => spec_view_type(ty, items),
    }
}

pub(crate) fn typescript_lazy_item_type(ty: &Type, schema: &Schema) -> (r: String)
    ensures
        r@ == spec_lazy_item_type(ty@, schema@.items),
{
    match ty {
        Type::Mapping(key, value) => {
            let mut out = "{ key: ".to_owned();
            let k = typescript_lazy_view_type(key, schema);
            out.append(k.as_str());
            push_literal(&mut out, "; value: ");
            let v = typescript_lazy_view_type(value, schema);
            out.append(v.as_str());
            push_literal(&mut out, " }");
            out
        },
        Type::Vec(item) => typescript_lazy_view_type(item, schema),
        _ => typescript_view_type(ty, schema),
    }
}

} // verus!
