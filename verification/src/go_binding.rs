//! The Go declarations of a schema: for each item its type, the functions
//! that write and read it, those that hand its packets to the native
//! bridge, and its views.

use vstd::prelude::*;
use vstd::string::StringExecFns;

use crate::ast::{Enum, EnumModel, Item, ItemModel, Schema, SchemaModel};
use crate::fingerprint::push_literal;
use crate::go_items::{
    generate_go_enum, generate_go_struct, go_alias, go_flags, go_packet_functions, go_unit_enum,
    spec_go_alias, spec_go_enum, spec_go_flags, spec_go_packet_functions, spec_go_struct,
    spec_go_unit_enum,
};
use crate::go_lazy_enum::{generate_go_lazy_view_enum, spec_go_lazy_enum};
use crate::go_views::{
    generate_go_view_struct, go_view_enum_own, spec_go_view_enum_own, spec_go_view_struct,
};
use crate::typescript::{
    fields_resolve, lemma_concat_step, spec_concat, spec_fields_resolve, spec_unit_enum,
    spec_variants_resolve, unit_enum, variants_resolve,
};
use crate::typescript_expr::{resolves, spec_resolves};

verus! {

/// An enum's view and, when it has one, its lazy view.
pub open spec fn spec_go_view_enum(e: EnumModel, schema: SchemaModel) -> Seq<char> {
    spec_go_view_enum_own(e, schema) + spec_go_lazy_enum(e, schema)
}

pub(crate) fn generate_go_view_enum(e: &Enum, schema: &Schema, out: &mut String)
    ensures
        final(out)@ == old(out)@ + spec_go_view_enum(e@, schema@),
{
    let ghost start = out@;
    go_view_enum_own(e, schema, out);
    generate_go_lazy_view_enum(e, schema, out);
    assert(out@ =~= start + spec_go_view_enum(e@, schema@));
}

/// The views of an item: a struct's, and an enum's with fields.
#[verifier::opaque]
pub open spec fn spec_go_view_item(item: ItemModel, schema: SchemaModel) -> Seq<char> {
    match item {
        ItemModel::Struct(st) => spec_go_view_struct(st, schema.items),
        ItemModel::Enum(e) => if spec_unit_enum(e) {
            seq![]
        } else {
            spec_go_view_enum(e, schema)
        },
        _ => seq![],
    }
}

pub(crate) fn generate_go_view_item(item: &Item, schema: &Schema, out: &mut String)
    ensures
        final(out)@ == old(out)@ + spec_go_view_item(item@, schema@),
{
    let ghost start = out@;
    match item {
        Item::Struct(st) => generate_go_view_struct(st, schema, out),
        Item::Enum(e) => {
            if !unit_enum(e) {
                generate_go_view_enum(e, schema, out);
            }
        },
        _ => {},
    }
    proof {
        reveal(spec_go_view_item);
    }
    assert(out@ =~= start + spec_go_view_item(item@, schema@));
}

/// The Go declarations of an item's type and of its writer and reader.
#[verifier::opaque]
pub open spec fn spec_go_item_codec(item: ItemModel, schema: SchemaModel, fuel: nat) -> Seq<char> {
    match item {
        ItemModel::Alias(a) => spec_go_alias(a, schema.items, fuel),
        ItemModel::Flags(f) => spec_go_flags(f),
        ItemModel::Enum(e) => if spec_unit_enum(e) {
            spec_go_unit_enum(e)
        } else {
            spec_go_enum(e, schema, fuel)
        },
        ItemModel::Struct(st) => spec_go_struct(st, schema, fuel),
    }
}

/// An item's Go declarations: its type, writer and reader, its packet
/// functions and its views.
#[verifier::opaque]
pub open spec fn spec_go_item(item: ItemModel, schema: SchemaModel, fuel: nat) -> Seq<char> {
    spec_go_item_codec(item, schema, fuel) + spec_go_packet_functions(item.name(), schema.version)
        + spec_go_view_item(item, schema)
}

/// What writing an item needs: the aliases met while writing and reading
/// its values resolve within `fuel` steps.
pub open spec fn spec_go_item_ready(item: ItemModel, items: Seq<ItemModel>, fuel: nat) -> bool {
    match item {
        ItemModel::Alias(a) => spec_resolves(a.ty, items, fuel),
        ItemModel::Struct(st) => spec_fields_resolve(st.fields, items, fuel),
        ItemModel::Enum(e) => spec_variants_resolve(e, items, fuel),
        ItemModel::Flags(_) => true,
    }
}

fn generate_go_item_codec(item: &Item, schema: &Schema, fuel: usize, out: &mut String)
    requires
        spec_go_item_ready(item@, schema@.items, fuel as nat),
    ensures
        final(out)@ == old(out)@ + spec_go_item_codec(item@, schema@, fuel as nat),
{
    let ghost start = out@;
    match item {
        Item::Alias(a) => {
            let text = go_alias(a, schema, fuel);
            out.append(text.as_str());
        },
        Item::Flags(f) => {
            let text = go_flags(f);
            out.append(text.as_str());
        },
        Item::Enum(e) => {
            if unit_enum(e) {
                let text = go_unit_enum(e);
                out.append(text.as_str());
            } else {
                generate_go_enum(e, schema, fuel, out);
            }
        },
        Item::Struct(st) => generate_go_struct(st, schema, fuel, out),
    }
    proof {
        reveal(spec_go_item_codec);
    }
    assert(out@ =~= start + spec_go_item_codec(item@, schema@, fuel as nat));
}

pub(crate) fn generate_go_item(item: &Item, schema: &Schema, fuel: usize, out: &mut String)
    requires
        spec_go_item_ready(item@, schema@.items, fuel as nat),
    ensures
        final(out)@ == old(out)@ + spec_go_item(item@, schema@, fuel as nat),
{
    let ghost start = out@;
    generate_go_item_codec(item, schema, fuel, out);
    let packet = go_packet_functions(item.name(), schema.version);
    out.append(packet.as_str());
    generate_go_view_item(item, schema, out);
    proof {
        reveal(spec_go_item);
    }
    assert(out@ =~= start + spec_go_item(item@, schema@, fuel as nat));
}

/// What writing a schema's Go declarations needs: each item is ready, its
/// aliases resolving within as many steps as the schema has items, which
/// holds exactly when no alias refers back to itself.
pub open spec fn spec_go_ready(schema: SchemaModel) -> bool {
    forall|k: int|
        0 <= k < schema.items.len() ==> spec_go_item_ready(
            #[trigger] schema.items[k],
            schema.items,
            schema.items.len(),
        )
}

fn go_item_ready(item: &Item, schema: &Schema, fuel: usize) -> (r: bool)
    ensures
        r == spec_go_item_ready(item@, schema@.items, fuel as nat),
{
    match item {
        Item::Alias(a) => resolves(&a.ty, schema, fuel),
        Item::Struct(st) => {
            assert(st@.fields == st.fields@.map_values(|f: crate::ast::Field| f@));
            fields_resolve(&st.fields, schema, fuel)
        },
        Item::Enum(e) => variants_resolve(e, schema, fuel),
        Item::Flags(_) => true,
    }
}

/// Whether the Go declarations of `schema` can be written: exactly when no
/// alias refers back to itself along the types that writing and reading a
/// value follow.
pub fn go_declarations_ready(schema: &Schema) -> (r: bool)
    ensures
        r == spec_go_ready(schema@),
{
    let fuel = schema.items.len();
    let mut k: usize = 0;
    while k < schema.items.len()
        invariant
            k <= schema.items@.len() == fuel,
            forall|j: int|
                0 <= j < k ==> spec_go_item_ready(
                    #[trigger] schema@.items[j],
                    schema@.items,
                    schema@.items.len(),
                ),
        decreases schema.items@.len() - k,
    {
        assert(schema@.items[k as int] == schema.items@[k as int]@);
        if !go_item_ready(&schema.items[k], schema, fuel) {
            return false;
        }
        k = k + 1;
    }
    true
}

/// The Go function that orders two byte strings, which every binding's
/// views use to check map keys.
pub open spec fn spec_go_bytes_compare() -> Seq<char> {
    "func wireBytesCompare(a,b []byte) int { for i:=0;i<len(a)&&i<len(b);i++ { if a[i]<b[i] { return -1 }; if a[i]>b[i] { return 1 } }; if len(a)<len(b) { return -1 }; if len(a)>len(b) { return 1 }; return 0 }\n"@
}

/// The Go declarations of a schema.
pub open spec fn spec_go_declarations(schema: SchemaModel) -> Seq<char> {
    spec_go_bytes_compare() + spec_concat(
        schema.items.map_values(|item: ItemModel| spec_go_item(item, schema, schema.items.len())),
    )
}

/// The Go declarations of `schema` that follow the cgo wire runtime in a
/// binding: the byte-string order, then for each item its type, writer and
/// reader, the functions that encode, decode and validate its packets, and
/// for structs and enums with fields their views and lazy views.
pub fn generate_go_declarations(schema: &Schema) -> (r: String)
    requires
        spec_go_ready(schema@),
    ensures
        r@ == spec_go_declarations(schema@),
{
    let ghost model = schema@;
    let fuel = schema.items.len();
    let ghost parts = model.items.map_values(|item: ItemModel| spec_go_item(item, model, model.items.len()));
    let mut out = String::new();
    push_literal(
        &mut out,
        "func wireBytesCompare(a,b []byte) int { for i:=0;i<len(a)&&i<len(b);i++ { if a[i]<b[i] { return -1 }; if a[i]>b[i] { return 1 } }; if len(a)<len(b) { return -1 }; if len(a)>len(b) { return 1 }; return 0 }\n",
    );
    let ghost head = out@;
    let mut i: usize = 0;
    while i < schema.items.len()
        invariant
            i <= schema.items@.len() == parts.len() == fuel,
            model == schema@,
            spec_go_ready(model),
            parts == model.items.map_values(|item: ItemModel| spec_go_item(item, model, model.items.len())),
            out@ == head + spec_concat(parts.take(i as int)),
        decreases schema.items@.len() - i,
    {
        proof {
            lemma_concat_step(parts, i as int);
            assert(model.items[i as int] == schema.items@[i as int]@);
        }
        generate_go_item(&schema.items[i], schema, fuel, &mut out);
        assert(out@ =~= head + spec_concat(parts.take(i + 1)));
        i = i + 1;
    }
    assert(parts.take(fuel as int) =~= parts);
    assert(out@ =~= spec_go_declarations(schema@));
    out
}

/// The C prototype of an item's native validator at `layer`.
pub open spec fn spec_c_prototype(name: Seq<char>, layer: u16) -> Seq<char> {
    "int32_t typikon_"@ + crate::fingerprint::spec_number(layer as nat) + "_"@
        + crate::go_names::spec_snake_case(name)
        + "_validate_borrowed(const uint8_t *input, size_t len);\n"@
}

/// The C prototypes of a schema's native validators, one line per item.
pub open spec fn spec_c_prototypes(schema: SchemaModel) -> Seq<char> {
    spec_concat(
        schema.items.map_values(|item: ItemModel| spec_c_prototype(item.name(), schema.version)),
    )
}

/// The C prototypes of the native validators of `schema`'s items, which
/// the bridge's C header declares for the Go binding.
pub fn generate_c_prototypes(schema: &Schema) -> (r: String)
    ensures
        r@ == spec_c_prototypes(schema@),
{
    let ghost parts = schema@.items.map_values(
        |item: ItemModel| spec_c_prototype(item.name(), schema@.version),
    );
    let digits = crate::typescript_types::number_text(schema.version as u64);
    let mut out = String::new();
    let mut i: usize = 0;
    while i < schema.items.len()
        invariant
            i <= schema.items@.len() == parts.len(),
            digits@ == crate::fingerprint::spec_number(schema@.version as nat),
            parts == schema@.items.map_values(
                |item: ItemModel| spec_c_prototype(item.name(), schema@.version),
            ),
            out@ == spec_concat(parts.take(i as int)),
        decreases schema.items@.len() - i,
    {
        proof {
            lemma_concat_step(parts, i as int);
            assert(schema@.items[i as int] == schema.items@[i as int]@);
        }
        let snake = crate::go_names::snake_case(schema.items[i].name().as_str());
        push_literal(&mut out, "int32_t typikon_");
        out.append(digits.as_str());
        push_literal(&mut out, "_");
        out.append(snake.as_str());
        push_literal(&mut out, "_validate_borrowed(const uint8_t *input, size_t len);\n");
        assert(out@ =~= spec_concat(parts.take(i + 1)));
        i = i + 1;
    }
    assert(parts.take(schema.items@.len() as int) =~= parts);
    out
}

} // verus!
