//! The TypeScript statements and expressions that write a value to a wire
//! encoder and read it back from a wire decoder.

use vstd::prelude::*;
use vstd::string::StringExecFns;

use crate::ast::{ItemModel, Item, Schema, Type, TypeModel};
use crate::compatibility::{find_item, spec_find_item};
use crate::fingerprint::{push_literal, spec_number};
use crate::text::{ascii_lowercase, spec_lowercase, text_is};
use crate::typescript_types::{
    is_bytes_type, is_named, is_string_type, number_text, spec_has_lazy_view, spec_is_bytes,
    spec_is_string, spec_named, spec_named_view, spec_view_type, spec_wire_method,
    typescript_has_lazy_view, typescript_named_view, typescript_view_type, typescript_wire_method,
};

verus! {

// ---------------------------------------------------------------------------
// Writing and reading owned values
// ---------------------------------------------------------------------------

/// Aliases met while writing or reading `ty` resolve in at most `fuel` steps
/// along any path, which holds exactly when no alias refers back to itself.
pub open spec fn spec_resolves(ty: TypeModel, items: Seq<ItemModel>, fuel: nat) -> bool
    decreases fuel, ty,
{
    match ty {
        TypeModel::FixedBytes(_) => true,
        TypeModel::Optional(item) => spec_resolves(*item, items, fuel),
        TypeModel::Primitive(name) => match spec_find_item(items, name) {
            Some(ItemModel::Alias(a)) => fuel > 0 && spec_resolves(a.ty, items, (fuel - 1) as nat),
            _ => true,
        },
        TypeModel::Vec(item) => spec_is_bytes(ty) || spec_resolves(*item, items, fuel),
        TypeModel::Mapping(_, value) => spec_resolves(*value, items, fuel),
    }
}

pub(crate) fn resolves(ty: &Type, schema: &Schema, fuel: usize) -> (r: bool)
    ensures
        r == spec_resolves(ty@, schema@.items, fuel as nat),
    decreases fuel, ty,
{
    match ty {
        Type::FixedBytes(_) => true,
        Type::Optional(item) => resolves(item, schema, fuel),
        Type::Primitive(name) => match find_item(&schema.items, name) {
            Some(Item::Alias(a)) => fuel > 0 && resolves(&a.ty, schema, fuel - 1),
            _ => true,
        },
        Type::Vec(item) => is_bytes_type(ty) || resolves(item, schema, fuel),
        Type::Mapping(_, value) => resolves(value, schema, fuel),
    }
}

/// The check that a value has an alias's exact length.
pub open spec fn spec_exact_check(expr: Seq<char>, exact_len: Option<usize>) -> Seq<char> {
    match exact_len {
        Some(n) => " if ("@ + expr + ".length !== "@ + spec_number(n as nat)
            + ") throw new Error('invalid exact length');"@,
        None => seq![],
    }
}

pub(crate) fn push_exact_check(out: &mut String, expr: &str, exact_len: Option<usize>)
    ensures
        final(out)@ == old(out)@ + spec_exact_check(expr@, exact_len),
{
    match exact_len {
        Some(n) => {
            push_literal(out, " if (");
            out.append(expr);
            push_literal(out, ".length !== ");
            let digits = number_text(n as u64);
            out.append(digits.as_str());
            push_literal(out, ") throw new Error('invalid exact length');");
            assert(out@ =~= old(out)@ + spec_exact_check(expr@, exact_len));
        },
        None => {
            assert(out@ =~= old(out)@ + spec_exact_check(expr@, exact_len));
        },
    }
}

/// The statements that write the value `expr` of type `ty`.
pub open spec fn spec_ts_encode(
    ty: TypeModel,
    expr: Seq<char>,
    items: Seq<ItemModel>,
    fuel: nat,
) -> Seq<char>
    decreases fuel, ty,
{
    match ty {
        TypeModel::FixedBytes(n) => " if ("@ + expr + ".length !== "@ + spec_number(n)
            + ") throw new Error('invalid fixed bytes length'); e.raw("@ + expr + ");"@,
        TypeModel::Optional(item) => " e.u8("@ + expr + " === undefined ? 0 : 1); if ("@ + expr
            + " !== undefined) {"@ + spec_ts_encode(*item, expr, items, fuel) + " }"@,
        TypeModel::Primitive(name) => match spec_find_item(items, name) {
            Some(ItemModel::Alias(a)) => if fuel == 0 {
                seq![]
            } else {
                spec_exact_check(expr, a.exact_len) + spec_ts_encode(
                    a.ty,
                    expr,
                    items,
                    (fuel - 1) as nat,
                )
            },
            Some(_) => " write_"@ + spec_lowercase(name) + "(e, "@ + expr + ");"@,
            None => " e."@ + spec_wire_method(name) + "("@ + expr + ");"@,
        },
        TypeModel::Vec(item) => if spec_is_bytes(ty) {
            " e.bytes("@ + expr + ");"@
        } else {
            " e.varint("@ + expr + ".length); for (const item of "@ + expr + ") {"@
                + spec_ts_encode(*item, "item"@, items, fuel) + " }"@
        },
        TypeModel::Mapping(_, value) => " const keys = Object.keys("@ + expr
            + ").sort(); e.varint(keys.length); for (const key of keys) { e.string(key);"@
            + spec_ts_encode(*value, expr + "[key]"@, items, fuel) + " }"@,
    }
}

pub(crate) fn typescript_encode_type(
    ty: &Type,
    expr: &str,
    schema: &Schema,
    fuel: usize,
    out: &mut String,
)
    requires
        spec_resolves(ty@, schema@.items, fuel as nat),
    ensures
        final(out)@ == old(out)@ + spec_ts_encode(ty@, expr@, schema@.items, fuel as nat),
    decreases fuel, ty,
{
    let ghost items = schema@.items;
    match ty {
        Type::FixedBytes(n) => {
            push_literal(out, " if (");
            out.append(expr);
            push_literal(out, ".length !== ");
            let digits = number_text(*n as u64);
            out.append(digits.as_str());
            push_literal(out, ") throw new Error('invalid fixed bytes length'); e.raw(");
            out.append(expr);
            push_literal(out, ");");
        },
        Type::Optional(item) => {
            push_literal(out, " e.u8(");
            out.append(expr);
            push_literal(out, " === undefined ? 0 : 1); if (");
            out.append(expr);
            push_literal(out, " !== undefined) {");
            typescript_encode_type(item, expr, schema, fuel, out);
            push_literal(out, " }");
        },
        Type::Primitive(name) => {
            match find_item(&schema.items, name) {
                Some(Item::Alias(a)) => {
                    push_exact_check(out, expr, a.exact_len);
                    typescript_encode_type(&a.ty, expr, schema, fuel - 1, out);
                },
                Some(_) => {
                    push_literal(out, " write_");
                    let lower = ascii_lowercase(name.as_str());
                    out.append(lower.as_str());
                    push_literal(out, "(e, ");
                    out.append(expr);
                    push_literal(out, ");");
                },
                None => {
                    push_literal(out, " e.");
                    out.append(typescript_wire_method(name));
                    push_literal(out, "(");
                    out.append(expr);
                    push_literal(out, ");");
                },
            }
        },
        Type::Vec(item) => {
            if is_bytes_type(ty) {
                push_literal(out, " e.bytes(");
                out.append(expr);
                push_literal(out, ");");
            } else {
                push_literal(out, " e.varint(");
                out.append(expr);
                push_literal(out, ".length); for (const item of ");
                out.append(expr);
                push_literal(out, ") {");
                typescript_encode_type(item, "item", schema, fuel, out);
                push_literal(out, " }");
            }
        },
        Type::Mapping(_, value) => {
            push_literal(out, " const keys = Object.keys(");
            out.append(expr);
            push_literal(
                out,
                ").sort(); e.varint(keys.length); for (const key of keys) { e.string(key);",
            );
            let mut entry = expr.to_owned();
            push_literal(&mut entry, "[key]");
            typescript_encode_type(value, entry.as_str(), schema, fuel, out);
            push_literal(out, " }");
        },
    }
    assert(out@ =~= old(out)@ + spec_ts_encode(ty@, expr@, items, fuel as nat));
}

/// The statements that read a value of type `ty` into `lhs`.
pub open spec fn spec_ts_decode(
    ty: TypeModel,
    lhs: Seq<char>,
    items: Seq<ItemModel>,
    fuel: nat,
) -> Seq<char>
    decreases fuel, ty,
{
    match ty {
        TypeModel::FixedBytes(n) => " "@ + lhs + " = d.take("@ + spec_number(n) + ");"@,
        TypeModel::Optional(item) => " { const tag = d.u8(); if (tag === 1) {"@ + spec_ts_decode(
            *item,
            lhs,
            items,
            fuel,
        ) + " } else if (tag === 0) { "@ + lhs
            + " = undefined; } else throw new Error('invalid optional marker'); }"@,
        TypeModel::Primitive(name) => match spec_find_item(items, name) {
            Some(ItemModel::Alias(a)) => if fuel == 0 {
                seq![]
            } else {
                spec_ts_decode(a.ty, lhs, items, (fuel - 1) as nat) + spec_exact_check(
                    lhs,
                    a.exact_len,
                )
            },
            Some(_) => " "@ + lhs + " = read_"@ + spec_lowercase(name) + "(d);"@,
            None => " "@ + lhs + " = d."@ + spec_wire_method(name) + "();"@,
        },
        TypeModel::Vec(item) => if spec_is_bytes(ty) {
            " "@ + lhs + " = d.bytes();"@
        } else {
            " "@ + lhs + " = []; for (let i = d.varint(); i > 0; i--) {"@ + spec_ts_decode(
                *item,
                lhs + "["@ + lhs + ".length]"@,
                items,
                fuel,
            ) + " }"@
        },
        TypeModel::Mapping(_, value) => " "@ + lhs
            + " = {}; for (let i = d.varint(); i > 0; i--) { const key = d.string();"@
            + spec_ts_decode(*value, lhs + "[key]"@, items, fuel) + " }"@,
    }
}

pub(crate) fn typescript_decode_type(
    ty: &Type,
    lhs: &str,
    schema: &Schema,
    fuel: usize,
    out: &mut String,
)
    requires
        spec_resolves(ty@, schema@.items, fuel as nat),
    ensures
        final(out)@ == old(out)@ + spec_ts_decode(ty@, lhs@, schema@.items, fuel as nat),
    decreases fuel, ty,
{
    let ghost items = schema@.items;
    match ty {
        Type::FixedBytes(n) => {
            push_literal(out, " ");
            out.append(lhs);
            push_literal(out, " = d.take(");
            let digits = number_text(*n as u64);
            out.append(digits.as_str());
            push_literal(out, ");");
        },
        Type::Optional(item) => {
            push_literal(out, " { const tag = d.u8(); if (tag === 1) {");
            typescript_decode_type(item, lhs, schema, fuel, out);
            push_literal(out, " } else if (tag === 0) { ");
            out.append(lhs);
            push_literal(out, " = undefined; } else throw new Error('invalid optional marker'); }");
        },
        Type::Primitive(name) => {
            match find_item(&schema.items, name) {
                Some(Item::Alias(a)) => {
                    typescript_decode_type(&a.ty, lhs, schema, fuel - 1, out);
                    push_exact_check(out, lhs, a.exact_len);
                },
                Some(_) => {
                    push_literal(out, " ");
                    out.append(lhs);
                    push_literal(out, " = read_");
                    let lower = ascii_lowercase(name.as_str());
                    out.append(lower.as_str());
                    push_literal(out, "(d);");
                },
                None => {
                    push_literal(out, " ");
                    out.append(lhs);
                    push_literal(out, " = d.");
                    out.append(typescript_wire_method(name));
                    push_literal(out, "();");
                },
            }
        },
        Type::Vec(item) => {
            if is_bytes_type(ty) {
                push_literal(out, " ");
                out.append(lhs);
                push_literal(out, " = d.bytes();");
            } else {
                push_literal(out, " ");
                out.append(lhs);
                push_literal(out, " = []; for (let i = d.varint(); i > 0; i--) {");
                let mut slot = lhs.to_owned();
                push_literal(&mut slot, "[");
                slot.append(lhs);
                push_literal(&mut slot, ".length]");
                typescript_decode_type(item, slot.as_str(), schema, fuel, out);
                push_literal(out, " }");
            }
        },
        Type::Mapping(_, value) => {
            push_literal(out, " ");
            out.append(lhs);
            push_literal(out, " = {}; for (let i = d.varint(); i > 0; i--) { const key = d.string();");
            let mut slot = lhs.to_owned();
            push_literal(&mut slot, "[key]");
            typescript_decode_type(value, slot.as_str(), schema, fuel, out);
            push_literal(out, " }");
        },
    }
    assert(out@ =~= old(out)@ + spec_ts_decode(ty@, lhs@, items, fuel as nat));
}

/// The expression that reads a value of type `ty`.
pub open spec fn spec_decode_expr(ty: TypeModel, items: Seq<ItemModel>) -> Seq<char>
    decreases ty,
{
    match ty {
        TypeModel::FixedBytes(n) => "d.take("@ + spec_number(n) + ")"@,
        TypeModel::Optional(item) => "(()=>{const tag=d.u8();if(tag===0)return undefined;if(tag!==1)throw new Error('invalid optional marker');return "@
            + spec_decode_expr(*item, items) + ";})()"@,
        TypeModel::Primitive(name) => if spec_named(items, name) {
            "read_"@ + spec_lowercase(name) + "(d)"@
        } else {
            "d."@ + spec_wire_method(name) + "()"@
        },
        TypeModel::Vec(item) => if spec_is_bytes(ty) {
            "d.bytes()"@
        } else {
            "Array.from({ length: d.varint() }, () => "@ + spec_decode_expr(*item, items) + ")"@
        },
        TypeModel::Mapping(_, value) => "Object.fromEntries(Array.from({ length: d.varint() }, () => { const key = d.string(); return [key, "@
            + spec_decode_expr(*value, items) + "]; }))"@,
    }
}

pub(crate) fn typescript_decode_expression(ty: &Type, schema: &Schema, out: &mut String)
    ensures
        final(out)@ == old(out)@ + spec_decode_expr(ty@, schema@.items),
    decreases ty,
{
    match ty {
        Type::FixedBytes(n) => {
            push_literal(out, "d.take(");
            let digits = number_text(*n as u64);
            out.append(digits.as_str());
            push_literal(out, ")");
        },
        Type::Optional(item) => {
            push_literal(
                out,
                "(()=>{const tag=d.u8();if(tag===0)return undefined;if(tag!==1)throw new Error('invalid optional marker');return ",
            );
            typescript_decode_expression(item, schema, out);
            push_literal(out, ";})()");
        },
        Type::Primitive(name) => {
            if is_named(schema, name) {
                push_literal(out, "read_");
                let lower = ascii_lowercase(name.as_str());
                out.append(lower.as_str());
                push_literal(out, "(d)");
            } else {
                push_literal(out, "d.");
                out.append(typescript_wire_method(name));
                push_literal(out, "()");
            }
        },
        Type::Vec(item) => {
            if is_bytes_type(ty) {
                push_literal(out, "d.bytes()");
            } else {
                push_literal(out, "Array.from({ length: d.varint() }, () => ");
                typescript_decode_expression(item, schema, out);
                push_literal(out, ")");
            }
        },
        Type::Mapping(_, value) => {
            push_literal(
                out,
                "Object.fromEntries(Array.from({ length: d.varint() }, () => { const key = d.string(); return [key, ",
            );
            typescript_decode_expression(value, schema, out);
            push_literal(out, "]; }))");
        },
    }
    assert(out@ =~= old(out)@ + spec_decode_expr(ty@, schema@.items));
}

// ---------------------------------------------------------------------------
// Reading views of the packet
// ---------------------------------------------------------------------------

/// `_view` when the named type is read into a view of its own.
pub open spec fn spec_view_suffix(items: Seq<ItemModel>, name: Seq<char>) -> Seq<char> {
    if spec_named_view(items, name) {
        "_view"@
    } else {
        seq![]
    }
}

/// How a view compares a map key with the key before it.
pub open spec fn spec_key_compare(key: TypeModel) -> Seq<char> {
    if spec_is_string(key) || spec_is_bytes(key) {
        "wireBytesCompare(previousKey, key)"@
    } else {
        "previousKey >= key ? 0 : -1"@
    }
}

pub(crate) fn key_compare(key: &Type) -> (r: &'static str)
    ensures
        r@ == spec_key_compare(key@),
{
    if is_string_type(key) || is_bytes_type(key) {
        "wireBytesCompare(previousKey, key)"
    } else {
        "previousKey >= key ? 0 : -1"
    }
}

/// The expression that reads a value of type `ty` into its view.
pub open spec fn spec_view_expr(ty: TypeModel, items: Seq<ItemModel>) -> Seq<char>
    decreases ty,
{
    match ty {
        TypeModel::FixedBytes(n) => "d.take("@ + spec_number(n) + ")"@,
        TypeModel::Optional(item) => "(()=>{const tag=d.u8();if(tag===0)return undefined;if(tag!==1)throw new Error('invalid optional marker');return "@
            + spec_view_expr(*item, items) + ";})()"@,
        TypeModel::Primitive(name) => if name == "String"@ {
            "d.bytes()"@
        } else if spec_named(items, name) {
            "read_"@ + spec_lowercase(name) + spec_view_suffix(items, name) + "(d)"@
        } else {
            "d."@ + spec_wire_method(name) + "()"@
        },
        TypeModel::Vec(item) => if spec_is_bytes(ty) {
            "d.bytes()"@
        } else {
            "Array.from({ length: d.varint() }, () => "@ + spec_view_expr(*item, items) + ")"@
        },
        TypeModel::Mapping(key, value) => "Array.from({ length: d.varint() }, () => ({ key: "@
            + spec_view_expr(*key, items) + ", value: "@ + spec_view_expr(*value, items)
            + " }))"@,
    }
}

/// Appends the reader's name for a named type: the type's name in small
/// letters and, for a type with a view of its own, `_view`.
fn push_reader(out: &mut String, name: &String, schema: &Schema)
    ensures
        final(out)@ == old(out)@ + spec_lowercase(name@) + spec_view_suffix(schema@.items, name@),
{
    let lower = ascii_lowercase(name.as_str());
    out.append(lower.as_str());
    if typescript_named_view(name, schema) {
        push_literal(out, "_view");
    } else {
        assert(out@ =~= out@ + Seq::<char>::empty());
    }
}

pub(crate) fn typescript_decode_view_expression(ty: &Type, schema: &Schema, out: &mut String)
    ensures
        final(out)@ == old(out)@ + spec_view_expr(ty@, schema@.items),
    decreases ty,
{
    match ty {
        Type::FixedBytes(n) => {
            push_literal(out, "d.take(");
            let digits = number_text(*n as u64);
            out.append(digits.as_str());
            push_literal(out, ")");
        },
        Type::Optional(item) => {
            push_literal(
                out,
                "(()=>{const tag=d.u8();if(tag===0)return undefined;if(tag!==1)throw new Error('invalid optional marker');return ",
            );
            typescript_decode_view_expression(item, schema, out);
            push_literal(out, ";})()");
        },
        Type::Primitive(name) => {
            if text_is(name, "String") {
                push_literal(out, "d.bytes()");
            } else if is_named(schema, name) {
                push_literal(out, "read_");
                push_reader(out, name, schema);
                push_literal(out, "(d)");
            } else {
                push_literal(out, "d.");
                out.append(typescript_wire_method(name));
                push_literal(out, "()");
            }
        },
        Type::Vec(item) => {
            if is_bytes_type(ty) {
                push_literal(out, "d.bytes()");
            } else {
                push_literal(out, "Array.from({ length: d.varint() }, () => ");
                typescript_decode_view_expression(item, schema, out);
                push_literal(out, ")");
            }
        },
        Type::Mapping(key, value) => {
            push_literal(out, "Array.from({ length: d.varint() }, () => ({ key: ");
            typescript_decode_view_expression(key, schema, out);
            push_literal(out, ", value: ");
            typescript_decode_view_expression(value, schema, out);
            push_literal(out, " }))");
        },
    }
    assert(out@ =~= old(out)@ + spec_view_expr(ty@, schema@.items));
}

/// The statements that read a value of type `ty` into its view at `lhs`; a
/// map's keys are checked to be strictly increasing.
pub open spec fn spec_view_decode(ty: TypeModel, lhs: Seq<char>, items: Seq<ItemModel>) -> Seq<
    char,
>
    decreases ty,
{
    match ty {
        TypeModel::FixedBytes(n) => " "@ + lhs + " = d.take("@ + spec_number(n) + ");"@,
        TypeModel::Optional(item) => " { const tag = d.u8(); if (tag === 1) {"@ + spec_view_decode(
            *item,
            lhs,
            items,
        ) + " } else if (tag === 0) { "@ + lhs
            + " = undefined; } else throw new Error('invalid optional marker'); }"@,
        TypeModel::Primitive(name) => if name == "String"@ {
            " "@ + lhs + " = d.bytes();"@
        } else if spec_named(items, name) {
            " "@ + lhs + " = read_"@ + spec_lowercase(name) + spec_view_suffix(items, name)
                + "(d);"@
        } else {
            " "@ + lhs + " = d."@ + spec_wire_method(name) + "();"@
        },
        TypeModel::Vec(item) => if spec_is_bytes(ty) {
            " "@ + lhs + " = d.bytes();"@
        } else {
            " "@ + lhs + " = Array.from({ length: d.varint() }, () => "@ + spec_view_expr(
                *item,
                items,
            ) + ");"@
        },
        TypeModel::Mapping(key, value) => " { const count = d.varint(); let previousKey: "@
            + spec_view_type(*key, items) + " | undefined; "@ + lhs
            + " = Array.from({ length: count }, () => { const key = "@ + spec_view_expr(
            *key,
            items,
        ) + "; if (previousKey !== undefined && "@ + spec_key_compare(*key)
            + " >= 0) throw new Error('map keys are not strictly sorted'); previousKey = key; return { key, value: "@
            + spec_view_expr(*value, items) + " }; }); }"@,
    }
}

pub(crate) fn typescript_decode_view_type(ty: &Type, lhs: &str, schema: &Schema, out: &mut String)
    ensures
        final(out)@ == old(out)@ + spec_view_decode(ty@, lhs@, schema@.items),
    decreases ty,
{
    match ty {
        Type::FixedBytes(n) => {
            push_literal(out, " ");
            out.append(lhs);
            push_literal(out, " = d.take(");
            let digits = number_text(*n as u64);
            out.append(digits.as_str());
            push_literal(out, ");");
        },
        Type::Optional(item) => {
            push_literal(out, " { const tag = d.u8(); if (tag === 1) {");
            typescript_decode_view_type(item, lhs, schema, out);
            push_literal(out, " } else if (tag === 0) { ");
            out.append(lhs);
            push_literal(out, " = undefined; } else throw new Error('invalid optional marker'); }");
        },
        Type::Primitive(name) => {
            push_literal(out, " ");
            out.append(lhs);
            if text_is(name, "String") {
                push_literal(out, " = d.bytes();");
            } else if is_named(schema, name) {
                push_literal(out, " = read_");
                push_reader(out, name, schema);
                push_literal(out, "(d);");
            } else {
                push_literal(out, " = d.");
                out.append(typescript_wire_method(name));
                push_literal(out, "();");
            }
        },
        Type::Vec(item) => {
            push_literal(out, " ");
            out.append(lhs);
            if is_bytes_type(ty) {
                push_literal(out, " = d.bytes();");
            } else {
                push_literal(out, " = Array.from({ length: d.varint() }, () => ");
                typescript_decode_view_expression(item, schema, out);
                push_literal(out, ");");
            }
        },
        Type::Mapping(key, value) => {
            push_literal(out, " { const count = d.varint(); let previousKey: ");
            let key_type = typescript_view_type(key, schema);
            out.append(key_type.as_str());
            push_literal(out, " | undefined; ");
            out.append(lhs);
            push_literal(out, " = Array.from({ length: count }, () => { const key = ");
            typescript_decode_view_expression(key, schema, out);
            push_literal(out, "; if (previousKey !== undefined && ");
            out.append(key_compare(key));
            push_literal(
                out,
                " >= 0) throw new Error('map keys are not strictly sorted'); previousKey = key; return { key, value: ",
            );
            typescript_decode_view_expression(value, schema, out);
            push_literal(out, " }; }); }");
        },
    }
    assert(out@ =~= old(out)@ + spec_view_decode(ty@, lhs@, schema@.items));
}

// ---------------------------------------------------------------------------
// Reading lazy views
// ---------------------------------------------------------------------------

/// The expression that reads a value of type `ty` into its lazy view: a
/// struct with collections into its own lazy view over the packet.
pub open spec fn spec_lazy_expr(ty: TypeModel, items: Seq<ItemModel>) -> Seq<char>
    decreases ty,
{
    match ty {
        TypeModel::FixedBytes(n) => "d.take("@ + spec_number(n) + ")"@,
        TypeModel::Optional(item) => "(()=>{const tag=d.u8();if(tag===0)return undefined;if(tag!==1)throw new Error('invalid optional marker');return "@
            + spec_lazy_expr(*item, items) + ";})()"@,
        TypeModel::Primitive(name) => if name == "String"@ {
            "d.bytes()"@
        } else if spec_named(items, name) {
            if spec_has_lazy_view(items, name) {
                "read_"@ + spec_lowercase(name) + "_lazy_view(d, wire)"@
            } else {
                "read_"@ + spec_lowercase(name) + spec_view_suffix(items, name) + "(d)"@
            }
        } else {
            "d."@ + spec_wire_method(name) + "()"@
        },
        TypeModel::Vec(item) => if spec_is_bytes(ty) {
            "d.bytes()"@
        } else {
            "Array.from({ length: d.varint() }, () => "@ + spec_lazy_expr(*item, items) + ")"@
        },
        TypeModel::Mapping(key, value) => "Array.from({ length: d.varint() }, () => ({ key: "@
            + spec_lazy_expr(*key, items) + ", value: "@ + spec_lazy_expr(*value, items)
            + " }))"@,
    }
}

pub(crate) fn typescript_decode_lazy_expression(ty: &Type, schema: &Schema, out: &mut String)
    ensures
        final(out)@ == old(out)@ + spec_lazy_expr(ty@, schema@.items),
    decreases ty,
{
    match ty {
        Type::FixedBytes(n) => {
            push_literal(out, "d.take(");
            let digits = number_text(*n as u64);
            out.append(digits.as_str());
            push_literal(out, ")");
        },
        Type::Optional(item) => {
            push_literal(
                out,
                "(()=>{const tag=d.u8();if(tag===0)return undefined;if(tag!==1)throw new Error('invalid optional marker');return ",
            );
            typescript_decode_lazy_expression(item, schema, out);
            push_literal(out, ";})()");
        },
        Type::Primitive(name) => {
            if text_is(name, "String") {
                push_literal(out, "d.bytes()");
            } else if is_named(schema, name) {
                if typescript_has_lazy_view(name, schema) {
                    push_literal(out, "read_");
                    let lower = ascii_lowercase(name.as_str());
                    out.append(lower.as_str());
                    push_literal(out, "_lazy_view(d, wire)");
                } else {
                    push_literal(out, "read_");
                    push_reader(out, name, schema);
                    push_literal(out, "(d)");
                }
            } else {
                push_literal(out, "d.");
                out.append(typescript_wire_method(name));
                push_literal(out, "()");
            }
        },
        Type::Vec(item) => {
            if is_bytes_type(ty) {
                push_literal(out, "d.bytes()");
            } else {
                push_literal(out, "Array.from({ length: d.varint() }, () => ");
                typescript_decode_lazy_expression(item, schema, out);
                push_literal(out, ")");
            }
        },
        Type::Mapping(key, value) => {
            push_literal(out, "Array.from({ length: d.varint() }, () => ({ key: ");
            typescript_decode_lazy_expression(key, schema, out);
            push_literal(out, ", value: ");
            typescript_decode_lazy_expression(value, schema, out);
            push_literal(out, " }))");
        },
    }
    assert(out@ =~= old(out)@ + spec_lazy_expr(ty@, schema@.items));
}

/// The statements that read a field of type `ty` into a lazy view at `lhs`.
pub open spec fn spec_lazy_field(ty: TypeModel, lhs: Seq<char>, items: Seq<ItemModel>) -> Seq<
    char,
> {
    match ty {
        TypeModel::Primitive(name) => if spec_named(items, name) && spec_has_lazy_view(
            items,
            name,
        ) {
            " "@ + lhs + " = read_"@ + spec_lowercase(name) + "_lazy_view(d, wire);"@
        } else {
            spec_view_decode(ty, lhs, items)
        },
        _ => spec_view_decode(ty, lhs, items),
    }
}

pub(crate) fn typescript_decode_lazy_field_type(
    ty: &Type,
    lhs: &str,
    schema: &Schema,
    out: &mut String,
)
    ensures
        final(out)@ == old(out)@ + spec_lazy_field(ty@, lhs@, schema@.items),
{
    match ty {
        Type::Primitive(name) => {
            if is_named(schema, name) && typescript_has_lazy_view(name, schema) {
                push_literal(out, " ");
                out.append(lhs);
                push_literal(out, " = read_");
                let lower = ascii_lowercase(name.as_str());
                out.append(lower.as_str());
                push_literal(out, "_lazy_view(d, wire);");
                assert(out@ =~= old(out)@ + spec_lazy_field(ty@, lhs@, schema@.items));
                return;
            }
        },
        _ => {},
    }
    typescript_decode_view_type(ty, lhs, schema, out);
}

} // verus!
