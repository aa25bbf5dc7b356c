//! The Go statements that write a value to a wire encoder and read it back,
//! into an owned value, a view or a lazy view of the packet.

use vstd::prelude::*;
use vstd::string::StringExecFns;

use crate::ast::{Item, ItemModel, Schema, Type, TypeModel};
use crate::compatibility::{find_item, spec_find_item};
use crate::fingerprint::{push_literal, spec_number};
use crate::go_names::{
    go_lazy_view_type, go_type, go_view_type, go_wire_method, snake_case, spec_go_lazy_view_type,
    spec_go_type, spec_go_view_type, spec_go_wire_method, spec_snake_case,
};
use crate::text::{chars_of, push_char, text_is};
use crate::typescript_expr::spec_resolves;
use crate::typescript_types::{
    is_bytes_type, is_named, is_string_type, number_text, spec_has_lazy_view, spec_is_bytes,
    spec_is_string, spec_named, spec_named_view, typescript_has_lazy_view, typescript_named_view,
};

verus! {

// ---------------------------------------------------------------------------
// Writing and reading owned values
// ---------------------------------------------------------------------------

/// The check that an alias's value has its exact length, when written.
pub open spec fn spec_exact_panic(expr: Seq<char>, exact_len: Option<usize>) -> Seq<char> {
    match exact_len {
        Some(n) => "if len("@ + expr + ")!="@ + spec_number(n as nat)
            + "{panic(\"invalid exact length\")};"@,
        None => seq![],
    }
}

/// The check that an alias's value has its exact length, when read.
pub open spec fn spec_exact_error(lhs: Seq<char>, exact_len: Option<usize>) -> Seq<char> {
    match exact_len {
        Some(n) => "if len("@ + lhs + ")!="@ + spec_number(n as nat)
            + "{return v,fmt.Errorf(\"invalid exact length\")};"@,
        None => seq![],
    }
}

pub(crate) fn push_exact_panic(out: &mut String, expr: &str, exact_len: Option<usize>)
    ensures
        final(out)@ == old(out)@ + spec_exact_panic(expr@, exact_len),
{
    match exact_len {
        Some(n) => {
            push_literal(out, "if len(");
            out.append(expr);
            push_literal(out, ")!=");
            let digits = number_text(n as u64);
            out.append(digits.as_str());
            push_literal(out, "{panic(\"invalid exact length\")};");
        },
        None => {},
    }
    assert(out@ =~= old(out)@ + spec_exact_panic(expr@, exact_len));
}

pub(crate) fn push_exact_error(out: &mut String, lhs: &str, exact_len: Option<usize>)
    ensures
        final(out)@ == old(out)@ + spec_exact_error(lhs@, exact_len),
{
    match exact_len {
        Some(n) => {
            push_literal(out, "if len(");
            out.append(lhs);
            push_literal(out, ")!=");
            let digits = number_text(n as u64);
            out.append(digits.as_str());
            push_literal(out, "{return v,fmt.Errorf(\"invalid exact length\")};");
        },
        None => {},
    }
    assert(out@ =~= old(out)@ + spec_exact_error(lhs@, exact_len));
}

/// The statements that write the value `expr` of type `ty`.
pub open spec fn spec_go_encode(ty: TypeModel, expr: Seq<char>, items: Seq<ItemModel>, fuel: nat) -> Seq<
    char,
>
    decreases fuel, ty,
{
    match ty {
        TypeModel::FixedBytes(n) => "if len("@ + expr + ")!="@ + spec_number(n)
            + "{panic(\"invalid fixed bytes length\")};e.raw("@ + expr + "[:]);"@,
        TypeModel::Optional(item) => "if "@ + expr + "==nil{e.u8(0)}else{e.u8(1);"@
            + spec_go_encode(*item, "*("@ + expr + ")"@, items, fuel) + "};"@,
        TypeModel::Primitive(name) => match spec_find_item(items, name) {
            Some(ItemModel::Alias(a)) => if fuel == 0 {
                seq![]
            } else {
                spec_exact_panic(expr, a.exact_len) + spec_go_encode(
                    a.ty,
                    expr,
                    items,
                    (fuel - 1) as nat,
                )
            },
            Some(_) => "encode_"@ + spec_snake_case(name) + "(e,"@ + expr + ");"@,
            None => "e."@ + spec_go_wire_method(name) + "("@ + expr + ");"@,
        },
        TypeModel::Vec(item) => if spec_is_bytes(ty) {
            "e.bytes("@ + expr + ");"@
        } else {
            "e.varint(uint64(len("@ + expr + ")));for _,item:=range "@ + expr + "{"@
                + spec_go_encode(*item, "item"@, items, fuel) + "};"@
        },
        TypeModel::Mapping(_, value) => "keys:=make([]string,0,len("@ + expr + "));for k:=range "@
            + expr
            + "{keys=append(keys,k)};sort.Strings(keys);e.varint(uint64(len(keys)));for _,k:=range keys{e.string(k);"@
            + spec_go_encode(*value, expr + "[k]"@, items, fuel) + "};"@,
    }
}

pub(crate) fn go_encode_go_type(ty: &Type, expr: &str, schema: &Schema, fuel: usize, out: &mut String)
    requires
        spec_resolves(ty@, schema@.items, fuel as nat),
    ensures
        final(out)@ == old(out)@ + spec_go_encode(ty@, expr@, schema@.items, fuel as nat),
    decreases fuel, ty,
{
    let ghost items = schema@.items;
    match ty {
        Type::FixedBytes(n) => {
            push_literal(out, "if len(");
            out.append(expr);
            push_literal(out, ")!=");
            let digits = number_text(*n as u64);
            out.append(digits.as_str());
            push_literal(out, "{panic(\"invalid fixed bytes length\")};e.raw(");
            out.append(expr);
            push_literal(out, "[:]);");
        },
        Type::Optional(item) => {
            push_literal(out, "if ");
            out.append(expr);
            push_literal(out, "==nil{e.u8(0)}else{e.u8(1);");
            let mut inner = "*(".to_owned();
            inner.append(expr);
            push_literal(&mut inner, ")");
            go_encode_go_type(item, inner.as_str(), schema, fuel, out);
            push_literal(out, "};");
        },
        Type::Primitive(name) => {
            match find_item(&schema.items, name) {
                Some(Item::Alias(a)) => {
                    push_exact_panic(out, expr, a.exact_len);
                    go_encode_go_type(&a.ty, expr, schema, fuel - 1, out);
                },
                Some(_) => {
                    push_literal(out, "encode_");
                    let snake = snake_case(name.as_str());
                    out.append(snake.as_str());
                    push_literal(out, "(e,");
                    out.append(expr);
                    push_literal(out, ");");
                },
                None => {
                    push_literal(out, "e.");
                    out.append(go_wire_method(name));
                    push_literal(out, "(");
                    out.append(expr);
                    push_literal(out, ");");
                },
            }
        },
        Type::Vec(item) => {
            if is_bytes_type(ty) {
                push_literal(out, "e.bytes(");
                out.append(expr);
                push_literal(out, ");");
            } else {
                push_literal(out, "e.varint(uint64(len(");
                out.append(expr);
                push_literal(out, ")));for _,item:=range ");
                out.append(expr);
                push_literal(out, "{");
                go_encode_go_type(item, "item", schema, fuel, out);
                push_literal(out, "};");
            }
        },
        Type::Mapping(_, value) => {
            push_literal(out, "keys:=make([]string,0,len(");
            out.append(expr);
            push_literal(out, "));for k:=range ");
            out.append(expr);
            push_literal(
                out,
                "{keys=append(keys,k)};sort.Strings(keys);e.varint(uint64(len(keys)));for _,k:=range keys{e.string(k);",
            );
            let mut entry = expr.to_owned();
            push_literal(&mut entry, "[k]");
            go_encode_go_type(value, entry.as_str(), schema, fuel, out);
            push_literal(out, "};");
        },
    }
    assert(out@ =~= old(out)@ + spec_go_encode(ty@, expr@, items, fuel as nat));
}

/// `s` with only its ASCII letters and digits.
pub open spec fn spec_alphanumeric(s: Seq<char>) -> Seq<char>
    decreases s.len(),
{
    if s.len() == 0 {
        seq![]
    } else {
        let c = s.last();
        spec_alphanumeric(s.drop_last()) + if ('0' <= c && c <= '9') || ('a' <= c && c <= 'z') || (
        'A' <= c && c <= 'Z') {
            seq![c]
        } else {
            seq![]
        }
    }
}

fn alphanumeric(s: &str) -> (r: String)
    ensures
        r@ == spec_alphanumeric(s@),
{
    let chars = chars_of(s);
    let mut out = String::new();
    let mut i: usize = 0;
    while i < chars.len()
        invariant
            i <= chars@.len(),
            chars@ == s@,
            out@ == spec_alphanumeric(s@.take(i as int)),
        decreases chars@.len() - i,
    {
        let c = chars[i];
        assert(s@.take(i + 1).drop_last() =~= s@.take(i as int));
        if ('0' <= c && c <= '9') || ('a' <= c && c <= 'z') || ('A' <= c && c <= 'Z') {
            push_char(&mut out, c);
        }
        assert(out@ =~= spec_alphanumeric(s@.take(i + 1)));
        i = i + 1;
    }
    assert(s@.take(chars@.len() as int) =~= s@);
    out
}

/// How every collection read begins: its count, checked against the
/// limits.
pub open spec fn spec_count_head() -> Seq<char> {
    "{var n uint64;n,e=d.varint();if e!=nil{return v,e};var c int;c,e=count(n);if e!=nil{return v,e};"@
}

/// The statements that read a value of type `ty` into `lhs`.
pub open spec fn spec_go_decode(ty: TypeModel, lhs: Seq<char>, items: Seq<ItemModel>, fuel: nat) -> Seq<
    char,
>
    decreases fuel, ty,
{
    match ty {
        TypeModel::FixedBytes(n) => "tmp,e:=d.take("@ + spec_number(n) + ");if e!=nil{return v,e};copy("@
            + lhs + "[:],tmp);"@,
        TypeModel::Optional(item) => {
            let tag = "optionalTag"@ + spec_alphanumeric(lhs);
            tag + ",e:=d.u8();if e!=nil{return v,e};if "@ + tag + "==1{var x "@ + spec_go_type(
                *item,
                items,
            ) + ";"@ + spec_go_decode(*item, "x"@, items, fuel) + lhs + "=&x}else if "@ + tag
                + "!=0{return v,fmt.Errorf(\"invalid optional marker\")};"@
        },
        TypeModel::Primitive(name) => match spec_find_item(items, name) {
            Some(ItemModel::Alias(a)) => if fuel == 0 {
                seq![]
            } else {
                spec_go_decode(a.ty, lhs, items, (fuel - 1) as nat) + spec_exact_error(
                    lhs,
                    a.exact_len,
                )
            },
            Some(_) => lhs + ",e=decode_"@ + spec_snake_case(name) + "(d);if e!=nil{return v,e};"@,
            None => lhs + ",e=d."@ + spec_go_wire_method(name) + "();if e!=nil{return v,e};"@,
        },
        TypeModel::Vec(item) => if spec_is_bytes(ty) {
            lhs + ",e=d.bytes();if e!=nil{return v,e};"@
        } else {
            spec_count_head() + lhs + "=make([]"@ + spec_go_type(*item, items) + ",c);for i:=range "@
                + lhs + "{"@ + spec_go_decode(*item, lhs + "[i]"@, items, fuel) + "};};"@
        },
        TypeModel::Mapping(_, value) => spec_count_head() + lhs + "=make(map[string]"@ + spec_go_type(
            *value,
            items,
        ) + ",c);for i:=0;i<c;i++{k,e:=d.string();if e!=nil{return v,e};"@ + spec_go_decode(
            *value,
            lhs + "[k]"@,
            items,
            fuel,
        ) + "};};"@,
    }
}

pub(crate) fn push_count_head(out: &mut String)
    ensures
        final(out)@ == old(out)@ + spec_count_head(),
{
    push_literal(
        out,
        "{var n uint64;n,e=d.varint();if e!=nil{return v,e};var c int;c,e=count(n);if e!=nil{return v,e};",
    );
}

#[verifier::rlimit(40)]
pub(crate) fn go_decode_go_type(ty: &Type, lhs: &str, schema: &Schema, fuel: usize, out: &mut String)
    requires
        spec_resolves(ty@, schema@.items, fuel as nat),
    ensures
        final(out)@ == old(out)@ + spec_go_decode(ty@, lhs@, schema@.items, fuel as nat),
    decreases fuel, ty,
{
    let ghost items = schema@.items;
    match ty {
        Type::FixedBytes(n) => {
            push_literal(out, "tmp,e:=d.take(");
            let digits = number_text(*n as u64);
            out.append(digits.as_str());
            push_literal(out, ");if e!=nil{return v,e};copy(");
            out.append(lhs);
            push_literal(out, "[:],tmp);");
        },
        Type::Optional(item) => {
            let mut tag = "optionalTag".to_owned();
            let kept = alphanumeric(lhs);
            tag.append(kept.as_str());
            out.append(tag.as_str());
            push_literal(out, ",e:=d.u8();if e!=nil{return v,e};if ");
            out.append(tag.as_str());
            push_literal(out, "==1{var x ");
            let inner = go_type(item, schema);
            out.append(inner.as_str());
            push_literal(out, ";");
            go_decode_go_type(item, "x", schema, fuel, out);
            out.append(lhs);
            push_literal(out, "=&x}else if ");
            out.append(tag.as_str());
            push_literal(out, "!=0{return v,fmt.Errorf(\"invalid optional marker\")};");
        },
        Type::Primitive(name) => {
            match find_item(&schema.items, name) {
                Some(Item::Alias(a)) => {
                    go_decode_go_type(&a.ty, lhs, schema, fuel - 1, out);
                    push_exact_error(out, lhs, a.exact_len);
                },
                Some(_) => {
                    out.append(lhs);
                    push_literal(out, ",e=decode_");
                    let snake = snake_case(name.as_str());
                    out.append(snake.as_str());
                    push_literal(out, "(d);if e!=nil{return v,e};");
                },
                None => {
                    out.append(lhs);
                    push_literal(out, ",e=d.");
                    out.append(go_wire_method(name));
                    push_literal(out, "();if e!=nil{return v,e};");
                },
            }
        },
        Type::Vec(item) => {
            if is_bytes_type(ty) {
                out.append(lhs);
                push_literal(out, ",e=d.bytes();if e!=nil{return v,e};");
            } else {
                push_count_head(out);
                out.append(lhs);
                push_literal(out, "=make([]");
                let inner = go_type(item, schema);
                out.append(inner.as_str());
                push_literal(out, ",c);for i:=range ");
                out.append(lhs);
                push_literal(out, "{");
                let mut slot = lhs.to_owned();
                push_literal(&mut slot, "[i]");
                go_decode_go_type(item, slot.as_str(), schema, fuel, out);
                push_literal(out, "};};");
            }
        },
        Type::Mapping(_, value) => {
            push_count_head(out);
            out.append(lhs);
            push_literal(out, "=make(map[string]");
            let inner = go_type(value, schema);
            out.append(inner.as_str());
            push_literal(out, ",c);for i:=0;i<c;i++{k,e:=d.string();if e!=nil{return v,e};");
            let mut slot = lhs.to_owned();
            push_literal(&mut slot, "[k]");
            go_decode_go_type(value, slot.as_str(), schema, fuel, out);
            push_literal(out, "};};");
        },
    }
    assert(out@ =~= old(out)@ + spec_go_decode(ty@, lhs@, items, fuel as nat));
}

// ---------------------------------------------------------------------------
// Reading views and lazy views
// ---------------------------------------------------------------------------

/// The check that a map's keys increase strictly, at key `key`.
pub open spec fn spec_go_key_check(key_ty: TypeModel, key: Seq<char>) -> Seq<char> {
    if spec_is_string(key_ty) || spec_is_bytes(key_ty) {
        "if i>0&&wireBytesCompare(previousKey,"@ + key
            + ")>=0{return v,fmt.Errorf(\"map keys are not strictly sorted\")};previousKey="@ + key
            + ";"@
    } else {
        "if i>0&&previousKey>="@ + key
            + "{return v,fmt.Errorf(\"map keys are not strictly sorted\")};previousKey="@ + key + ";"@
    }
}

fn push_key_check(out: &mut String, key_ty: &Type, key: &str)
    ensures
        final(out)@ == old(out)@ + spec_go_key_check(key_ty@, key@),
{
    if is_string_type(key_ty) || is_bytes_type(key_ty) {
        push_literal(out, "if i>0&&wireBytesCompare(previousKey,");
        out.append(key);
        push_literal(out, ")>=0{return v,fmt.Errorf(\"map keys are not strictly sorted\")};previousKey=");
        out.append(key);
        push_literal(out, ";");
    } else {
        push_literal(out, "if i>0&&previousKey>=");
        out.append(key);
        push_literal(out, "{return v,fmt.Errorf(\"map keys are not strictly sorted\")};previousKey=");
        out.append(key);
        push_literal(out, ";");
    }
    assert(out@ =~= old(out)@ + spec_go_key_check(key_ty@, key@));
}

/// The statements that read a value of type `ty` into its view at `lhs`.
pub open spec fn spec_go_view_decode(ty: TypeModel, lhs: Seq<char>, items: Seq<ItemModel>) -> Seq<char>
    decreases ty,
{
    match ty {
        TypeModel::FixedBytes(n) => lhs + ",e=d.take("@ + spec_number(n) + ");if e!=nil{return v,e};"@,
        TypeModel::Optional(item) => "{tag,e:=d.u8();if e!=nil{return v,e};if tag==1{var x "@
            + spec_go_view_type(*item, items) + ";"@ + spec_go_view_decode(*item, "x"@, items) + lhs
            + "=&x}else if tag!=0{return v,fmt.Errorf(\"invalid optional marker\")}};"@,
        TypeModel::Primitive(name) => if name == "String"@ {
            lhs + ",e=d.bytes();if e!=nil{return v,e};"@
        } else if spec_named(items, name) {
            if spec_named_view(items, name) {
                lhs + ",e=read"@ + name + "View(d);if e!=nil{return v,e};"@
            } else {
                lhs + ",e=decode_"@ + spec_snake_case(name) + "(d);if e!=nil{return v,e};"@
            }
        } else {
            lhs + ",e=d."@ + spec_go_wire_method(name) + "();if e!=nil{return v,e};"@
        },
        TypeModel::Vec(item) => if spec_is_bytes(ty) {
            lhs + ",e=d.bytes();if e!=nil{return v,e};"@
        } else {
            spec_count_head() + lhs + "=make("@ + spec_go_view_type(ty, items) + ",c);for i:=range "@
                + lhs + "{"@ + spec_go_view_decode(*item, lhs + "[i]"@, items) + "}};"@
        },
        TypeModel::Mapping(key, value) => spec_count_head() + lhs + "=make("@ + spec_go_view_type(
            ty,
            items,
        ) + ",c);var previousKey "@ + spec_go_view_type(*key, items) + ";for i:=range "@ + lhs
            + "{"@ + spec_go_view_decode(*key, lhs + "[i].Key"@, items) + spec_go_key_check(
            *key,
            lhs + "[i].Key"@,
        ) + spec_go_view_decode(*value, lhs + "[i].Value"@, items) + "}};"@,
    }
}

#[verifier::rlimit(40)]
pub(crate) fn go_decode_view_type(ty: &Type, lhs: &str, schema: &Schema, out: &mut String)
    ensures
        final(out)@ == old(out)@ + spec_go_view_decode(ty@, lhs@, schema@.items),
    decreases ty,
{
    let ghost items = schema@.items;
    match ty {
        Type::FixedBytes(n) => {
            out.append(lhs);
            push_literal(out, ",e=d.take(");
            let digits = number_text(*n as u64);
            out.append(digits.as_str());
            push_literal(out, ");if e!=nil{return v,e};");
        },
        Type::Optional(item) => {
            push_literal(out, "{tag,e:=d.u8();if e!=nil{return v,e};if tag==1{var x ");
            let inner = go_view_type(item, schema);
            out.append(inner.as_str());
            push_literal(out, ";");
            go_decode_view_type(item, "x", schema, out);
            out.append(lhs);
            push_literal(out, "=&x}else if tag!=0{return v,fmt.Errorf(\"invalid optional marker\")}};");
        },
        Type::Primitive(name) => {
            if text_is(name, "String") {
                out.append(lhs);
                push_literal(out, ",e=d.bytes();if e!=nil{return v,e};");
            } else if is_named(schema, name) {
                if typescript_named_view(name, schema) {
                    out.append(lhs);
                    push_literal(out, ",e=read");
                    out.append(name.as_str());
                    push_literal(out, "View(d);if e!=nil{return v,e};");
                } else {
                    out.append(lhs);
                    push_literal(out, ",e=decode_");
                    let snake = snake_case(name.as_str());
                    out.append(snake.as_str());
                    push_literal(out, "(d);if e!=nil{return v,e};");
                }
            } else {
                out.append(lhs);
                push_literal(out, ",e=d.");
                out.append(go_wire_method(name));
                push_literal(out, "();if e!=nil{return v,e};");
            }
        },
        Type::Vec(item) => {
            if is_bytes_type(ty) {
                out.append(lhs);
                push_literal(out, ",e=d.bytes();if e!=nil{return v,e};");
            } else {
                push_count_head(out);
                out.append(lhs);
                push_literal(out, "=make(");
                let whole = go_view_type(ty, schema);
                out.append(whole.as_str());
                push_literal(out, ",c);for i:=range ");
                out.append(lhs);
                push_literal(out, "{");
                let mut slot = lhs.to_owned();
                push_literal(&mut slot, "[i]");
                go_decode_view_type(item, slot.as_str(), schema, out);
                push_literal(out, "}};");
            }
        },
        Type::Mapping(key, value) => {
            push_count_head(out);
            out.append(lhs);
            push_literal(out, "=make(");
            let whole = go_view_type(ty, schema);
            out.append(whole.as_str());
            push_literal(out, ",c);var previousKey ");
            let key_type = go_view_type(key, schema);
            out.append(key_type.as_str());
            push_literal(out, ";for i:=range ");
            out.append(lhs);
            push_literal(out, "{");
            let mut key_slot = lhs.to_owned();
            push_literal(&mut key_slot, "[i].Key");
            go_decode_view_type(key, key_slot.as_str(), schema, out);
            push_key_check(out, key, key_slot.as_str());
            let mut value_slot = lhs.to_owned();
            push_literal(&mut value_slot, "[i].Value");
            go_decode_view_type(value, value_slot.as_str(), schema, out);
            push_literal(out, "}};");
        },
    }
    assert(out@ =~= old(out)@ + spec_go_view_decode(ty@, lhs@, items));
}

/// The statements that read a value of type `ty` into its lazy view at
/// `lhs`.
pub open spec fn spec_go_lazy_decode(ty: TypeModel, lhs: Seq<char>, items: Seq<ItemModel>) -> Seq<char>
    decreases ty,
{
    match ty {
        TypeModel::FixedBytes(n) => lhs + ",e=d.take("@ + spec_number(n) + ");if e!=nil{return v,e};"@,
        TypeModel::Optional(item) => "{tag,e:=d.u8();if e!=nil{return v,e};if tag==1{var x "@
            + spec_go_lazy_view_type(*item, items) + ";"@ + spec_go_lazy_decode(*item, "x"@, items)
            + lhs + "=&x}else if tag!=0{return v,fmt.Errorf(\"invalid optional marker\")}};"@,
        TypeModel::Primitive(name) => if name == "String"@ {
            lhs + ",e=d.bytes();if e!=nil{return v,e};"@
        } else if spec_named(items, name) {
            if spec_has_lazy_view(items, name) {
                lhs + ",e=read"@ + name + "LazyView(d);if e!=nil{return v,e};"@
            } else if spec_named_view(items, name) {
                lhs + ",e=read"@ + name + "View(d);if e!=nil{return v,e};"@
            } else {
                lhs + ",e=decode_"@ + spec_snake_case(name) + "(d);if e!=nil{return v,e};"@
            }
        } else {
            lhs + ",e=d."@ + spec_go_wire_method(name) + "();if e!=nil{return v,e};"@
        },
        TypeModel::Vec(item) => if spec_is_bytes(ty) {
            lhs + ",e=d.bytes();if e!=nil{return v,e};"@
        } else {
            spec_count_head() + lhs + "=make("@ + spec_go_lazy_view_type(ty, items)
                + ",c);for i:=range "@ + lhs + "{"@ + spec_go_lazy_decode(*item, lhs + "[i]"@, items)
                + "}};"@
        },
        TypeModel::Mapping(key, value) => spec_count_head() + lhs + "=make("@
            + spec_go_lazy_view_type(ty, items) + ",c);for i:=range "@ + lhs + "{"@
            + spec_go_lazy_decode(*key, lhs + "[i].Key"@, items) + spec_go_lazy_decode(
            *value,
            lhs + "[i].Value"@,
            items,
        ) + "}};"@,
    }
}

#[verifier::rlimit(40)]
pub(crate) fn go_decode_lazy_view_type(ty: &Type, lhs: &str, schema: &Schema, out: &mut String)
    ensures
        final(out)@ == old(out)@ + spec_go_lazy_decode(ty@, lhs@, schema@.items),
    decreases ty,
{
    let ghost items = schema@.items;
    match ty {
        Type::FixedBytes(n) => {
            out.append(lhs);
            push_literal(out, ",e=d.take(");
            let digits = number_text(*n as u64);
            out.append(digits.as_str());
            push_literal(out, ");if e!=nil{return v,e};");
        },
        Type::Optional(item) => {
            push_literal(out, "{tag,e:=d.u8();if e!=nil{return v,e};if tag==1{var x ");
            let inner = go_lazy_view_type(item, schema);
            out.append(inner.as_str());
            push_literal(out, ";");
            go_decode_lazy_view_type(item, "x", schema, out);
            out.append(lhs);
            push_literal(out, "=&x}else if tag!=0{return v,fmt.Errorf(\"invalid optional marker\")}};");
        },
        Type::Primitive(name) => {
            if text_is(name, "String") {
                out.append(lhs);
                push_literal(out, ",e=d.bytes();if e!=nil{return v,e};");
            } else if is_named(schema, name) {
                if typescript_has_lazy_view(name, schema) {
                    out.append(lhs);
                    push_literal(out, ",e=read");
                    out.append(name.as_str());
                    push_literal(out, "LazyView(d);if e!=nil{return v,e};");
                } else if typescript_named_view(name, schema) {
                    out.append(lhs);
                    push_literal(out, ",e=read");
                    out.append(name.as_str());
                    push_literal(out, "View(d);if e!=nil{return v,e};");
                } else {
                    out.append(lhs);
                    push_literal(out, ",e=decode_");
                    let snake = snake_case(name.as_str());
                    out.append(snake.as_str());
                    push_literal(out, "(d);if e!=nil{return v,e};");
                }
            } else {
                out.append(lhs);
                push_literal(out, ",e=d.");
                out.append(go_wire_method(name));
                push_literal(out, "();if e!=nil{return v,e};");
            }
        },
        Type::Vec(item) => {
            if is_bytes_type(ty) {
                out.append(lhs);
                push_literal(out, ",e=d.bytes();if e!=nil{return v,e};");
            } else {
                push_count_head(out);
                out.append(lhs);
                push_literal(out, "=make(");
                let whole = go_lazy_view_type(ty, schema);
                out.append(whole.as_str());
                push_literal(out, ",c);for i:=range ");
                out.append(lhs);
                push_literal(out, "{");
                let mut slot = lhs.to_owned();
                push_literal(&mut slot, "[i]");
                go_decode_lazy_view_type(item, slot.as_str(), schema, out);
                push_literal(out, "}};");
            }
        },
        Type::Mapping(key, value) => {
            push_count_head(out);
            out.append(lhs);
            push_literal(out, "=make(");
            let whole = go_lazy_view_type(ty, schema);
            out.append(whole.as_str());
            push_literal(out, ",c);for i:=range ");
            out.append(lhs);
            push_literal(out, "{");
            let mut key_slot = lhs.to_owned();
            push_literal(&mut key_slot, "[i].Key");
            go_decode_lazy_view_type(key, key_slot.as_str(), schema, out);
            let mut value_slot = lhs.to_owned();
            push_literal(&mut value_slot, "[i].Value");
            go_decode_lazy_view_type(value, value_slot.as_str(), schema, out);
            push_literal(out, "}};");
        },
    }
    assert(out@ =~= old(out)@ + spec_go_lazy_decode(ty@, lhs@, items));
}

} // verus!
