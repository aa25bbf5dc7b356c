//! The Go declarations of a schema's items: their types, and the functions
//! that write and read their owned values.

use vstd::prelude::*;
use vstd::string::StringExecFns;

use crate::ast::{
    Alias, AliasModel, Enum, EnumModel, EnumVariant, Field, FieldModel, Flags, FlagsModel,
    ItemModel, Schema, Struct, StructModel, VariantModel,
};
use crate::fingerprint::{constructor_cid_with_schema, push_literal, spec_number};
use crate::go_expr::{
    go_decode_go_type, go_encode_go_type, push_exact_error, push_exact_panic, spec_exact_error,
    spec_exact_panic, spec_go_decode, spec_go_encode,
};
use crate::go_names::{
    cid_bytes, go_primitive, go_type, go_wire_method, pascal_case, snake_case,
    spec_cid_bytes, spec_go_primitive, spec_go_type, spec_go_wire_method,
    spec_pascal_case, spec_snake_case,
};
use crate::typescript::{
    spec_guard_bit, spec_guard_groups, ts_guard_bit, ts_guard_groups,
    group_index, lemma_concat_step, lemma_join_step, owns_group, spec_concat, spec_fields_resolve,
    spec_group_index, spec_group_view, spec_join, spec_owns_group, spec_split_guard,
    spec_struct_cid, spec_unit_value, spec_variant_cid, split_guard, variant_cid_text, GuardGroup,
};
use crate::typescript_types::number_text;

verus! {

// ---------------------------------------------------------------------------
// Aliases, flags and integer enums
// ---------------------------------------------------------------------------

/// An alias's Go type and its writer and reader, which check its exact
/// length where it has one.
pub open spec fn spec_go_alias(a: AliasModel, items: Seq<ItemModel>, fuel: nat) -> Seq<char> {
    let f = spec_snake_case(a.name);
    "type "@ + a.name + " = "@ + spec_go_type(a.ty, items) + ";\nfunc encode_"@ + f
        + "(e *wireEncoder,v "@ + a.name + ") {"@ + spec_exact_panic("v"@, a.exact_len)
        + spec_go_encode(a.ty, "v"@, items, fuel) + "}\nfunc decode_"@ + f + "(d *wireDecoder) ("@
        + a.name + ",error) { var v "@ + a.name + "; var e error; "@ + spec_go_decode(
        a.ty,
        "v"@,
        items,
        fuel,
    ) + spec_exact_error("v"@, a.exact_len) + " return v,e }\n"@
}

pub(crate) fn go_alias(a: &Alias, schema: &Schema, fuel: usize) -> (r: String)
    requires
        crate::typescript_expr::spec_resolves(a@.ty, schema@.items, fuel as nat),
    ensures
        r@ == spec_go_alias(a@, schema@.items, fuel as nat),
{
    let f = snake_case(a.name.as_str());
    let mut out = "type ".to_owned();
    out.append(a.name.as_str());
    push_literal(&mut out, " = ");
    let ty = go_type(&a.ty, schema);
    out.append(ty.as_str());
    push_literal(&mut out, ";\nfunc encode_");
    out.append(f.as_str());
    push_literal(&mut out, "(e *wireEncoder,v ");
    out.append(a.name.as_str());
    push_literal(&mut out, ") {");
    push_exact_panic(&mut out, "v", a.exact_len);
    go_encode_go_type(&a.ty, "v", schema, fuel, &mut out);
    push_literal(&mut out, "}\nfunc decode_");
    out.append(f.as_str());
    push_literal(&mut out, "(d *wireDecoder) (");
    out.append(a.name.as_str());
    push_literal(&mut out, ",error) { var v ");
    out.append(a.name.as_str());
    push_literal(&mut out, "; var e error; ");
    go_decode_go_type(&a.ty, "v", schema, fuel, &mut out);
    push_exact_error(&mut out, "v", a.exact_len);
    push_literal(&mut out, " return v,e }\n");
    assert(out@ =~= spec_go_alias(a@, schema@.items, fuel as nat));
    out
}

/// A flags type: its underlying integer, written and read as such.
pub open spec fn spec_go_flags(f: FlagsModel) -> Seq<char> {
    let n = spec_snake_case(f.name);
    let prim = spec_go_primitive(f.underlying);
    let wire = spec_go_wire_method(f.underlying);
    "type "@ + f.name + " "@ + prim + "\nfunc encode_"@ + n + "(e *wireEncoder,v "@ + f.name
        + ") { e."@ + wire + "("@ + prim + "(v)) }\nfunc decode_"@ + n
        + "(d *wireDecoder) ("@ + f.name + ",error) { v,e:=d."@ + wire + "();return "@ + f.name
        + "(v),e }\n"@
}

pub(crate) fn go_flags(f: &Flags) -> (r: String)
    ensures
        r@ == spec_go_flags(f@),
{
    let n = snake_case(f.name.as_str());
    let prim = go_primitive(&f.underlying);
    let wire = go_wire_method(&f.underlying);
    let mut out = "type ".to_owned();
    out.append(f.name.as_str());
    push_literal(&mut out, " ");
    out.append(prim);
    push_literal(&mut out, "\nfunc encode_");
    out.append(n.as_str());
    push_literal(&mut out, "(e *wireEncoder,v ");
    out.append(f.name.as_str());
    push_literal(&mut out, ") { e.");
    out.append(wire);
    push_literal(&mut out, "(");
    out.append(prim);
    push_literal(&mut out, "(v)) }\nfunc decode_");
    out.append(n.as_str());
    push_literal(&mut out, "(d *wireDecoder) (");
    out.append(f.name.as_str());
    push_literal(&mut out, ",error) { v,e:=d.");
    out.append(wire);
    push_literal(&mut out, "();return ");
    out.append(f.name.as_str());
    push_literal(&mut out, "(v),e }\n");
    assert(out@ =~= spec_go_flags(f@));
    out
}

/// A unit variant's case in an integer enum's writer.
pub open spec fn spec_unit_write(v: VariantModel) -> Seq<char> {
    "case \""@ + v.name + "\": e.u64("@ + spec_number(spec_unit_value(v) as nat) + ");"@
}

/// A unit variant's case in an integer enum's reader.
pub open spec fn spec_unit_read(v: VariantModel) -> Seq<char> {
    "case "@ + spec_number(spec_unit_value(v) as nat) + ":return \""@ + v.name + "\",nil;"@
}

/// An enum whose variants have no fields: a string type, each variant
/// written as its value.
pub open spec fn spec_go_unit_enum(e: EnumModel) -> Seq<char> {
    let n = spec_snake_case(e.name);
    "type "@ + e.name + " string\nfunc encode_"@ + n + "(e *wireEncoder,v "@ + e.name
        + ") { switch v {"@ + spec_concat(e.variants.map_values(|v: VariantModel| spec_unit_write(v)))
        + "} }\nfunc decode_"@ + n + "(d *wireDecoder) ("@ + e.name
        + ",error) { v,e:=d.u64();if e!=nil{return \"\",e};switch v {"@ + spec_concat(
        e.variants.map_values(|v: VariantModel| spec_unit_read(v)),
    ) + "};return \"\",fmt.Errorf(\"invalid "@ + e.name + "\") }\n"@
}

pub(crate) fn go_unit_enum(e: &Enum) -> (r: String)
    ensures
        r@ == spec_go_unit_enum(e@),
{
    let n = snake_case(e.name.as_str());
    let ghost writes = e@.variants.map_values(|v: VariantModel| spec_unit_write(v));
    let ghost reads = e@.variants.map_values(|v: VariantModel| spec_unit_read(v));
    let mut out = "type ".to_owned();
    out.append(e.name.as_str());
    push_literal(&mut out, " string\nfunc encode_");
    out.append(n.as_str());
    push_literal(&mut out, "(e *wireEncoder,v ");
    out.append(e.name.as_str());
    push_literal(&mut out, ") { switch v {");
    let ghost head = out@;
    let mut i: usize = 0;
    while i < e.variants.len()
        invariant
            i <= e.variants@.len() == writes.len(),
            writes == e@.variants.map_values(|v: VariantModel| spec_unit_write(v)),
            out@ == head + spec_concat(writes.take(i as int)),
        decreases e.variants@.len() - i,
    {
        proof {
            lemma_concat_step(writes, i as int);
            assert(e@.variants[i as int] == e.variants@[i as int]@);
        }
        let v = &e.variants[i];
        let value: u64 = match v.value {
            Some(x) => x,
            None => 0,
        };
        push_literal(&mut out, "case \"");
        out.append(v.name.as_str());
        push_literal(&mut out, "\": e.u64(");
        let digits = number_text(value);
        out.append(digits.as_str());
        push_literal(&mut out, ");");
        assert(out@ =~= head + spec_concat(writes.take(i + 1)));
        i = i + 1;
    }
    assert(writes.take(e.variants@.len() as int) =~= writes);
    push_literal(&mut out, "} }\nfunc decode_");
    out.append(n.as_str());
    push_literal(&mut out, "(d *wireDecoder) (");
    out.append(e.name.as_str());
    push_literal(&mut out, ",error) { v,e:=d.u64();if e!=nil{return \"\",e};switch v {");
    let ghost head2 = out@;
    let mut i: usize = 0;
    while i < e.variants.len()
        invariant
            i <= e.variants@.len() == reads.len(),
            reads == e@.variants.map_values(|v: VariantModel| spec_unit_read(v)),
            out@ == head2 + spec_concat(reads.take(i as int)),
        decreases e.variants@.len() - i,
    {
        proof {
            lemma_concat_step(reads, i as int);
            assert(e@.variants[i as int] == e.variants@[i as int]@);
        }
        let v = &e.variants[i];
        let value: u64 = match v.value {
            Some(x) => x,
            None => 0,
        };
        push_literal(&mut out, "case ");
        let digits = number_text(value);
        out.append(digits.as_str());
        push_literal(&mut out, ":return \"");
        out.append(v.name.as_str());
        push_literal(&mut out, "\",nil;");
        assert(out@ =~= head2 + spec_concat(reads.take(i + 1)));
        i = i + 1;
    }
    assert(reads.take(e.variants@.len() as int) =~= reads);
    push_literal(&mut out, "};return \"\",fmt.Errorf(\"invalid ");
    out.append(e.name.as_str());
    push_literal(&mut out, "\") }\n");
    assert(out@ =~= spec_go_unit_enum(e@));
    out
}

/// The functions that every item has: writing and reading a whole packet,
/// and validating one through the native bridge.
pub open spec fn spec_go_packet_functions(name: Seq<char>, layer: u16) -> Seq<char> {
    let f = spec_snake_case(name);
    "func Encode"@ + name + "(v "@ + name + ")([]byte,error){e:=wireEncoder{};encode_"@ + f
        + "(&e,v);return e.finish()}\nfunc Decode"@ + name + "(b []byte)("@ + name
        + ",error){d:=wireDecoder{b:b};v,e:=decode_"@ + f
        + "(&d);if e==nil{e=d.done()};return v,e}\nfunc Validate"@ + name
        + "(b []byte)error{if C.typikon_"@ + spec_number(layer as nat) + "_"@ + f
        + "_validate_borrowed(bridgePtr(b),C.size_t(len(b)))!=0{return fmt.Errorf(\"invalid "@
        + name + " wire\")};return nil}\n\n"@
}

pub(crate) fn go_packet_functions(name: &String, layer: u16) -> (r: String)
    ensures
        r@ == spec_go_packet_functions(name@, layer),
{
    let f = snake_case(name.as_str());
    let digits = number_text(layer as u64);
    let mut out = "func Encode".to_owned();
    out.append(name.as_str());
    push_literal(&mut out, "(v ");
    out.append(name.as_str());
    push_literal(&mut out, ")([]byte,error){e:=wireEncoder{};encode_");
    out.append(f.as_str());
    push_literal(&mut out, "(&e,v);return e.finish()}\nfunc Decode");
    out.append(name.as_str());
    push_literal(&mut out, "(b []byte)(");
    out.append(name.as_str());
    push_literal(&mut out, ",error){d:=wireDecoder{b:b};v,e:=decode_");
    out.append(f.as_str());
    push_literal(&mut out, "(&d);if e==nil{e=d.done()};return v,e}\nfunc Validate");
    out.append(name.as_str());
    push_literal(&mut out, "(b []byte)error{if C.typikon_");
    out.append(digits.as_str());
    push_literal(&mut out, "_");
    out.append(f.as_str());
    push_literal(
        &mut out,
        "_validate_borrowed(bridgePtr(b),C.size_t(len(b)))!=0{return fmt.Errorf(\"invalid ",
    );
    out.append(name.as_str());
    push_literal(&mut out, " wire\")};return nil}\n\n");
    assert(out@ =~= spec_go_packet_functions(name@, layer));
    out
}

// ---------------------------------------------------------------------------
// Structs
// ---------------------------------------------------------------------------

/// The first field of `fields` called `name`.
pub open spec fn spec_first_field(fields: Seq<FieldModel>, name: Seq<char>) -> Option<FieldModel>
    decreases fields.len(),
{
    if fields.len() == 0 {
        None
    } else if fields[0].name == name {
        Some(fields[0])
    } else {
        spec_first_field(fields.drop_first(), name)
    }
}

/// The Go type of a guard's owner: the type of the field of that name, or
/// else the owner's name.
pub open spec fn spec_owner_type(fields: Seq<FieldModel>, owner: Seq<char>, items: Seq<ItemModel>) -> Seq<
    char,
> {
    match spec_first_field(fields, owner) {
        Some(f) => spec_go_type(f.ty, items),
        None => owner,
    }
}

fn owner_type(item: &Struct, owner: &String, schema: &Schema) -> (r: String)
    ensures
        r@ == spec_owner_type(item@.fields, owner@, schema@.items),
{
    let ghost fields = item@.fields;
    let mut i: usize = 0;
    assert(fields.skip(0) =~= fields);
    while i < item.fields.len()
        invariant
            i <= item.fields@.len() == fields.len(),
            fields == item@.fields,
            spec_first_field(fields, owner@) == spec_first_field(fields.skip(i as int), owner@),
        decreases item.fields@.len() - i,
    {
        assert(fields.skip(i as int).drop_first() =~= fields.skip(i + 1));
        assert(fields.skip(i as int)[0] == item.fields@[i as int]@);
        if item.fields[i].name == *owner {
            return go_type(&item.fields[i].ty, schema);
        }
        i = i + 1;
    }
    assert(fields.skip(i as int) =~= Seq::<FieldModel>::empty());
    owner.clone()
}

/// The variable that holds a guard owner's value as the writer sets it.
pub open spec fn spec_effective(owner: Seq<char>) -> Seq<char> {
    "__typikon_effective_"@ + spec_pascal_case(owner)
}

fn effective(owner: &String) -> (r: String)
    ensures
        r@ == spec_effective(owner@),
{
    let mut out = "__typikon_effective_".to_owned();
    let pascal = pascal_case(owner.as_str());
    out.append(pascal.as_str());
    out
}

/// How the writer sets a guard's bit: from whether any field it guards is
/// present, declaring the owner's effective value the first time.
pub open spec fn spec_go_group(
    groups: Seq<(Seq<char>, u64, Seq<Seq<char>>)>,
    k: int,
    fields: Seq<FieldModel>,
    items: Seq<ItemModel>,
) -> Seq<char> {
    let owner = groups[k].0;
    let eff = spec_effective(owner);
    let ty = spec_owner_type(fields, owner, items);
    let bit = spec_number(groups[k].1 as nat);
    let declaration = if exists|j: int| 0 <= j < k && (#[trigger] groups[j]).0 == owner {
        seq![]
    } else {
        eff + ":=v."@ + spec_pascal_case(owner) + ";"@
    };
    declaration + spec_group_tail(groups[k].2, eff, ty, bit)
}

/// Some group before the `k`th has the same owner.
fn owner_declared(groups: &Vec<GuardGroup>, k: usize) -> (r: bool)
    requires
        k < groups@.len(),
    ensures
        r == exists|i: int| 0 <= i < k && (#[trigger] groups@[i]).0@ == groups@[k as int].0@,
{
    let owner = &groups[k].0;
    let mut declared = false;
    let mut j: usize = 0;
    while j < k
        invariant
            j <= k < groups@.len(),
            owner@ == groups@[k as int].0@,
            declared == exists|i: int| 0 <= i < j && (#[trigger] groups@[i]).0@ == owner@,
        decreases k - j,
    {
        if groups[j].0 == *owner {
            declared = true;
        }
        j = j + 1;
    }
    declared
}

/// The test that some field of a group is present.
pub open spec fn spec_present(names: Seq<Seq<char>>) -> Seq<char> {
    spec_join(names.map_values(|n: Seq<char>| "v."@ + spec_pascal_case(n) + "!=nil"@), "||"@)
}

fn push_present(out: &mut String, names: &Vec<String>)
    ensures
        final(out)@ == old(out)@ + spec_present(names@.map_values(|s: String| s@)),
{
    let ghost parts = names@.map_values(|s: String| s@).map_values(
        |n: Seq<char>| "v."@ + spec_pascal_case(n) + "!=nil"@,
    );
    let ghost head = out@;
    let mut i: usize = 0;
    while i < names.len()
        invariant
            i <= names@.len() == parts.len(),
            parts == names@.map_values(|s: String| s@).map_values(
                |n: Seq<char>| "v."@ + spec_pascal_case(n) + "!=nil"@,
            ),
            out@ == head + spec_join(parts.take(i as int), "||"@),
        decreases names@.len() - i,
    {
        proof {
            lemma_join_step(parts, "||"@, i as int);
        }
        if i > 0 {
            push_literal(out, "||");
        }
        push_literal(out, "v.");
        let pascal = pascal_case(names[i].as_str());
        out.append(pascal.as_str());
        push_literal(out, "!=nil");
        assert(out@ =~= head + spec_join(parts.take(i + 1), "||"@));
        i = i + 1;
    }
    assert(parts.take(names@.len() as int) =~= parts);
}

/// The text of a group's statements, from its parts.
proof fn lemma_go_group_parts(
    view: Seq<(Seq<char>, u64, Seq<Seq<char>>)>,
    k: int,
    fields: Seq<FieldModel>,
    items: Seq<ItemModel>,
    declared: bool,
    eff: Seq<char>,
    ty: Seq<char>,
    digits: Seq<char>,
)
    requires
        0 <= k < view.len(),
        declared == exists|i: int| 0 <= i < k && (#[trigger] view[i]).0 == view[k].0,
        eff == spec_effective(view[k].0),
        ty == spec_owner_type(fields, view[k].0, items),
        digits == spec_number(view[k].1 as nat),
    ensures
        spec_go_group(view, k, fields, items) == (if declared {
            Seq::<char>::empty()
        } else {
            eff + ":=v."@ + spec_pascal_case(view[k].0) + ";"@
        }) + spec_group_tail(view[k].2, eff, ty, digits),
{
}

/// A group's test and the bit it sets or clears.
pub open spec fn spec_group_tail(names: Seq<Seq<char>>, eff: Seq<char>, ty: Seq<char>, digits: Seq<char>) -> Seq<char> {
    "if "@ + spec_present(names) + "{"@ + eff + "|="@ + ty + "(1<<"@ + digits + ")}else{"@ + eff
        + "&^="@ + ty + "(1<<"@ + digits + ")};"@
}

fn group_tail(names: &Vec<String>, eff: &String, ty: &String, digits: &String) -> (r: String)
    ensures
        r@ == spec_group_tail(names@.map_values(|s: String| s@), eff@, ty@, digits@),
{
    let mut out = "if ".to_owned();
    push_present(&mut out, names);
    push_literal(&mut out, "{");
    out.append(eff.as_str());
    push_literal(&mut out, "|=");
    out.append(ty.as_str());
    push_literal(&mut out, "(1<<");
    out.append(digits.as_str());
    push_literal(&mut out, ")}else{");
    out.append(eff.as_str());
    push_literal(&mut out, "&^=");
    out.append(ty.as_str());
    push_literal(&mut out, "(1<<");
    out.append(digits.as_str());
    push_literal(&mut out, ")};");
    assert(out@ =~= spec_group_tail(names@.map_values(|s: String| s@), eff@, ty@, digits@));
    out
}

fn push_go_group(out: &mut String, groups: &Vec<GuardGroup>, k: usize, item: &Struct, schema: &Schema)
    requires
        k < groups@.len(),
    ensures
        final(out)@ == old(out)@ + spec_go_group(
            groups@.map_values(|g: GuardGroup| spec_group_view(g)),
            k as int,
            item@.fields,
            schema@.items,
        ),
{
    let ghost view = groups@.map_values(|g: GuardGroup| spec_group_view(g));
    let owner = &groups[k].0;
    assert(view[k as int] == spec_group_view(groups@[k as int]));
    let declared = owner_declared(groups, k);
    proof {
        if declared {
            let i = choose|i: int| 0 <= i < k && (#[trigger] groups@[i]).0@ == groups@[k as int].0@;
            assert(view[i] == spec_group_view(groups@[i]));
            assert(view[i].0 == view[k as int].0);
        } else {
            assert forall|i: int| 0 <= i < k implies (#[trigger] view[i]).0 != view[k as int].0 by {
                assert(view[i] == spec_group_view(groups@[i]));
            }
        }
    }
    let eff = effective(owner);
    let ty = owner_type(item, owner, schema);
    let digits = number_text(groups[k].1);
    let ghost start = out@;
    let ghost declaration = if declared {
        Seq::<char>::empty()
    } else {
        eff@ + ":=v."@ + spec_pascal_case(owner@) + ";"@
    };
    if !declared {
        out.append(eff.as_str());
        push_literal(out, ":=v.");
        let pascal = pascal_case(owner.as_str());
        out.append(pascal.as_str());
        push_literal(out, ";");
    }
    assert(out@ =~= start + declaration);
    let ghost after_declaration = out@;
    let tail = group_tail(&groups[k].2, &eff, &ty, &digits);
    out.append(tail.as_str());
    proof {
        lemma_go_group_parts(view, k as int, item@.fields, schema@.items, declared, eff@, ty@, digits@);
    }
    assert(out@ =~= start + (declaration + tail@));
}

/// The check that a field's value has its exact length, when written.
pub open spec fn spec_exact_byte_panic(expr: Seq<char>, exact_len: Option<usize>) -> Seq<char> {
    match exact_len {
        Some(n) => "if len("@ + expr + ")!="@ + spec_number(n as nat)
            + "{panic(\"invalid exact byte length\")};"@,
        None => seq![],
    }
}

fn push_exact_byte_panic(out: &mut String, expr: &str, exact_len: Option<usize>)
    ensures
        final(out)@ == old(out)@ + spec_exact_byte_panic(expr@, exact_len),
{
    match exact_len {
        Some(n) => {
            push_literal(out, "if len(");
            out.append(expr);
            push_literal(out, ")!=");
            let digits = number_text(n as u64);
            out.append(digits.as_str());
            push_literal(out, "{panic(\"invalid exact byte length\")};");
        },
        None => {},
    }
    assert(out@ =~= old(out)@ + spec_exact_byte_panic(expr@, exact_len));
}

/// The check that a field's value has its exact length, when read.
pub open spec fn spec_exact_byte_error(lhs: Seq<char>, exact_len: Option<usize>, fail: Seq<char>) -> Seq<
    char,
> {
    match exact_len {
        Some(n) => "if len("@ + lhs + ")!="@ + spec_number(n as nat) + "{return "@ + fail
            + ",fmt.Errorf(\"invalid exact byte length\")};"@,
        None => seq![],
    }
}

fn push_exact_byte_error(out: &mut String, lhs: &str, exact_len: Option<usize>, fail: &str)
    ensures
        final(out)@ == old(out)@ + spec_exact_byte_error(lhs@, exact_len, fail@),
{
    match exact_len {
        Some(n) => {
            push_literal(out, "if len(");
            out.append(lhs);
            push_literal(out, ")!=");
            let digits = number_text(n as u64);
            out.append(digits.as_str());
            push_literal(out, "{return ");
            out.append(fail);
            push_literal(out, ",fmt.Errorf(\"invalid exact byte length\")};");
        },
        None => {},
    }
    assert(out@ =~= old(out)@ + spec_exact_byte_error(lhs@, exact_len, fail@));
}

/// A struct member: its Pascal-case name and its type, a pointer when the
/// field is guarded.
pub open spec fn spec_go_member(f: FieldModel, items: Seq<ItemModel>) -> Seq<char> {
    "    "@ + spec_pascal_case(f.name) + " "@ + if f.guard is Some {
        "*"@ + spec_go_type(f.ty, items)
    } else {
        spec_go_type(f.ty, items)
    } + "\n"@
}

/// The statements that write a struct's field: a guarded one when its bit
/// is set, an owner of guards as its effective value.
pub open spec fn spec_go_field_write(
    f: FieldModel,
    groups: Seq<(Seq<char>, u64, Seq<Seq<char>>)>,
    fields: Seq<FieldModel>,
    items: Seq<ItemModel>,
    fuel: nat,
) -> Seq<char> {
    let expr = "v."@ + spec_pascal_case(f.name);
    match f.guard {
        Some(guard) => {
            let (owner, bit) = spec_split_guard(guard);
            "if "@ + spec_effective(owner) + "&(1<<"@ + spec_number(
                spec_guard_bit(fields, items, owner, bit) as nat,
            ) + ")!=0{"@ + spec_exact_byte_panic("*"@ + expr, f.exact_len) + spec_go_encode(
                f.ty,
                "*"@ + expr,
                items,
                fuel,
            ) + "};"@
        },
        None => {
            let target = if spec_owns_group(groups, f.name) {
                spec_effective(f.name)
            } else {
                expr
            };
            spec_exact_byte_panic(target, f.exact_len) + spec_go_encode(f.ty, target, items, fuel)
        },
    }
}

fn push_go_field_write(
    out: &mut String,
    f: &Field,
    groups: &Vec<GuardGroup>,
    item: &Struct,
    schema: &Schema,
    fuel: usize,
)
    requires
        crate::typescript_expr::spec_resolves(f@.ty, schema@.items, fuel as nat),
    ensures
        final(out)@ == old(out)@ + spec_go_field_write(
            f@,
            groups@.map_values(|g: GuardGroup| spec_group_view(g)),
            item@.fields,
            schema@.items,
            fuel as nat,
        ),
{
    let mut expr = "v.".to_owned();
    let pascal = pascal_case(f.name.as_str());
    expr.append(pascal.as_str());
    let ghost start = out@;
    match &f.guard {
        Some(guard) => {
            let (owner, bit) = split_guard(guard);
            push_literal(out, "if ");
            let eff = effective(&owner);
            out.append(eff.as_str());
            push_literal(out, "&(1<<");
            let digits = number_text(ts_guard_bit(&item.fields, schema, &owner, &bit));
            out.append(digits.as_str());
            push_literal(out, ")!=0{");
            let mut target = "*".to_owned();
            target.append(expr.as_str());
            push_exact_byte_panic(out, target.as_str(), f.exact_len);
            go_encode_go_type(&f.ty, target.as_str(), schema, fuel, out);
            push_literal(out, "};");
        },
        None => {
            let target = if owns_group(groups, &f.name) {
                effective(&f.name)
            } else {
                expr
            };
            push_exact_byte_panic(out, target.as_str(), f.exact_len);
            go_encode_go_type(&f.ty, target.as_str(), schema, fuel, out);
        },
    }
    assert(out@ =~= start + spec_go_field_write(
        f@,
        groups@.map_values(|g: GuardGroup| spec_group_view(g)),
        item@.fields,
        schema@.items,
        fuel as nat,
    ));
}

/// The statements that read a struct's field: a guarded one into a
/// temporary when its bit is set, pointed to from the value.
pub open spec fn spec_go_field_read(
    f: FieldModel,
    fields: Seq<FieldModel>,
    items: Seq<ItemModel>,
    fuel: nat,
) -> Seq<char> {
    let lhs = "v."@ + spec_pascal_case(f.name);
    match f.guard {
        Some(guard) => {
            let (owner, bit) = spec_split_guard(guard);
            let temp = "guarded_"@ + f.name;
            "if v.Flags&(1<<"@ + spec_number(spec_guard_bit(fields, items, owner, bit) as nat) + ")!=0{var "@
                + temp + " "@ + spec_go_type(f.ty, items) + ";"@ + spec_go_decode(
                f.ty,
                temp,
                items,
                fuel,
            ) + spec_exact_byte_error(temp, f.exact_len, "v"@) + lhs + "=&"@ + temp + ";};"@
        },
        None => spec_go_decode(f.ty, lhs, items, fuel) + spec_exact_byte_error(
            lhs,
            f.exact_len,
            "v"@,
        ),
    }
}

#[verifier::spinoff_prover]
#[verifier::rlimit(40)]
fn push_go_field_read(out: &mut String, f: &Field, item: &Struct, schema: &Schema, fuel: usize)
    requires
        crate::typescript_expr::spec_resolves(f@.ty, schema@.items, fuel as nat),
    ensures
        final(out)@ == old(out)@ + spec_go_field_read(f@, item@.fields, schema@.items, fuel as nat),
{
    let mut lhs = "v.".to_owned();
    let pascal = pascal_case(f.name.as_str());
    lhs.append(pascal.as_str());
    let ghost start = out@;
    match &f.guard {
        Some(guard) => {
            let (owner, bit) = split_guard(guard);
            let mut temp = "guarded_".to_owned();
            temp.append(f.name.as_str());
            push_literal(out, "if v.Flags&(1<<");
            let digits = number_text(ts_guard_bit(&item.fields, schema, &owner, &bit));
            out.append(digits.as_str());
            push_literal(out, ")!=0{var ");
            out.append(temp.as_str());
            push_literal(out, " ");
            let ty = go_type(&f.ty, schema);
            out.append(ty.as_str());
            push_literal(out, ";");
            go_decode_go_type(&f.ty, temp.as_str(), schema, fuel, out);
            push_exact_byte_error(out, temp.as_str(), f.exact_len, "v");
            out.append(lhs.as_str());
            push_literal(out, "=&");
            out.append(temp.as_str());
            push_literal(out, ";};");
        },
        None => {
            go_decode_go_type(&f.ty, lhs.as_str(), schema, fuel, out);
            push_exact_byte_error(out, lhs.as_str(), f.exact_len, "v");
        },
    }
    assert(out@ =~= start + spec_go_field_read(f@, item@.fields, schema@.items, fuel as nat));
}

/// A struct's Go type and its Constructor ID.
pub open spec fn spec_go_struct_head(st: StructModel, schema: crate::ast::SchemaModel) -> Seq<char> {
    "type "@ + st.name + " struct {\n"@ + spec_concat(
        st.fields.map_values(|f: FieldModel| spec_go_member(f, schema.items)),
    ) + "}\nvar "@ + st.name + "CID=[]byte{"@ + spec_cid_bytes(spec_struct_cid(st, schema)) + "}\n"@
}

/// A struct's writer: its Constructor ID, the bits its guards set, then
/// each field.
pub open spec fn spec_go_struct_writer(st: StructModel, items: Seq<ItemModel>, fuel: nat) -> Seq<char> {
    let groups = spec_guard_groups(st.fields, st.fields, items);
    "func encode_"@ + spec_snake_case(st.name) + "(e *wireEncoder,v "@ + st.name + "){e.raw("@
        + st.name + "CID);"@ + spec_concat(
        Seq::new(groups.len(), |k: int| spec_go_group(groups, k, st.fields, items)),
    ) + spec_concat(
        st.fields.map_values(|f: FieldModel| spec_go_field_write(f, groups, st.fields, items, fuel)),
    ) + "}\n"@
}

/// A struct's reader: its Constructor ID, then each field.
pub open spec fn spec_go_struct_reader(st: StructModel, items: Seq<ItemModel>, fuel: nat) -> Seq<char> {
    "func decode_"@ + spec_snake_case(st.name) + "(d *wireDecoder)("@ + st.name + ",error){var v "@
        + st.name + ";if e:=cid(d,"@ + st.name + "CID);e!=nil{return v,e};var e error;"@
        + spec_concat(
        st.fields.map_values(|f: FieldModel| spec_go_field_read(f, st.fields, items, fuel)),
    ) + "return v,e}\n"@
}

/// A struct's Go type, its Constructor ID, and its writer and reader.
pub open spec fn spec_go_struct(st: StructModel, schema: crate::ast::SchemaModel, fuel: nat) -> Seq<char> {
    spec_go_struct_head(st, schema) + spec_go_struct_writer(st, schema.items, fuel)
        + spec_go_struct_reader(st, schema.items, fuel)
}

fn push_go_members(out: &mut String, st: &Struct, schema: &Schema)
    ensures
        final(out)@ == old(out)@ + spec_concat(
            st@.fields.map_values(|f: FieldModel| spec_go_member(f, schema@.items)),
        ),
{
    let ghost items = schema@.items;
    let ghost parts = st@.fields.map_values(|f: FieldModel| spec_go_member(f, items));
    let ghost head = out@;
    let mut i: usize = 0;
    while i < st.fields.len()
        invariant
            i <= st.fields@.len() == parts.len(),
            items == schema@.items,
            parts == st@.fields.map_values(|f: FieldModel| spec_go_member(f, items)),
            out@ == head + spec_concat(parts.take(i as int)),
        decreases st.fields@.len() - i,
    {
        proof {
            lemma_concat_step(parts, i as int);
            assert(st@.fields[i as int] == st.fields@[i as int]@);
        }
        let f = &st.fields[i];
        let ghost before = out@;
        push_literal(out, "    ");
        let pascal = pascal_case(f.name.as_str());
        out.append(pascal.as_str());
        push_literal(out, " ");
        let ty = go_type(&f.ty, schema);
        if f.guard.is_some() {
            push_literal(out, "*");
        }
        out.append(ty.as_str());
        push_literal(out, "\n");
        assert(out@ =~= before + spec_go_member(f@, items));
        assert(out@ =~= head + spec_concat(parts.take(i + 1)));
        i = i + 1;
    }
    assert(parts.take(st.fields@.len() as int) =~= parts);
}

fn push_go_groups(out: &mut String, st: &Struct, groups: &Vec<GuardGroup>, schema: &Schema)
    ensures
        final(out)@ == old(out)@ + spec_concat(
            Seq::new(
                groups@.len(),
                |k: int|
                    spec_go_group(
                        groups@.map_values(|g: GuardGroup| spec_group_view(g)),
                        k,
                        st@.fields,
                        schema@.items,
                    ),
            ),
        ),
{
    let ghost items = schema@.items;
    let ghost fields = st@.fields;
    let ghost view = groups@.map_values(|g: GuardGroup| spec_group_view(g));
    let ghost sets = Seq::new(view.len(), |k: int| spec_go_group(view, k, fields, items));
    let ghost start = out@;
    let mut k: usize = 0;
    while k < groups.len()
        invariant
            k <= groups@.len() == view.len() == sets.len(),
            view == groups@.map_values(|g: GuardGroup| spec_group_view(g)),
            sets == Seq::new(view.len(), |k: int| spec_go_group(view, k, fields, items)),
            fields == st@.fields,
            items == schema@.items,
            out@ == start + spec_concat(sets.take(k as int)),
        decreases groups@.len() - k,
    {
        proof {
            lemma_concat_step(sets, k as int);
        }
        push_go_group(out, groups, k, st, schema);
        assert(out@ =~= start + spec_concat(sets.take(k + 1)));
        k = k + 1;
    }
    assert(sets.take(view.len() as int) =~= sets);
}

fn push_go_field_writes(out: &mut String, st: &Struct, groups: &Vec<GuardGroup>, schema: &Schema, fuel: usize)
    requires
        spec_fields_resolve(st@.fields, schema@.items, fuel as nat),
    ensures
        final(out)@ == old(out)@ + spec_concat(
            st@.fields.map_values(
                |f: FieldModel|
                    spec_go_field_write(
                        f,
                        groups@.map_values(|g: GuardGroup| spec_group_view(g)),
                        st@.fields,
                        schema@.items,
                        fuel as nat,
                    ),
            ),
        ),
{
    let ghost items = schema@.items;
    let ghost fields = st@.fields;
    let ghost view = groups@.map_values(|g: GuardGroup| spec_group_view(g));
    let ghost writes = fields.map_values(
        |f: FieldModel| spec_go_field_write(f, view, fields, items, fuel as nat),
    );
    let ghost head = out@;
    let mut i: usize = 0;
    while i < st.fields.len()
        invariant
            i <= st.fields@.len() == fields.len() == writes.len(),
            fields == st@.fields,
            items == schema@.items,
            view == groups@.map_values(|g: GuardGroup| spec_group_view(g)),
            spec_fields_resolve(fields, items, fuel as nat),
            writes == fields.map_values(
                |f: FieldModel| spec_go_field_write(f, view, fields, items, fuel as nat),
            ),
            out@ == head + spec_concat(writes.take(i as int)),
        decreases st.fields@.len() - i,
    {
        proof {
            lemma_concat_step(writes, i as int);
            assert(fields[i as int] == st.fields@[i as int]@);
        }
        push_go_field_write(out, &st.fields[i], groups, st, schema, fuel);
        assert(out@ =~= head + spec_concat(writes.take(i + 1)));
        i = i + 1;
    }
    assert(writes.take(fields.len() as int) =~= writes);
}

fn push_go_reads(out: &mut String, st: &Struct, schema: &Schema, fuel: usize)
    requires
        spec_fields_resolve(st@.fields, schema@.items, fuel as nat),
    ensures
        final(out)@ == old(out)@ + spec_concat(
            st@.fields.map_values(
                |f: FieldModel| spec_go_field_read(f, st@.fields, schema@.items, fuel as nat),
            ),
        ),
{
    let ghost items = schema@.items;
    let ghost fields = st@.fields;
    let ghost reads = fields.map_values(
        |f: FieldModel| spec_go_field_read(f, fields, items, fuel as nat),
    );
    let ghost head = out@;
    let mut i: usize = 0;
    while i < st.fields.len()
        invariant
            i <= st.fields@.len() == fields.len() == reads.len(),
            fields == st@.fields,
            items == schema@.items,
            spec_fields_resolve(fields, items, fuel as nat),
            reads == fields.map_values(
                |f: FieldModel| spec_go_field_read(f, fields, items, fuel as nat),
            ),
            out@ == head + spec_concat(reads.take(i as int)),
        decreases st.fields@.len() - i,
    {
        proof {
            lemma_concat_step(reads, i as int);
            assert(fields[i as int] == st.fields@[i as int]@);
        }
        push_go_field_read(out, &st.fields[i], st, schema, fuel);
        assert(out@ =~= head + spec_concat(reads.take(i + 1)));
        i = i + 1;
    }
    assert(reads.take(fields.len() as int) =~= reads);
}

fn go_struct_head(st: &Struct, schema: &Schema, out: &mut String)
    ensures
        final(out)@ == old(out)@ + spec_go_struct_head(st@, schema@),
{
    let ghost start = out@;
    push_literal(out, "type ");
    out.append(st.name.as_str());
    push_literal(out, " struct {\n");
    push_go_members(out, st, schema);
    push_literal(out, "}\nvar ");
    out.append(st.name.as_str());
    push_literal(out, "CID=[]byte{");
    let cid = match &st.cid {
        Some(c) => c.clone(),
        None => constructor_cid_with_schema(st, schema),
    };
    let bytes = cid_bytes(&cid);
    out.append(bytes.as_str());
    push_literal(out, "}\n");
    assert(out@ =~= start + spec_go_struct_head(st@, schema@));
}

fn go_struct_writer(st: &Struct, schema: &Schema, fuel: usize, out: &mut String)
    requires
        spec_fields_resolve(st@.fields, schema@.items, fuel as nat),
    ensures
        final(out)@ == old(out)@ + spec_go_struct_writer(st@, schema@.items, fuel as nat),
{
    let ghost start = out@;
    let snake = snake_case(st.name.as_str());
    push_literal(out, "func encode_");
    out.append(snake.as_str());
    push_literal(out, "(e *wireEncoder,v ");
    out.append(st.name.as_str());
    push_literal(out, "){e.raw(");
    out.append(st.name.as_str());
    push_literal(out, "CID);");
    let groups = ts_guard_groups(st, schema);
    push_go_groups(out, st, &groups, schema);
    push_go_field_writes(out, st, &groups, schema, fuel);
    push_literal(out, "}\n");
    assert(out@ =~= start + spec_go_struct_writer(st@, schema@.items, fuel as nat));
}

fn go_struct_reader(st: &Struct, schema: &Schema, fuel: usize, out: &mut String)
    requires
        spec_fields_resolve(st@.fields, schema@.items, fuel as nat),
    ensures
        final(out)@ == old(out)@ + spec_go_struct_reader(st@, schema@.items, fuel as nat),
{
    let ghost start = out@;
    let snake = snake_case(st.name.as_str());
    push_literal(out, "func decode_");
    out.append(snake.as_str());
    push_literal(out, "(d *wireDecoder)(");
    out.append(st.name.as_str());
    push_literal(out, ",error){var v ");
    out.append(st.name.as_str());
    push_literal(out, ";if e:=cid(d,");
    out.append(st.name.as_str());
    push_literal(out, "CID);e!=nil{return v,e};var e error;");
    push_go_reads(out, st, schema, fuel);
    push_literal(out, "return v,e}\n");
    assert(out@ =~= start + spec_go_struct_reader(st@, schema@.items, fuel as nat));
}

pub(crate) fn generate_go_struct(st: &Struct, schema: &Schema, fuel: usize, out: &mut String)
    requires
        spec_fields_resolve(st@.fields, schema@.items, fuel as nat),
    ensures
        final(out)@ == old(out)@ + spec_go_struct(st@, schema@, fuel as nat),
{
    let ghost start = out@;
    go_struct_head(st, schema, out);
    go_struct_writer(st, schema, fuel, out);
    go_struct_reader(st, schema, fuel, out);
    assert(out@ =~= start + spec_go_struct(st@, schema@, fuel as nat));
}

// ---------------------------------------------------------------------------
// Enums with fields
// ---------------------------------------------------------------------------

/// A variant's struct type, which implements the enum's interface.
pub open spec fn spec_go_variant_type(e: EnumModel, v: VariantModel, items: Seq<ItemModel>) -> Seq<char> {
    "type "@ + e.name + v.name + " struct{"@ + spec_concat(
        v.fields.map_values(
            |f: FieldModel| spec_pascal_case(f.name) + " "@ + spec_go_type(f.ty, items) + ";"@,
        ),
    ) + "}\nfunc ("@ + e.name + v.name + ")is"@ + e.name + "(){}\n"@
}

fn push_go_variant_type(out: &mut String, e: &Enum, v: &EnumVariant, schema: &Schema)
    ensures
        final(out)@ == old(out)@ + spec_go_variant_type(e@, v@, schema@.items),
{
    let ghost items = schema@.items;
    let ghost parts = v@.fields.map_values(
        |f: FieldModel| spec_pascal_case(f.name) + " "@ + spec_go_type(f.ty, items) + ";"@,
    );
    let ghost start = out@;
    push_literal(out, "type ");
    out.append(e.name.as_str());
    out.append(v.name.as_str());
    push_literal(out, " struct{");
    let ghost head = out@;
    let mut i: usize = 0;
    while i < v.fields.len()
        invariant
            i <= v.fields@.len() == parts.len(),
            items == schema@.items,
            parts == v@.fields.map_values(
                |f: FieldModel| spec_pascal_case(f.name) + " "@ + spec_go_type(f.ty, items) + ";"@,
            ),
            out@ == head + spec_concat(parts.take(i as int)),
        decreases v.fields@.len() - i,
    {
        proof {
            lemma_concat_step(parts, i as int);
            assert(v@.fields[i as int] == v.fields@[i as int]@);
        }
        let f = &v.fields[i];
        let pascal = pascal_case(f.name.as_str());
        out.append(pascal.as_str());
        push_literal(out, " ");
        let ty = go_type(&f.ty, schema);
        out.append(ty.as_str());
        push_literal(out, ";");
        assert(out@ =~= head + spec_concat(parts.take(i + 1)));
        i = i + 1;
    }
    assert(parts.take(v.fields@.len() as int) =~= parts);
    push_literal(out, "}\nfunc (");
    out.append(e.name.as_str());
    out.append(v.name.as_str());
    push_literal(out, ")is");
    out.append(e.name.as_str());
    push_literal(out, "(){}\n");
    assert(out@ =~= start + spec_go_variant_type(e@, v@, schema@.items));
}

/// A variant field's statements in the enum's writer.
pub open spec fn spec_go_variant_field_write(f: FieldModel, items: Seq<ItemModel>, fuel: nat) -> Seq<char> {
    let expr = "x."@ + spec_pascal_case(f.name);
    spec_exact_byte_panic(expr, f.exact_len) + spec_go_encode(f.ty, expr, items, fuel)
}

/// A variant's case in the enum's writer: its Constructor ID, then its
/// fields.
pub open spec fn spec_go_variant_write(
    e: EnumModel,
    v: VariantModel,
    schema: crate::ast::SchemaModel,
    fuel: nat,
) -> Seq<char> {
    "case "@ + e.name + v.name + ":e.raw([]byte{"@ + spec_cid_bytes(spec_variant_cid(e, v, schema))
        + "});"@ + spec_concat(
        v.fields.map_values(|f: FieldModel| spec_go_variant_field_write(f, schema.items, fuel)),
    )
}

fn push_go_variant_write(out: &mut String, e: &Enum, v: &EnumVariant, schema: &Schema, fuel: usize)
    requires
        spec_fields_resolve(v@.fields, schema@.items, fuel as nat),
    ensures
        final(out)@ == old(out)@ + spec_go_variant_write(e@, v@, schema@, fuel as nat),
{
    let ghost items = schema@.items;
    let ghost parts = v@.fields.map_values(
        |f: FieldModel| spec_go_variant_field_write(f, items, fuel as nat),
    );
    let ghost start = out@;
    push_literal(out, "case ");
    out.append(e.name.as_str());
    out.append(v.name.as_str());
    push_literal(out, ":e.raw([]byte{");
    let cid = variant_cid_text(e, v, schema);
    let bytes = cid_bytes(&cid);
    out.append(bytes.as_str());
    push_literal(out, "});");
    let ghost head = out@;
    let mut i: usize = 0;
    while i < v.fields.len()
        invariant
            i <= v.fields@.len() == parts.len(),
            items == schema@.items,
            spec_fields_resolve(v@.fields, items, fuel as nat),
            parts == v@.fields.map_values(
                |f: FieldModel| spec_go_variant_field_write(f, items, fuel as nat),
            ),
            out@ == head + spec_concat(parts.take(i as int)),
        decreases v.fields@.len() - i,
    {
        proof {
            lemma_concat_step(parts, i as int);
            assert(v@.fields[i as int] == v.fields@[i as int]@);
        }
        let f = &v.fields[i];
        let ghost before = out@;
        let mut expr = "x.".to_owned();
        let pascal = pascal_case(f.name.as_str());
        expr.append(pascal.as_str());
        push_exact_byte_panic(out, expr.as_str(), f.exact_len);
        go_encode_go_type(&f.ty, expr.as_str(), schema, fuel, out);
        assert(out@ =~= before + spec_go_variant_field_write(f@, items, fuel as nat));
        assert(out@ =~= head + spec_concat(parts.take(i + 1)));
        i = i + 1;
    }
    assert(parts.take(v.fields@.len() as int) =~= parts);
    assert(out@ =~= start + spec_go_variant_write(e@, v@, schema@, fuel as nat));
}

/// A variant field's statements in the enum's reader.
pub open spec fn spec_go_variant_field_read(f: FieldModel, items: Seq<ItemModel>, fuel: nat) -> Seq<char> {
    let lhs = "x."@ + spec_pascal_case(f.name);
    spec_go_decode(f.ty, lhs, items, fuel) + spec_exact_byte_error(lhs, f.exact_len, "nil"@)
}

/// A variant's case in the enum's reader: its Constructor ID picks it, then
/// its fields are read.
pub open spec fn spec_go_variant_read(
    e: EnumModel,
    v: VariantModel,
    schema: crate::ast::SchemaModel,
    fuel: nat,
) -> Seq<char> {
    "case string([]byte{"@ + spec_cid_bytes(spec_variant_cid(e, v, schema)) + "}):var x "@ + e.name
        + v.name + ";"@ + spec_concat(
        v.fields.map_values(|f: FieldModel| spec_go_variant_field_read(f, schema.items, fuel)),
    ) + "return x,e;"@
}

fn push_go_variant_read(out: &mut String, e: &Enum, v: &EnumVariant, schema: &Schema, fuel: usize)
    requires
        spec_fields_resolve(v@.fields, schema@.items, fuel as nat),
    ensures
        final(out)@ == old(out)@ + spec_go_variant_read(e@, v@, schema@, fuel as nat),
{
    let ghost items = schema@.items;
    let ghost parts = v@.fields.map_values(
        |f: FieldModel| spec_go_variant_field_read(f, items, fuel as nat),
    );
    let ghost start = out@;
    push_literal(out, "case string([]byte{");
    let cid = variant_cid_text(e, v, schema);
    let bytes = cid_bytes(&cid);
    out.append(bytes.as_str());
    push_literal(out, "}):var x ");
    out.append(e.name.as_str());
    out.append(v.name.as_str());
    push_literal(out, ";");
    let ghost head = out@;
    let mut i: usize = 0;
    while i < v.fields.len()
        invariant
            i <= v.fields@.len() == parts.len(),
            items == schema@.items,
            spec_fields_resolve(v@.fields, items, fuel as nat),
            parts == v@.fields.map_values(
                |f: FieldModel| spec_go_variant_field_read(f, items, fuel as nat),
            ),
            out@ == head + spec_concat(parts.take(i as int)),
        decreases v.fields@.len() - i,
    {
        proof {
            lemma_concat_step(parts, i as int);
            assert(v@.fields[i as int] == v.fields@[i as int]@);
        }
        let f = &v.fields[i];
        let ghost before = out@;
        let mut lhs = "x.".to_owned();
        let pascal = pascal_case(f.name.as_str());
        lhs.append(pascal.as_str());
        go_decode_go_type(&f.ty, lhs.as_str(), schema, fuel, out);
        push_exact_byte_error(out, lhs.as_str(), f.exact_len, "nil");
        assert(out@ =~= before + spec_go_variant_field_read(f@, items, fuel as nat));
        assert(out@ =~= head + spec_concat(parts.take(i + 1)));
        i = i + 1;
    }
    assert(parts.take(v.fields@.len() as int) =~= parts);
    push_literal(out, "return x,e;");
    assert(out@ =~= start + spec_go_variant_read(e@, v@, schema@, fuel as nat));
}

/// An enum's interface and the struct type of each variant.
pub open spec fn spec_go_enum_types(e: EnumModel, items: Seq<ItemModel>) -> Seq<char> {
    "type "@ + e.name + " interface{is"@ + e.name + "()}\n"@ + spec_concat(
        e.variants.map_values(|v: VariantModel| spec_go_variant_type(e, v, items)),
    )
}

/// An enum's writer: the value's variant picks its case.
pub open spec fn spec_go_enum_writer(e: EnumModel, schema: crate::ast::SchemaModel, fuel: nat) -> Seq<char> {
    "func encode_"@ + spec_snake_case(e.name) + "(e *wireEncoder,v "@ + e.name
        + "){switch x:=v.(type){"@ + spec_concat(
        e.variants.map_values(|v: VariantModel| spec_go_variant_write(e, v, schema, fuel)),
    ) + "default:panic(\"unknown variant\")}}\n"@
}

/// An enum's reader: the Constructor ID picks the variant.
pub open spec fn spec_go_enum_reader(e: EnumModel, schema: crate::ast::SchemaModel, fuel: nat) -> Seq<char> {
    "func decode_"@ + spec_snake_case(e.name) + "(d *wireDecoder)("@ + e.name + ",error){var v "@
        + e.name + ";c,e:=d.take(8);if e!=nil{return nil,e};switch string(c){"@ + spec_concat(
        e.variants.map_values(|v: VariantModel| spec_go_variant_read(e, v, schema, fuel)),
    ) + "default:return nil,fmt.Errorf(\"unknown constructor\")}}\n"@
}

/// An enum with fields: its interface, its variants' types, its writer and
/// its reader.
pub open spec fn spec_go_enum(e: EnumModel, schema: crate::ast::SchemaModel, fuel: nat) -> Seq<char> {
    spec_go_enum_types(e, schema.items) + spec_go_enum_writer(e, schema, fuel) + spec_go_enum_reader(
        e,
        schema,
        fuel,
    )
}

fn go_enum_types(e: &Enum, schema: &Schema, out: &mut String)
    ensures
        final(out)@ == old(out)@ + spec_go_enum_types(e@, schema@.items),
{
    let ghost items = schema@.items;
    let ghost parts = e@.variants.map_values(|v: VariantModel| spec_go_variant_type(e@, v, items));
    let ghost start = out@;
    push_literal(out, "type ");
    out.append(e.name.as_str());
    push_literal(out, " interface{is");
    out.append(e.name.as_str());
    push_literal(out, "()}\n");
    let ghost head = out@;
    let mut i: usize = 0;
    while i < e.variants.len()
        invariant
            i <= e.variants@.len() == parts.len(),
            items == schema@.items,
            parts == e@.variants.map_values(|v: VariantModel| spec_go_variant_type(e@, v, items)),
            out@ == head + spec_concat(parts.take(i as int)),
        decreases e.variants@.len() - i,
    {
        proof {
            lemma_concat_step(parts, i as int);
            assert(e@.variants[i as int] == e.variants@[i as int]@);
        }
        push_go_variant_type(out, e, &e.variants[i], schema);
        assert(out@ =~= head + spec_concat(parts.take(i + 1)));
        i = i + 1;
    }
    assert(parts.take(e.variants@.len() as int) =~= parts);
    assert(out@ =~= start + spec_go_enum_types(e@, schema@.items));
}

fn go_enum_writer(e: &Enum, schema: &Schema, fuel: usize, out: &mut String)
    requires
        crate::typescript::spec_variants_resolve(e@, schema@.items, fuel as nat),
    ensures
        final(out)@ == old(out)@ + spec_go_enum_writer(e@, schema@, fuel as nat),
{
    let ghost model = schema@;
    let ghost parts = e@.variants.map_values(
        |v: VariantModel| spec_go_variant_write(e@, v, model, fuel as nat),
    );
    let ghost start = out@;
    push_literal(out, "func encode_");
    let snake = snake_case(e.name.as_str());
    out.append(snake.as_str());
    push_literal(out, "(e *wireEncoder,v ");
    out.append(e.name.as_str());
    push_literal(out, "){switch x:=v.(type){");
    let ghost head = out@;
    let mut i: usize = 0;
    while i < e.variants.len()
        invariant
            i <= e.variants@.len() == parts.len(),
            model == schema@,
            crate::typescript::spec_variants_resolve(e@, model.items, fuel as nat),
            parts == e@.variants.map_values(
                |v: VariantModel| spec_go_variant_write(e@, v, model, fuel as nat),
            ),
            out@ == head + spec_concat(parts.take(i as int)),
        decreases e.variants@.len() - i,
    {
        proof {
            lemma_concat_step(parts, i as int);
            assert(e@.variants[i as int] == e.variants@[i as int]@);
        }
        push_go_variant_write(out, e, &e.variants[i], schema, fuel);
        assert(out@ =~= head + spec_concat(parts.take(i + 1)));
        i = i + 1;
    }
    assert(parts.take(e.variants@.len() as int) =~= parts);
    push_literal(out, "default:panic(\"unknown variant\")}}\n");
    assert(out@ =~= start + spec_go_enum_writer(e@, schema@, fuel as nat));
}

fn go_enum_reader(e: &Enum, schema: &Schema, fuel: usize, out: &mut String)
    requires
        crate::typescript::spec_variants_resolve(e@, schema@.items, fuel as nat),
    ensures
        final(out)@ == old(out)@ + spec_go_enum_reader(e@, schema@, fuel as nat),
{
    let ghost model = schema@;
    let ghost parts = e@.variants.map_values(
        |v: VariantModel| spec_go_variant_read(e@, v, model, fuel as nat),
    );
    let ghost start = out@;
    push_literal(out, "func decode_");
    let snake = snake_case(e.name.as_str());
    out.append(snake.as_str());
    push_literal(out, "(d *wireDecoder)(");
    out.append(e.name.as_str());
    push_literal(out, ",error){var v ");
    out.append(e.name.as_str());
    push_literal(out, ";c,e:=d.take(8);if e!=nil{return nil,e};switch string(c){");
    let ghost head = out@;
    let mut i: usize = 0;
    while i < e.variants.len()
        invariant
            i <= e.variants@.len() == parts.len(),
            model == schema@,
            crate::typescript::spec_variants_resolve(e@, model.items, fuel as nat),
            parts == e@.variants.map_values(
                |v: VariantModel| spec_go_variant_read(e@, v, model, fuel as nat),
            ),
            out@ == head + spec_concat(parts.take(i as int)),
        decreases e.variants@.len() - i,
    {
        proof {
            lemma_concat_step(parts, i as int);
            assert(e@.variants[i as int] == e.variants@[i as int]@);
        }
        push_go_variant_read(out, e, &e.variants[i], schema, fuel);
        assert(out@ =~= head + spec_concat(parts.take(i + 1)));
        i = i + 1;
    }
    assert(parts.take(e.variants@.len() as int) =~= parts);
    push_literal(out, "default:return nil,fmt.Errorf(\"unknown constructor\")}}\n");
    assert(out@ =~= start + spec_go_enum_reader(e@, schema@, fuel as nat));
}

pub(crate) fn generate_go_enum(e: &Enum, schema: &Schema, fuel: usize, out: &mut String)
    requires
        crate::typescript::spec_variants_resolve(e@, schema@.items, fuel as nat),
    ensures
        final(out)@ == old(out)@ + spec_go_enum(e@, schema@, fuel as nat),
{
    let ghost start = out@;
    go_enum_types(e, schema, out);
    go_enum_writer(e, schema, fuel, out);
    go_enum_reader(e, schema, fuel, out);
    assert(out@ =~= start + spec_go_enum(e@, schema@, fuel as nat));
}

} // verus!
