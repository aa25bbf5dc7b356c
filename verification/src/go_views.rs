//! The Go views of a schema's structs and enums: types that borrow the
//! packet's bytes, and lazy views whose collections are read item by item.

use vstd::prelude::*;
use vstd::string::StringExecFns;

use crate::ast::{
    Enum, EnumModel, EnumVariant, Field, FieldModel, ItemModel, Schema, Struct, StructModel, Type,
    TypeModel, VariantModel,
};
use crate::fingerprint::{push_literal, spec_number};
use crate::go_expr::{
    go_decode_lazy_view_type, go_decode_view_type, push_count_head, spec_count_head,
    spec_go_lazy_decode, spec_go_view_decode,
};
use crate::go_names::{
    cid_bytes, go_lazy_view_type, go_view_type, pascal_case, spec_cid_bytes,
    spec_go_lazy_view_type, spec_go_view_type, spec_pascal_case,
};
use crate::typescript::{
    spec_guard_bit, ts_guard_bit,
    collection_named, lemma_concat_step, spec_collection_named, spec_concat, spec_split_guard,
    spec_variant_cid, split_guard, variant_cid_text,
};
use crate::typescript_types::{is_collection, number_text, spec_is_collection};

verus! {

// ---------------------------------------------------------------------------
// Views of structs
// ---------------------------------------------------------------------------

/// The test that a guarded field's bit is set in the view being read.
pub open spec fn spec_view_guard(guard: Seq<char>, fields: Seq<FieldModel>, items: Seq<ItemModel>) -> Seq<char> {
    let (owner, bit) = spec_split_guard(guard);
    "if v."@ + spec_pascal_case(owner) + "&(1<<"@ + spec_number(spec_guard_bit(fields, items, owner, bit) as nat)
        + ")!=0{"@
}

fn push_view_guard(out: &mut String, guard: &String, item: &Struct, schema: &Schema)
    ensures
        final(out)@ == old(out)@ + spec_view_guard(guard@, item@.fields, schema@.items),
{
    let (owner, bit) = split_guard(guard);
    push_literal(out, "if v.");
    let pascal = pascal_case(owner.as_str());
    out.append(pascal.as_str());
    push_literal(out, "&(1<<");
    let digits = number_text(ts_guard_bit(&item.fields, schema, &owner, &bit));
    out.append(digits.as_str());
    push_literal(out, ")!=0{");
    assert(out@ =~= old(out)@ + spec_view_guard(guard@, item@.fields, schema@.items));
}

/// A view member: a field's Pascal-case name and its view type.
pub open spec fn spec_view_member(f: FieldModel, items: Seq<ItemModel>) -> Seq<char> {
    " "@ + spec_pascal_case(f.name) + " "@ + spec_go_view_type(f.ty, items) + ";"@
}

fn push_view_members(out: &mut String, fields: &Vec<Field>, schema: &Schema)
    ensures
        final(out)@ == old(out)@ + spec_concat(
            fields@.map_values(|f: Field| spec_view_member(f@, schema@.items)),
        ),
{
    let ghost items = schema@.items;
    let ghost parts = fields@.map_values(|f: Field| spec_view_member(f@, items));
    let ghost head = out@;
    let mut i: usize = 0;
    while i < fields.len()
        invariant
            i <= fields@.len() == parts.len(),
            items == schema@.items,
            parts == fields@.map_values(|f: Field| spec_view_member(f@, items)),
            out@ == head + spec_concat(parts.take(i as int)),
        decreases fields@.len() - i,
    {
        proof {
            lemma_concat_step(parts, i as int);
        }
        let f = &fields[i];
        push_literal(out, " ");
        let pascal = pascal_case(f.name.as_str());
        out.append(pascal.as_str());
        push_literal(out, " ");
        let ty = go_view_type(&f.ty, schema);
        out.append(ty.as_str());
        push_literal(out, ";");
        assert(out@ =~= head + spec_concat(parts.take(i + 1)));
        i = i + 1;
    }
    assert(parts.take(fields@.len() as int) =~= parts);
}

/// The statements that read a field into a struct's view: a guarded one
/// only when its bit is set.
pub open spec fn spec_view_field_read(f: FieldModel, fields: Seq<FieldModel>, items: Seq<ItemModel>) -> Seq<
    char,
> {
    let lhs = "v."@ + spec_pascal_case(f.name);
    match f.guard {
        Some(guard) => spec_view_guard(guard, fields, items) + spec_go_view_decode(f.ty, lhs, items) + "};"@,
        None => spec_go_view_decode(f.ty, lhs, items),
    }
}

/// A struct's view type, its reader, and the function that borrows a
/// packet into it.
pub open spec fn spec_go_view_struct_own(st: StructModel, items: Seq<ItemModel>) -> Seq<char> {
    "type "@ + st.name + "View struct {"@ + spec_concat(
        st.fields.map_values(|f: FieldModel| spec_view_member(f, items)),
    ) + "}\nfunc read"@ + st.name + "View(d *wireDecoder) ("@ + st.name + "View,error) { var v "@
        + st.name + "View; if e:=cid(d,"@ + st.name + "CID);e!=nil{return v,e}; var e error;"@
        + spec_concat(st.fields.map_values(|f: FieldModel| spec_view_field_read(f, st.fields, items)))
        + "return v,e}\nfunc Borrow"@ + st.name + "(b []byte) ("@ + st.name
        + "View,error) { d:=wireDecoder{b:b}; v,e:=read"@ + st.name
        + "View(&d); if e==nil{e=d.done()}; return v,e }\n\n"@
}

fn push_view_reads(out: &mut String, st: &Struct, schema: &Schema)
    ensures
        final(out)@ == old(out)@ + spec_concat(
            st@.fields.map_values(|f: FieldModel| spec_view_field_read(f, st@.fields, schema@.items)),
        ),
{
    let ghost items = schema@.items;
    let ghost fields = st@.fields;
    let ghost reads = fields.map_values(|f: FieldModel| spec_view_field_read(f, fields, items));
    let ghost head = out@;
    let mut i: usize = 0;
    while i < st.fields.len()
        invariant
            i <= st.fields@.len() == fields.len() == reads.len(),
            fields == st@.fields,
            items == schema@.items,
            reads == fields.map_values(|f: FieldModel| spec_view_field_read(f, fields, items)),
            out@ == head + spec_concat(reads.take(i as int)),
        decreases st.fields@.len() - i,
    {
        proof {
            lemma_concat_step(reads, i as int);
            assert(fields[i as int] == st.fields@[i as int]@);
        }
        let f = &st.fields[i];
        let ghost before = out@;
        let mut lhs = "v.".to_owned();
        let pascal = pascal_case(f.name.as_str());
        lhs.append(pascal.as_str());
        match &f.guard {
            Some(guard) => {
                push_view_guard(out, guard, st, schema);
                go_decode_view_type(&f.ty, lhs.as_str(), schema, out);
                push_literal(out, "};");
            },
            None => {
                go_decode_view_type(&f.ty, lhs.as_str(), schema, out);
            },
        }
        assert(out@ =~= before + spec_view_field_read(f@, fields, items));
        assert(out@ =~= head + spec_concat(reads.take(i + 1)));
        i = i + 1;
    }
    assert(reads.take(fields.len() as int) =~= reads);
}

fn go_view_struct_own(st: &Struct, schema: &Schema, out: &mut String)
    ensures
        final(out)@ == old(out)@ + spec_go_view_struct_own(st@, schema@.items),
{
    let ghost items = schema@.items;
    let ghost fields = st@.fields;
    let ghost start = out@;
    push_literal(out, "type ");
    out.append(st.name.as_str());
    push_literal(out, "View struct {");
    push_view_members(out, &st.fields, schema);
    assert(st.fields@.map_values(|f: Field| spec_view_member(f@, items)) =~= fields.map_values(
        |f: FieldModel| spec_view_member(f, items),
    ));
    push_literal(out, "}\nfunc read");
    out.append(st.name.as_str());
    push_literal(out, "View(d *wireDecoder) (");
    out.append(st.name.as_str());
    push_literal(out, "View,error) { var v ");
    out.append(st.name.as_str());
    push_literal(out, "View; if e:=cid(d,");
    out.append(st.name.as_str());
    push_literal(out, "CID);e!=nil{return v,e}; var e error;");
    push_view_reads(out, st, schema);
    push_literal(out, "return v,e}\nfunc Borrow");
    out.append(st.name.as_str());
    push_literal(out, "(b []byte) (");
    out.append(st.name.as_str());
    push_literal(out, "View,error) { d:=wireDecoder{b:b}; v,e:=read");
    out.append(st.name.as_str());
    push_literal(out, "View(&d); if e==nil{e=d.done()}; return v,e }\n\n");
    assert(out@ =~= start + spec_go_view_struct_own(st@, schema@.items));
}

// ---------------------------------------------------------------------------
// Lazy collections
// ---------------------------------------------------------------------------

/// The type of a lazy collection, named by its owner and field.
pub open spec fn spec_collection_name(prefix: Seq<char>, field: Seq<char>) -> Seq<char> {
    prefix + spec_pascal_case(field) + "LazyView"@
}

/// The function that reads one item of a lazy collection.
pub open spec fn spec_item_reader(prefix: Seq<char>, field: Seq<char>) -> Seq<char> {
    "read"@ + prefix + spec_pascal_case(field) + "LazyItem"@
}

/// The type of one item of a lazy collection: a map's entry type, a
/// vector's element.
pub open spec fn spec_item_type(prefix: Seq<char>, f: FieldModel, items: Seq<ItemModel>) -> Seq<char> {
    match f.ty {
        TypeModel::Vec(t) => spec_go_lazy_view_type(*t, items),
        TypeModel::Mapping(_, _) => prefix + spec_pascal_case(f.name) + "Entry"@,
        _ => seq![],
    }
}

/// The statements that read one item of a lazy collection into `v`.
pub open spec fn spec_item_decode(f: FieldModel, items: Seq<ItemModel>) -> Seq<char> {
    match f.ty {
        TypeModel::Vec(t) => spec_go_lazy_decode(*t, "v"@, items),
        TypeModel::Mapping(k, v) => spec_go_lazy_decode(*k, "v.Key"@, items) + spec_go_lazy_decode(
            *v,
            "v.Value"@,
            items,
        ),
        _ => seq![],
    }
}

/// The declaration of a map's entry type.
pub open spec fn spec_entry_type(item_ty: Seq<char>, ty: TypeModel, items: Seq<ItemModel>) -> Seq<char> {
    match ty {
        TypeModel::Mapping(k, v) => "type "@ + item_ty + " struct{ Key "@ + spec_go_lazy_view_type(
            *k,
            items,
        ) + "; Value "@ + spec_go_lazy_view_type(*v, items) + " }\n"@,
        _ => seq![],
    }
}

/// A lazy collection's type with its length, and its item reader.
pub open spec fn spec_collection_head(cn: Seq<char>, rn: Seq<char>, it: Seq<char>, f: FieldModel, items: Seq<ItemModel>) -> Seq<
    char,
> {
    "type "@ + cn + " struct{ wire []byte; start,count int }\nfunc (v "@ + cn
        + ") Len() int { return v.count }\nfunc "@ + rn + "(d *wireDecoder) ("@ + it
        + ",error) { var v "@ + it + "; var e error;"@ + spec_item_decode(f, items) + "return v,e}\n"@
}

/// A lazy collection's random access.
pub open spec fn spec_collection_at(cn: Seq<char>, rn: Seq<char>, it: Seq<char>) -> Seq<char> {
    "func (v "@ + cn + ") At(i int) ("@ + it + ",bool) { var zero "@ + it
        + "; if i<0||i>=v.count{return zero,false}; d:=wireDecoder{b:v.wire,p:v.start}; var value "@
        + it + "; var e error; for n:=0;n<=i;n++{value,e="@ + rn
        + "(&d);if e!=nil{return zero,false}}; return value,true }\ntype "@
}

/// A lazy collection's iterator.
pub open spec fn spec_collection_iter(cn: Seq<char>, rn: Seq<char>, it: Seq<char>) -> Seq<char> {
    cn + "Iter struct{ view "@ + cn + "; index int; decoder wireDecoder }\nfunc (v "@ + cn
        + ") Iter() *"@ + cn + "Iter { return &"@ + cn
        + "Iter{view:v,decoder:wireDecoder{b:v.wire,p:v.start}} }\nfunc (it *"@ + cn
        + "Iter) Next() ("@ + it + ",bool) { var zero "@ + it
        + ";if it.index>=it.view.count{return zero,false};value,e:="@ + rn
        + "(&it.decoder);if e!=nil{return zero,false};it.index++;return value,true }\n"@
}

/// A lazy collection's random access and its iterator.
pub open spec fn spec_collection_access(cn: Seq<char>, rn: Seq<char>, it: Seq<char>) -> Seq<char> {
    spec_collection_at(cn, rn, it) + spec_collection_iter(cn, rn, it)
}

/// A lazy collection's Go declarations: its entry type for a map, the
/// collection type with its length, the item reader, random access, and an
/// iterator.
#[verifier::opaque]
pub open spec fn spec_collection_decls(prefix: Seq<char>, f: FieldModel, items: Seq<ItemModel>) -> Seq<
    char,
> {
    let cn = spec_collection_name(prefix, f.name);
    let rn = spec_item_reader(prefix, f.name);
    let it = spec_item_type(prefix, f, items);
    spec_entry_type(it, f.ty, items) + spec_collection_head(cn, rn, it, f, items)
        + spec_collection_access(cn, rn, it)
}

pub(crate) fn collection_name(prefix: &str, field: &String) -> (r: String)
    ensures
        r@ == spec_collection_name(prefix@, field@),
{
    let mut out = prefix.to_owned();
    let pascal = pascal_case(field.as_str());
    out.append(pascal.as_str());
    push_literal(&mut out, "LazyView");
    out
}

pub(crate) fn item_reader(prefix: &str, field: &String) -> (r: String)
    ensures
        r@ == spec_item_reader(prefix@, field@),
{
    let mut out = "read".to_owned();
    out.append(prefix);
    let pascal = pascal_case(field.as_str());
    out.append(pascal.as_str());
    push_literal(&mut out, "LazyItem");
    out
}

fn item_type(prefix: &str, f: &Field, schema: &Schema) -> (r: String)
    ensures
        r@ == spec_item_type(prefix@, f@, schema@.items),
{
    match &f.ty {
        Type::Vec(t) => go_lazy_view_type(t, schema),
        Type::Mapping(_, _) => {
            let mut out = prefix.to_owned();
            let pascal = pascal_case(f.name.as_str());
            out.append(pascal.as_str());
            push_literal(&mut out, "Entry");
            out
        },
        _ => String::new(),
    }
}

fn push_entry_type(out: &mut String, it: &String, ty: &Type, schema: &Schema)
    ensures
        final(out)@ == old(out)@ + spec_entry_type(it@, ty@, schema@.items),
{
    match ty {
        Type::Mapping(k, v) => {
            push_literal(out, "type ");
            out.append(it.as_str());
            push_literal(out, " struct{ Key ");
            let kt = go_lazy_view_type(k, schema);
            out.append(kt.as_str());
            push_literal(out, "; Value ");
            let vt = go_lazy_view_type(v, schema);
            out.append(vt.as_str());
            push_literal(out, " }\n");
        },
        _ => {},
    }
    assert(out@ =~= old(out)@ + spec_entry_type(it@, ty@, schema@.items));
}

fn push_collection_head(out: &mut String, cn: &String, rn: &String, it: &String, f: &Field, schema: &Schema)
    ensures
        final(out)@ == old(out)@ + spec_collection_head(cn@, rn@, it@, f@, schema@.items),
{
    let ghost start = out@;
    push_literal(out, "type ");
    out.append(cn.as_str());
    push_literal(out, " struct{ wire []byte; start,count int }\nfunc (v ");
    out.append(cn.as_str());
    push_literal(out, ") Len() int { return v.count }\nfunc ");
    out.append(rn.as_str());
    push_literal(out, "(d *wireDecoder) (");
    out.append(it.as_str());
    push_literal(out, ",error) { var v ");
    out.append(it.as_str());
    push_literal(out, "; var e error;");
    let ghost before_decode = out@;
    match &f.ty {
        Type::Vec(t) => {
            go_decode_lazy_view_type(t, "v", schema, out);
        },
        Type::Mapping(k, v) => {
            go_decode_lazy_view_type(k, "v.Key", schema, out);
            go_decode_lazy_view_type(v, "v.Value", schema, out);
        },
        _ => {},
    }
    assert(out@ =~= before_decode + spec_item_decode(f@, schema@.items));
    push_literal(out, "return v,e}\n");
    assert(out@ =~= start + spec_collection_head(cn@, rn@, it@, f@, schema@.items));
}

fn push_collection_at(out: &mut String, cn: &String, rn: &String, it: &String)
    ensures
        final(out)@ == old(out)@ + spec_collection_at(cn@, rn@, it@),
{
    let ghost start = out@;
    push_literal(out, "func (v ");
    out.append(cn.as_str());
    push_literal(out, ") At(i int) (");
    out.append(it.as_str());
    push_literal(out, ",bool) { var zero ");
    out.append(it.as_str());
    push_literal(
        out,
        "; if i<0||i>=v.count{return zero,false}; d:=wireDecoder{b:v.wire,p:v.start}; var value ",
    );
    out.append(it.as_str());
    push_literal(out, "; var e error; for n:=0;n<=i;n++{value,e=");
    out.append(rn.as_str());
    push_literal(out, "(&d);if e!=nil{return zero,false}}; return value,true }\ntype ");
    assert(out@ =~= start + spec_collection_at(cn@, rn@, it@));
}

fn push_collection_iter(out: &mut String, cn: &String, rn: &String, it: &String)
    ensures
        final(out)@ == old(out)@ + spec_collection_iter(cn@, rn@, it@),
{
    let ghost start = out@;
    out.append(cn.as_str());
    push_literal(out, "Iter struct{ view ");
    out.append(cn.as_str());
    push_literal(out, "; index int; decoder wireDecoder }\nfunc (v ");
    out.append(cn.as_str());
    push_literal(out, ") Iter() *");
    out.append(cn.as_str());
    push_literal(out, "Iter { return &");
    out.append(cn.as_str());
    push_literal(out, "Iter{view:v,decoder:wireDecoder{b:v.wire,p:v.start}} }\nfunc (it *");
    out.append(cn.as_str());
    push_literal(out, "Iter) Next() (");
    out.append(it.as_str());
    push_literal(out, ",bool) { var zero ");
    out.append(it.as_str());
    push_literal(out, ";if it.index>=it.view.count{return zero,false};value,e:=");
    out.append(rn.as_str());
    push_literal(out, "(&it.decoder);if e!=nil{return zero,false};it.index++;return value,true }\n");
    assert(out@ =~= start + spec_collection_iter(cn@, rn@, it@));
}

fn push_collection_access(out: &mut String, cn: &String, rn: &String, it: &String)
    ensures
        final(out)@ == old(out)@ + spec_collection_access(cn@, rn@, it@),
{
    let ghost start = out@;
    push_collection_at(out, cn, rn, it);
    push_collection_iter(out, cn, rn, it);
    assert(out@ =~= start + spec_collection_access(cn@, rn@, it@));
}

fn push_collection_decls(out: &mut String, prefix: &str, f: &Field, schema: &Schema)
    ensures
        final(out)@ == old(out)@ + spec_collection_decls(prefix@, f@, schema@.items),
{
    let ghost start = out@;
    let cn = collection_name(prefix, &f.name);
    let rn = item_reader(prefix, &f.name);
    let it = item_type(prefix, f, schema);
    push_entry_type(out, &it, &f.ty, schema);
    push_collection_head(out, &cn, &rn, &it, f, schema);
    push_collection_access(out, &cn, &rn, &it);
    proof {
        reveal(spec_collection_decls);
    }
    assert(out@ =~= start + spec_collection_decls(prefix@, f@, schema@.items));
}

/// The declarations of each collection field of `fields`, named after
/// `prefix`.
pub open spec fn spec_collections_decls(prefix: Seq<char>, fields: Seq<FieldModel>, items: Seq<ItemModel>) -> Seq<
    char,
> {
    spec_concat(
        fields.map_values(
            |f: FieldModel|
                if spec_is_collection(f.ty) {
                    spec_collection_decls(prefix, f, items)
                } else {
                    seq![]
                },
        ),
    )
}

pub(crate) fn push_collections_decls(out: &mut String, prefix: &str, fields: &Vec<Field>, schema: &Schema)
    ensures
        final(out)@ == old(out)@ + spec_collections_decls(
            prefix@,
            fields@.map_values(|f: Field| f@),
            schema@.items,
        ),
{
    let ghost items = schema@.items;
    let ghost model = fields@.map_values(|f: Field| f@);
    let ghost parts = model.map_values(
        |f: FieldModel|
            if spec_is_collection(f.ty) {
                spec_collection_decls(prefix@, f, items)
            } else {
                seq![]
            },
    );
    let ghost head = out@;
    let mut i: usize = 0;
    while i < fields.len()
        invariant
            i <= fields@.len() == model.len() == parts.len(),
            items == schema@.items,
            model == fields@.map_values(|f: Field| f@),
            parts == model.map_values(
                |f: FieldModel|
                    if spec_is_collection(f.ty) {
                        spec_collection_decls(prefix@, f, items)
                    } else {
                        seq![]
                    },
            ),
            out@ == head + spec_concat(parts.take(i as int)),
        decreases fields@.len() - i,
    {
        proof {
            lemma_concat_step(parts, i as int);
        }
        let ghost before = out@;
        if is_collection(&fields[i].ty) {
            push_collection_decls(out, prefix, &fields[i], schema);
        }
        assert(out@ =~= before + parts[i as int]);
        assert(out@ =~= head + spec_concat(parts.take(i + 1)));
        i = i + 1;
    }
    assert(parts.take(fields@.len() as int) =~= parts);
}

// ---------------------------------------------------------------------------
// Lazy views of structs
// ---------------------------------------------------------------------------

/// A lazy view member: a collection field as its lazy collection, any other
/// field as its lazy view type.
pub open spec fn spec_lazy_member(f: FieldModel, fields: Seq<FieldModel>, name: Seq<char>, items: Seq<ItemModel>) -> Seq<
    char,
> {
    " "@ + spec_pascal_case(f.name) + " "@ + if spec_collection_named(fields, f.name) {
        spec_collection_name(name, f.name)
    } else {
        spec_go_lazy_view_type(f.ty, items)
    } + ";"@
}

/// The statements that count a collection field of a struct's lazy view,
/// step over its items once and keep where they start.
pub open spec fn spec_collection_scan(name: Seq<char>, f: FieldModel) -> Seq<char> {
    spec_count_head() + "var start=d.p;for i:=0;i<c;i++{_,e="@ + spec_item_reader(name, f.name)
        + "(d);if e!=nil{return v,e}};"@ + "v."@ + spec_pascal_case(f.name) + "="@
        + spec_collection_name(name, f.name) + "{wire:d.b,start:start,count:c};};"@
}

/// The statements that read a field into a struct's lazy view.
pub open spec fn spec_lazy_field_read(f: FieldModel, fields: Seq<FieldModel>, name: Seq<char>, items: Seq<ItemModel>) -> Seq<
    char,
> {
    let body = if spec_collection_named(fields, f.name) {
        spec_collection_scan(name, f)
    } else {
        spec_go_lazy_decode(f.ty, "v."@ + spec_pascal_case(f.name), items)
    };
    match f.guard {
        Some(guard) => spec_view_guard(guard, fields, items) + body + "};"@,
        None => body,
    }
}

/// The lazy view of a struct with collections: the collections, the view
/// type, its reader and the function that borrows a packet into it.
pub open spec fn spec_go_lazy_struct(st: StructModel, items: Seq<ItemModel>) -> Seq<char> {
    if !(exists|k: int| 0 <= k < st.fields.len() && spec_is_collection(#[trigger] st.fields[k].ty)) {
        seq![]
    } else {
        let name = st.name;
        spec_collections_decls(name, st.fields, items) + "type "@ + name + "LazyView struct{"@
            + spec_concat(
            st.fields.map_values(|f: FieldModel| spec_lazy_member(f, st.fields, name, items)),
        ) + "}\nfunc read"@ + name + "LazyView(d *wireDecoder) ("@ + name
            + "LazyView,error){var v "@ + name + "LazyView;if e:=cid(d,"@ + name
            + "CID);e!=nil{return v,e};var e error;"@ + spec_concat(
            st.fields.map_values(|f: FieldModel| spec_lazy_field_read(f, st.fields, name, items)),
        ) + "return v,e}\nfunc Borrow"@ + name + "Lazy(b []byte) ("@ + name
            + "LazyView,error){d:=wireDecoder{b:b};v,e:=read"@ + name
            + "LazyView(&d);if e==nil{e=d.done()};return v,e}\n\n"@
    }
}

fn any_collection(fields: &Vec<Field>) -> (r: bool)
    ensures
        r == exists|k: int| 0 <= k < fields@.len() && spec_is_collection(#[trigger] fields@[k]@.ty),
{
    let mut i: usize = 0;
    while i < fields.len()
        invariant
            i <= fields@.len(),
            forall|k: int| 0 <= k < i ==> !spec_is_collection(#[trigger] fields@[k]@.ty),
        decreases fields@.len() - i,
    {
        if is_collection(&fields[i].ty) {
            assert(spec_is_collection(fields@[i as int]@.ty));
            return true;
        }
        i = i + 1;
    }
    false
}

fn push_lazy_members(out: &mut String, st: &Struct, schema: &Schema)
    ensures
        final(out)@ == old(out)@ + spec_concat(
            st@.fields.map_values(
                |f: FieldModel| spec_lazy_member(f, st@.fields, st@.name, schema@.items),
            ),
        ),
{
    let ghost items = schema@.items;
    let ghost fields = st@.fields;
    let ghost parts = fields.map_values(|f: FieldModel| spec_lazy_member(f, fields, st@.name, items));
    let ghost head = out@;
    assert(fields == st.fields@.map_values(|f: Field| f@));
    let mut i: usize = 0;
    while i < st.fields.len()
        invariant
            i <= st.fields@.len() == fields.len() == parts.len(),
            fields == st@.fields,
            fields == st.fields@.map_values(|f: Field| f@),
            items == schema@.items,
            parts == fields.map_values(|f: FieldModel| spec_lazy_member(f, fields, st@.name, items)),
            out@ == head + spec_concat(parts.take(i as int)),
        decreases st.fields@.len() - i,
    {
        proof {
            lemma_concat_step(parts, i as int);
        }
        let f = &st.fields[i];
        push_literal(out, " ");
        let pascal = pascal_case(f.name.as_str());
        out.append(pascal.as_str());
        push_literal(out, " ");
        if collection_named(&st.fields, &f.name) {
            let cn = collection_name(st.name.as_str(), &f.name);
            out.append(cn.as_str());
        } else {
            let ty = go_lazy_view_type(&f.ty, schema);
            out.append(ty.as_str());
        }
        push_literal(out, ";");
        assert(out@ =~= head + spec_concat(parts.take(i + 1)));
        i = i + 1;
    }
    assert(parts.take(fields.len() as int) =~= parts);
}

fn push_collection_scan(out: &mut String, name: &String, f: &Field)
    ensures
        final(out)@ == old(out)@ + spec_collection_scan(name@, f@),
{
    let rn = item_reader(name.as_str(), &f.name);
    let cn = collection_name(name.as_str(), &f.name);
    push_count_head(out);
    push_literal(out, "var start=d.p;for i:=0;i<c;i++{_,e=");
    out.append(rn.as_str());
    push_literal(out, "(d);if e!=nil{return v,e}};");
    push_literal(out, "v.");
    let pascal = pascal_case(f.name.as_str());
    out.append(pascal.as_str());
    push_literal(out, "=");
    out.append(cn.as_str());
    push_literal(out, "{wire:d.b,start:start,count:c};};");
    assert(out@ =~= old(out)@ + spec_collection_scan(name@, f@));
}

fn push_lazy_reads(out: &mut String, st: &Struct, schema: &Schema)
    ensures
        final(out)@ == old(out)@ + spec_concat(
            st@.fields.map_values(
                |f: FieldModel| spec_lazy_field_read(f, st@.fields, st@.name, schema@.items),
            ),
        ),
{
    let ghost items = schema@.items;
    let ghost fields = st@.fields;
    let ghost parts = fields.map_values(
        |f: FieldModel| spec_lazy_field_read(f, fields, st@.name, items),
    );
    let ghost head = out@;
    assert(fields == st.fields@.map_values(|f: Field| f@));
    let mut i: usize = 0;
    while i < st.fields.len()
        invariant
            i <= st.fields@.len() == fields.len() == parts.len(),
            fields == st@.fields,
            fields == st.fields@.map_values(|f: Field| f@),
            items == schema@.items,
            parts == fields.map_values(
                |f: FieldModel| spec_lazy_field_read(f, fields, st@.name, items),
            ),
            out@ == head + spec_concat(parts.take(i as int)),
        decreases st.fields@.len() - i,
    {
        proof {
            lemma_concat_step(parts, i as int);
        }
        let f = &st.fields[i];
        let ghost before = out@;
        let collection = collection_named(&st.fields, &f.name);
        match &f.guard {
            Some(guard) => {
                push_view_guard(out, guard, st, schema);
            },
            None => {},
        }
        let ghost body_start = out@;
        if collection {
            push_collection_scan(out, &st.name, f);
        } else {
            let mut lhs = "v.".to_owned();
            let pascal = pascal_case(f.name.as_str());
            lhs.append(pascal.as_str());
            go_decode_lazy_view_type(&f.ty, lhs.as_str(), schema, out);
        }
        if f.guard.is_some() {
            push_literal(out, "};");
        }
        assert(out@ =~= before + spec_lazy_field_read(f@, fields, st@.name, items));
        assert(out@ =~= head + spec_concat(parts.take(i + 1)));
        i = i + 1;
    }
    assert(parts.take(fields.len() as int) =~= parts);
}

fn generate_go_lazy_view_struct(st: &Struct, schema: &Schema, out: &mut String)
    ensures
        final(out)@ == old(out)@ + spec_go_lazy_struct(st@, schema@.items),
{
    let ghost items = schema@.items;
    let ghost start = out@;
    let any = any_collection(&st.fields);
    proof {
        if any {
            let k = choose|k: int|
                0 <= k < st.fields@.len() && spec_is_collection(#[trigger] st.fields@[k]@.ty);
            assert(st@.fields[k] == st.fields@[k]@);
        } else {
            assert forall|k: int| 0 <= k < st@.fields.len() implies !spec_is_collection(
                #[trigger] st@.fields[k].ty,
            ) by {
                assert(st@.fields[k] == st.fields@[k]@);
            }
        }
    }
    if !any {
        assert(out@ =~= start + spec_go_lazy_struct(st@, schema@.items));
        return;
    }
    let name = &st.name;
    push_collections_decls(out, name.as_str(), &st.fields, schema);
    assert(st.fields@.map_values(|f: Field| f@) == st@.fields);
    push_literal(out, "type ");
    out.append(name.as_str());
    push_literal(out, "LazyView struct{");
    push_lazy_members(out, st, schema);
    push_literal(out, "}\nfunc read");
    out.append(name.as_str());
    push_literal(out, "LazyView(d *wireDecoder) (");
    out.append(name.as_str());
    push_literal(out, "LazyView,error){var v ");
    out.append(name.as_str());
    push_literal(out, "LazyView;if e:=cid(d,");
    out.append(name.as_str());
    push_literal(out, "CID);e!=nil{return v,e};var e error;");
    push_lazy_reads(out, st, schema);
    push_literal(out, "return v,e}\nfunc Borrow");
    out.append(name.as_str());
    push_literal(out, "Lazy(b []byte) (");
    out.append(name.as_str());
    push_literal(out, "LazyView,error){d:=wireDecoder{b:b};v,e:=read");
    out.append(name.as_str());
    push_literal(out, "LazyView(&d);if e==nil{e=d.done()};return v,e}\n\n");
    assert(out@ =~= start + spec_go_lazy_struct(st@, schema@.items));
}

/// A struct's view and, when it has collections, its lazy view.
pub open spec fn spec_go_view_struct(st: StructModel, items: Seq<ItemModel>) -> Seq<char> {
    spec_go_view_struct_own(st, items) + spec_go_lazy_struct(st, items)
}

pub(crate) fn generate_go_view_struct(st: &Struct, schema: &Schema, out: &mut String)
    ensures
        final(out)@ == old(out)@ + spec_go_view_struct(st@, schema@.items),
{
    let ghost start = out@;
    go_view_struct_own(st, schema, out);
    generate_go_lazy_view_struct(st, schema, out);
    assert(out@ =~= start + spec_go_view_struct(st@, schema@.items));
}

// ---------------------------------------------------------------------------
// Views of enums
// ---------------------------------------------------------------------------

/// A variant's view type, which implements the enum's view interface.
pub open spec fn spec_view_variant_type(e: EnumModel, v: VariantModel, items: Seq<ItemModel>) -> Seq<char> {
    "type "@ + e.name + v.name + "View struct{"@ + spec_concat(
        v.fields.map_values(|f: FieldModel| spec_view_member(f, items)),
    ) + "}\nfunc ("@ + e.name + v.name + "View)is"@ + e.name + "View(){}\n"@
}

fn push_view_variant_type(out: &mut String, e: &Enum, v: &EnumVariant, schema: &Schema)
    ensures
        final(out)@ == old(out)@ + spec_view_variant_type(e@, v@, schema@.items),
{
    let ghost items = schema@.items;
    let ghost start = out@;
    push_literal(out, "type ");
    out.append(e.name.as_str());
    out.append(v.name.as_str());
    push_literal(out, "View struct{");
    push_view_members(out, &v.fields, schema);
    assert(v.fields@.map_values(|f: Field| spec_view_member(f@, items)) =~= v@.fields.map_values(
        |f: FieldModel| spec_view_member(f, items),
    ));
    push_literal(out, "}\nfunc (");
    out.append(e.name.as_str());
    out.append(v.name.as_str());
    push_literal(out, "View)is");
    out.append(e.name.as_str());
    push_literal(out, "View(){}\n");
    assert(out@ =~= start + spec_view_variant_type(e@, v@, schema@.items));
}

/// A variant's case in the enum's view reader.
pub open spec fn spec_view_variant_read(e: EnumModel, v: VariantModel, schema: crate::ast::SchemaModel) -> Seq<
    char,
> {
    "case string([]byte{"@ + spec_cid_bytes(spec_variant_cid(e, v, schema)) + "}): var v "@ + e.name
        + v.name + "View;"@ + spec_concat(
        v.fields.map_values(
            |f: FieldModel| spec_go_view_decode(f.ty, "v."@ + spec_pascal_case(f.name), schema.items),
        ),
    ) + "return v,e;"@
}

fn push_view_variant_read(out: &mut String, e: &Enum, v: &EnumVariant, schema: &Schema)
    ensures
        final(out)@ == old(out)@ + spec_view_variant_read(e@, v@, schema@),
{
    let ghost items = schema@.items;
    let ghost parts = v@.fields.map_values(
        |f: FieldModel| spec_go_view_decode(f.ty, "v."@ + spec_pascal_case(f.name), items),
    );
    let ghost start = out@;
    push_literal(out, "case string([]byte{");
    let cid = variant_cid_text(e, v, schema);
    let bytes = cid_bytes(&cid);
    out.append(bytes.as_str());
    push_literal(out, "}): var v ");
    out.append(e.name.as_str());
    out.append(v.name.as_str());
    push_literal(out, "View;");
    let ghost head = out@;
    let mut i: usize = 0;
    while i < v.fields.len()
        invariant
            i <= v.fields@.len() == parts.len(),
            items == schema@.items,
            parts == v@.fields.map_values(
                |f: FieldModel| spec_go_view_decode(f.ty, "v."@ + spec_pascal_case(f.name), items),
            ),
            out@ == head + spec_concat(parts.take(i as int)),
        decreases v.fields@.len() - i,
    {
        proof {
            lemma_concat_step(parts, i as int);
            assert(v@.fields[i as int] == v.fields@[i as int]@);
        }
        let f = &v.fields[i];
        let mut lhs = "v.".to_owned();
        let pascal = pascal_case(f.name.as_str());
        lhs.append(pascal.as_str());
        go_decode_view_type(&f.ty, lhs.as_str(), schema, out);
        assert(out@ =~= head + spec_concat(parts.take(i + 1)));
        i = i + 1;
    }
    assert(parts.take(v.fields@.len() as int) =~= parts);
    push_literal(out, "return v,e;");
    assert(out@ =~= start + spec_view_variant_read(e@, v@, schema@));
}

/// An enum's view interface, its variants' view types, its view reader and
/// the function that borrows a packet into it.
pub open spec fn spec_go_view_enum_own(e: EnumModel, schema: crate::ast::SchemaModel) -> Seq<char> {
    "type "@ + e.name + "View interface{is"@ + e.name + "View()}\n"@ + spec_concat(
        e.variants.map_values(|v: VariantModel| spec_view_variant_type(e, v, schema.items)),
    ) + "func read"@ + e.name + "View(d *wireDecoder) ("@ + e.name
        + "View,error) { c,e:=d.take(8);if e!=nil{return nil,e};switch string(c){"@ + spec_concat(
        e.variants.map_values(|v: VariantModel| spec_view_variant_read(e, v, schema)),
    ) + "default:return nil,fmt.Errorf(\"unknown constructor\")}}\nfunc Borrow"@ + e.name
        + "(b []byte) ("@ + e.name + "View,error) { d:=wireDecoder{b:b}; v,e:=read"@ + e.name
        + "View(&d);if e==nil{e=d.done()};return v,e }\n\n"@
}

fn push_view_variant_types(out: &mut String, e: &Enum, schema: &Schema)
    ensures
        final(out)@ == old(out)@ + spec_concat(
            e@.variants.map_values(|v: VariantModel| spec_view_variant_type(e@, v, schema@.items)),
        ),
{
    let ghost items = schema@.items;
    let ghost parts = e@.variants.map_values(|v: VariantModel| spec_view_variant_type(e@, v, items));
    let ghost head = out@;
    let mut i: usize = 0;
    while i < e.variants.len()
        invariant
            i <= e.variants@.len() == parts.len(),
            items == schema@.items,
            parts == e@.variants.map_values(|v: VariantModel| spec_view_variant_type(e@, v, items)),
            out@ == head + spec_concat(parts.take(i as int)),
        decreases e.variants@.len() - i,
    {
        proof {
            lemma_concat_step(parts, i as int);
            assert(e@.variants[i as int] == e.variants@[i as int]@);
        }
        push_view_variant_type(out, e, &e.variants[i], schema);
        assert(out@ =~= head + spec_concat(parts.take(i + 1)));
        i = i + 1;
    }
    assert(parts.take(e.variants@.len() as int) =~= parts);
}

fn push_view_variant_reads(out: &mut String, e: &Enum, schema: &Schema)
    ensures
        final(out)@ == old(out)@ + spec_concat(
            e@.variants.map_values(|v: VariantModel| spec_view_variant_read(e@, v, schema@)),
        ),
{
    let ghost model = schema@;
    let ghost parts = e@.variants.map_values(|v: VariantModel| spec_view_variant_read(e@, v, model));
    let ghost head = out@;
    let mut i: usize = 0;
    while i < e.variants.len()
        invariant
            i <= e.variants@.len() == parts.len(),
            model == schema@,
            parts == e@.variants.map_values(|v: VariantModel| spec_view_variant_read(e@, v, model)),
            out@ == head + spec_concat(parts.take(i as int)),
        decreases e.variants@.len() - i,
    {
        proof {
            lemma_concat_step(parts, i as int);
            assert(e@.variants[i as int] == e.variants@[i as int]@);
        }
        push_view_variant_read(out, e, &e.variants[i], schema);
        assert(out@ =~= head + spec_concat(parts.take(i + 1)));
        i = i + 1;
    }
    assert(parts.take(e.variants@.len() as int) =~= parts);
}

#[verifier::spinoff_prover]
pub(crate) fn go_view_enum_own(e: &Enum, schema: &Schema, out: &mut String)
    ensures
        final(out)@ == old(out)@ + spec_go_view_enum_own(e@, schema@),
{
    let ghost start = out@;
    push_literal(out, "type ");
    out.append(e.name.as_str());
    push_literal(out, "View interface{is");
    out.append(e.name.as_str());
    push_literal(out, "View()}\n");
    push_view_variant_types(out, e, schema);
    push_literal(out, "func read");
    out.append(e.name.as_str());
    push_literal(out, "View(d *wireDecoder) (");
    out.append(e.name.as_str());
    push_literal(out, "View,error) { c,e:=d.take(8);if e!=nil{return nil,e};switch string(c){");
    push_view_variant_reads(out, e, schema);
    push_literal(out, "default:return nil,fmt.Errorf(\"unknown constructor\")}}\nfunc Borrow");
    out.append(e.name.as_str());
    push_literal(out, "(b []byte) (");
    out.append(e.name.as_str());
    push_literal(out, "View,error) { d:=wireDecoder{b:b}; v,e:=read");
    out.append(e.name.as_str());
    push_literal(out, "View(&d);if e==nil{e=d.done()};return v,e }\n\n");
    assert(out@ =~= start + spec_go_view_enum_own(e@, schema@));
}

} // verus!
