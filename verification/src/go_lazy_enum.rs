//! The lazy views of a schema's enums with fields: each variant's lazy view
//! type, whose collections are read item by item.

use vstd::prelude::*;
use vstd::string::StringExecFns;

use crate::ast::{
    Enum, EnumModel, EnumVariant, Field, FieldModel, ItemModel, Schema, Type, TypeModel,
    VariantModel,
};
use crate::fingerprint::push_literal;
use crate::go_expr::{go_decode_lazy_view_type, spec_go_lazy_decode};
use crate::go_names::{
    cid_bytes, go_lazy_view_type, pascal_case, spec_cid_bytes, spec_go_lazy_view_type,
    spec_pascal_case,
};
use crate::go_views::{
    collection_name, item_reader, push_collections_decls, spec_collection_name,
    spec_collections_decls, spec_item_reader,
};
use crate::typescript::{lemma_concat_step, spec_concat, spec_variant_cid, variant_cid_text};
use crate::typescript_types::{
    is_bytes_type, is_collection, is_string_type, spec_is_bytes, spec_is_collection, spec_is_string,
};

verus! {

/// The first field of `fields` called `name` that is a lazily read
/// collection.
pub open spec fn spec_collection_field(fields: Seq<FieldModel>, name: Seq<char>) -> Option<FieldModel>
    decreases fields.len(),
{
    if fields.len() == 0 {
        None
    } else if fields[0].name == name && spec_is_collection(fields[0].ty) {
        Some(fields[0])
    } else {
        spec_collection_field(fields.drop_first(), name)
    }
}

/// The first collection field called `field` of a variant called
/// `variant`, variants in order.
pub open spec fn spec_first_collection(
    variants: Seq<VariantModel>,
    variant: Seq<char>,
    field: Seq<char>,
) -> Option<FieldModel>
    decreases variants.len(),
{
    if variants.len() == 0 {
        None
    } else if variants[0].name == variant && spec_collection_field(variants[0].fields, field) is Some {
        spec_collection_field(variants[0].fields, field)
    } else {
        spec_first_collection(variants.drop_first(), variant, field)
    }
}

fn collection_field<'a>(fields: &'a Vec<Field>, name: &String) -> (r: Option<&'a Field>)
    ensures
        match r {
            Some(f) => spec_collection_field(fields@.map_values(|f: Field| f@), name@) == Some(f@),
            None => spec_collection_field(fields@.map_values(|f: Field| f@), name@) is None,
        },
{
    let ghost model = fields@.map_values(|f: Field| f@);
    let mut i: usize = 0;
    assert(model.skip(0) =~= model);
    while i < fields.len()
        invariant
            i <= fields@.len() == model.len(),
            model == fields@.map_values(|f: Field| f@),
            spec_collection_field(model, name@) == spec_collection_field(model.skip(i as int), name@),
        decreases fields@.len() - i,
    {
        assert(model.skip(i as int).drop_first() =~= model.skip(i + 1));
        assert(model.skip(i as int)[0] == fields@[i as int]@);
        if fields[i].name == *name && is_collection(&fields[i].ty) {
            return Some(&fields[i]);
        }
        i = i + 1;
    }
    assert(model.skip(i as int) =~= Seq::<FieldModel>::empty());
    None
}

fn first_collection<'a>(e: &'a Enum, variant: &String, field: &String) -> (r: Option<&'a Field>)
    ensures
        match r {
            Some(f) => spec_first_collection(e@.variants, variant@, field@) == Some(f@),
            None => spec_first_collection(e@.variants, variant@, field@) is None,
        },
{
    let ghost variants = e@.variants;
    let mut i: usize = 0;
    assert(variants.skip(0) =~= variants);
    while i < e.variants.len()
        invariant
            i <= e.variants@.len() == variants.len(),
            variants == e@.variants,
            spec_first_collection(variants, variant@, field@) == spec_first_collection(
                variants.skip(i as int),
                variant@,
                field@,
            ),
        decreases e.variants@.len() - i,
    {
        assert(variants.skip(i as int).drop_first() =~= variants.skip(i + 1));
        assert(variants.skip(i as int)[0] == e.variants@[i as int]@);
        assert(e.variants@[i as int]@.fields == e.variants@[i as int].fields@.map_values(|f: Field| f@));
        if e.variants[i].name == *variant {
            match collection_field(&e.variants[i].fields, field) {
                Some(f) => {
                    return Some(f);
                },
                None => {},
            }
        }
        i = i + 1;
    }
    assert(variants.skip(i as int) =~= Seq::<VariantModel>::empty());
    None
}

/// Some field of some variant is a primitive or a collection: the enum
/// has a lazy view.
pub open spec fn spec_enum_lazy(e: EnumModel) -> bool {
    exists|k: int, j: int|
        0 <= k < e.variants.len() && 0 <= j < e.variants[k].fields.len() && ((
        #[trigger] e.variants[k].fields[j]).ty is Primitive || spec_is_collection(
            e.variants[k].fields[j].ty,
        ))
}

fn enum_lazy(e: &Enum) -> (r: bool)
    ensures
        r == spec_enum_lazy(e@),
{
    let mut k: usize = 0;
    while k < e.variants.len()
        invariant
            k <= e.variants@.len(),
            forall|a: int, b: int|
                0 <= a < k && 0 <= b < e@.variants[a].fields.len() ==> !((
                #[trigger] e@.variants[a].fields[b]).ty is Primitive || spec_is_collection(
                    e@.variants[a].fields[b].ty,
                )),
        decreases e.variants@.len() - k,
    {
        let v = &e.variants[k];
        assert(e@.variants[k as int] == v@);
        let mut j: usize = 0;
        while j < v.fields.len()
            invariant
                k < e.variants@.len(),
                e@.variants[k as int] == v@,
                j <= v.fields@.len(),
                forall|a: int, b: int|
                    0 <= a < k && 0 <= b < e@.variants[a].fields.len() ==> !((
                    #[trigger] e@.variants[a].fields[b]).ty is Primitive || spec_is_collection(
                        e@.variants[a].fields[b].ty,
                    )),
                forall|b: int|
                    0 <= b < j ==> !((#[trigger] e@.variants[k as int].fields[b]).ty is Primitive
                        || spec_is_collection(e@.variants[k as int].fields[b].ty)),
            decreases v.fields@.len() - j,
        {
            let f = &v.fields[j];
            assert(e@.variants[k as int].fields[j as int] == f@);
            let primitive = match &f.ty {
                Type::Primitive(_) => true,
                _ => false,
            };
            if primitive || is_collection(&f.ty) {
                assert(e@.variants[k as int].fields[j as int].ty is Primitive || spec_is_collection(
                    e@.variants[k as int].fields[j as int].ty,
                ));
                return true;
            }
            j = j + 1;
        }
        k = k + 1;
    }
    false
}

/// A variant's lazy view type: a collection field as its lazy collection,
/// any other as its lazy view type.
pub open spec fn spec_lazy_variant_type(e: EnumModel, v: VariantModel, items: Seq<ItemModel>) -> Seq<char> {
    let prefix = e.name + spec_pascal_case(v.name);
    "type "@ + e.name + v.name + "LazyView struct{"@ + spec_concat(
        v.fields.map_values(
            |f: FieldModel|
                " "@ + spec_pascal_case(f.name) + " "@ + if spec_first_collection(
                    e.variants,
                    v.name,
                    f.name,
                ) is Some {
                    spec_collection_name(prefix, f.name)
                } else {
                    spec_go_lazy_view_type(f.ty, items)
                } + ";"@,
        ),
    ) + "}\nfunc ("@ + e.name + v.name + "LazyView)is"@ + e.name + "LazyView(){}\n"@
}

fn variant_prefix(e: &Enum, v: &EnumVariant) -> (r: String)
    ensures
        r@ == e@.name + spec_pascal_case(v@.name),
{
    let mut out = e.name.clone();
    let pascal = pascal_case(v.name.as_str());
    out.append(pascal.as_str());
    out
}

fn push_lazy_variant_type(out: &mut String, e: &Enum, v: &EnumVariant, schema: &Schema)
    ensures
        final(out)@ == old(out)@ + spec_lazy_variant_type(e@, v@, schema@.items),
{
    let ghost items = schema@.items;
    let prefix = variant_prefix(e, v);
    let ghost parts = v@.fields.map_values(
        |f: FieldModel|
            " "@ + spec_pascal_case(f.name) + " "@ + if spec_first_collection(
                e@.variants,
                v@.name,
                f.name,
            ) is Some {
                spec_collection_name(prefix@, f.name)
            } else {
                spec_go_lazy_view_type(f.ty, items)
            } + ";"@,
    );
    let ghost start = out@;
    push_literal(out, "type ");
    out.append(e.name.as_str());
    out.append(v.name.as_str());
    push_literal(out, "LazyView struct{");
    let ghost head = out@;
    let mut i: usize = 0;
    while i < v.fields.len()
        invariant
            i <= v.fields@.len() == parts.len(),
            items == schema@.items,
            prefix@ == e@.name + spec_pascal_case(v@.name),
            parts == v@.fields.map_values(
                |f: FieldModel|
                    " "@ + spec_pascal_case(f.name) + " "@ + if spec_first_collection(
                        e@.variants,
                        v@.name,
                        f.name,
                    ) is Some {
                        spec_collection_name(prefix@, f.name)
                    } else {
                        spec_go_lazy_view_type(f.ty, items)
                    } + ";"@,
            ),
            out@ == head + spec_concat(parts.take(i as int)),
        decreases v.fields@.len() - i,
    {
        proof {
            lemma_concat_step(parts, i as int);
            assert(v@.fields[i as int] == v.fields@[i as int]@);
        }
        let f = &v.fields[i];
        push_literal(out, " ");
        let pascal = pascal_case(f.name.as_str());
        out.append(pascal.as_str());
        push_literal(out, " ");
        if first_collection(e, &v.name, &f.name).is_some() {
            let cn = collection_name(prefix.as_str(), &f.name);
            out.append(cn.as_str());
        } else {
            let ty = go_lazy_view_type(&f.ty, schema);
            out.append(ty.as_str());
        }
        push_literal(out, ";");
        assert(out@ =~= head + spec_concat(parts.take(i + 1)));
        i = i + 1;
    }
    assert(parts.take(v.fields@.len() as int) =~= parts);
    push_literal(out, "}\nfunc (");
    out.append(e.name.as_str());
    out.append(v.name.as_str());
    push_literal(out, "LazyView)is");
    out.append(e.name.as_str());
    push_literal(out, "LazyView(){}\n");
    assert(out@ =~= start + spec_lazy_variant_type(e@, v@, schema@.items));
}

/// How a variant's collection read begins: its count, checked against the
/// limits, failing with no view.
pub open spec fn spec_enum_count_head() -> Seq<char> {
    "{var n uint64;n,e=d.varint();if e!=nil{return nil,e};var c int;c,e=count(n);if e!=nil{return nil,e};"@
}

/// The check that a map's keys increase strictly, in a variant's lazy
/// collection.
pub open spec fn spec_entry_key_check(key: TypeModel) -> Seq<char> {
    if spec_is_string(key) || spec_is_bytes(key) {
        "if i>0&&wireBytesCompare(previousKey,entry.Key)>=0{return nil,fmt.Errorf(\"map keys are not strictly sorted\")};"@
    } else {
        "if i>0&&previousKey>=entry.Key{return nil,fmt.Errorf(\"map keys are not strictly sorted\")};"@
    }
}

/// The statements that count a variant's collection field, step over its
/// items once (checking a map's keys) and keep where they start.
pub open spec fn spec_variant_collection_scan(prefix: Seq<char>, field: Seq<char>, cf: FieldModel, items: Seq<ItemModel>) -> Seq<
    char,
> {
    let cn = spec_collection_name(prefix, field);
    let rn = spec_item_reader(prefix, field);
    let member = spec_pascal_case(cf.name);
    match cf.ty {
        TypeModel::Mapping(key, _) => spec_enum_count_head() + "var start=d.p;var previousKey "@
            + spec_go_lazy_view_type(*key, items) + ";for i:=0;i<c;i++{var entry "@ + prefix + member
            + "Entry;entry,e="@ + rn + "(d);if e!=nil{return nil,e};"@ + spec_entry_key_check(*key)
            + "previousKey=entry.Key};v."@ + member + "="@ + cn + "{wire:d.b,start:start,count:c};};"@,
        _ => spec_enum_count_head() + "var start=d.p;for i:=0;i<c;i++{_,e="@ + rn
            + "(d);if e!=nil{return nil,e}};v."@ + member + "="@ + cn
            + "{wire:d.b,start:start,count:c};};"@,
    }
}

#[verifier::spinoff_prover]
#[verifier::rlimit(40)]
fn push_variant_collection_scan(out: &mut String, prefix: &String, field: &String, cf: &Field, schema: &Schema)
    ensures
        final(out)@ == old(out)@ + spec_variant_collection_scan(prefix@, field@, cf@, schema@.items),
{
    let ghost start = out@;
    let cn = collection_name(prefix.as_str(), field);
    let rn = item_reader(prefix.as_str(), field);
    let member = pascal_case(cf.name.as_str());
    push_literal(
        out,
        "{var n uint64;n,e=d.varint();if e!=nil{return nil,e};var c int;c,e=count(n);if e!=nil{return nil,e};",
    );
    match &cf.ty {
        Type::Mapping(key, _) => {
            push_literal(out, "var start=d.p;var previousKey ");
            let kt = go_lazy_view_type(key, schema);
            out.append(kt.as_str());
            push_literal(out, ";for i:=0;i<c;i++{var entry ");
            out.append(prefix.as_str());
            out.append(member.as_str());
            push_literal(out, "Entry;entry,e=");
            out.append(rn.as_str());
            push_literal(out, "(d);if e!=nil{return nil,e};");
            if is_string_type(key) || is_bytes_type(key) {
                push_literal(
                    out,
                    "if i>0&&wireBytesCompare(previousKey,entry.Key)>=0{return nil,fmt.Errorf(\"map keys are not strictly sorted\")};",
                );
            } else {
                push_literal(
                    out,
                    "if i>0&&previousKey>=entry.Key{return nil,fmt.Errorf(\"map keys are not strictly sorted\")};",
                );
            }
            push_literal(out, "previousKey=entry.Key};v.");
            out.append(member.as_str());
            push_literal(out, "=");
            out.append(cn.as_str());
            push_literal(out, "{wire:d.b,start:start,count:c};};");
        },
        _ => {
            push_literal(out, "var start=d.p;for i:=0;i<c;i++{_,e=");
            out.append(rn.as_str());
            push_literal(out, "(d);if e!=nil{return nil,e}};v.");
            out.append(member.as_str());
            push_literal(out, "=");
            out.append(cn.as_str());
            push_literal(out, "{wire:d.b,start:start,count:c};};");
        },
    }
    assert(out@ =~= start + spec_variant_collection_scan(prefix@, field@, cf@, schema@.items));
}

/// The statements that read a variant's field into its lazy view.
pub open spec fn spec_lazy_variant_field(e: EnumModel, v: VariantModel, f: FieldModel, items: Seq<ItemModel>) -> Seq<
    char,
> {
    match spec_first_collection(e.variants, v.name, f.name) {
        Some(cf) => spec_variant_collection_scan(e.name + spec_pascal_case(v.name), f.name, cf, items),
        None => spec_go_lazy_decode(f.ty, "v."@ + spec_pascal_case(f.name), items),
    }
}

/// A variant's case in the enum's lazy view reader.
pub open spec fn spec_lazy_variant_read(e: EnumModel, v: VariantModel, schema: crate::ast::SchemaModel) -> Seq<
    char,
> {
    "case string([]byte{"@ + spec_cid_bytes(spec_variant_cid(e, v, schema)) + "}):var v "@ + e.name
        + v.name + "LazyView;"@ + spec_concat(
        v.fields.map_values(|f: FieldModel| spec_lazy_variant_field(e, v, f, schema.items)),
    ) + "return v,e;"@
}

fn push_lazy_variant_read(out: &mut String, e: &Enum, v: &EnumVariant, schema: &Schema)
    ensures
        final(out)@ == old(out)@ + spec_lazy_variant_read(e@, v@, schema@),
{
    let ghost items = schema@.items;
    let ghost parts = v@.fields.map_values(|f: FieldModel| spec_lazy_variant_field(e@, v@, f, items));
    let prefix = variant_prefix(e, v);
    let ghost start = out@;
    push_literal(out, "case string([]byte{");
    let cid = variant_cid_text(e, v, schema);
    let bytes = cid_bytes(&cid);
    out.append(bytes.as_str());
    push_literal(out, "}):var v ");
    out.append(e.name.as_str());
    out.append(v.name.as_str());
    push_literal(out, "LazyView;");
    let ghost head = out@;
    let mut i: usize = 0;
    while i < v.fields.len()
        invariant
            i <= v.fields@.len() == parts.len(),
            items == schema@.items,
            prefix@ == e@.name + spec_pascal_case(v@.name),
            parts == v@.fields.map_values(|f: FieldModel| spec_lazy_variant_field(e@, v@, f, items)),
            out@ == head + spec_concat(parts.take(i as int)),
        decreases v.fields@.len() - i,
    {
        proof {
            lemma_concat_step(parts, i as int);
            assert(v@.fields[i as int] == v.fields@[i as int]@);
        }
        let f = &v.fields[i];
        match first_collection(e, &v.name, &f.name) {
            Some(cf) => {
                push_variant_collection_scan(out, &prefix, &f.name, cf, schema);
            },
            None => {
                let mut lhs = "v.".to_owned();
                let pascal = pascal_case(f.name.as_str());
                lhs.append(pascal.as_str());
                go_decode_lazy_view_type(&f.ty, lhs.as_str(), schema, out);
            },
        }
        assert(out@ =~= head + spec_concat(parts.take(i + 1)));
        i = i + 1;
    }
    assert(parts.take(v.fields@.len() as int) =~= parts);
    push_literal(out, "return v,e;");
    assert(out@ =~= start + spec_lazy_variant_read(e@, v@, schema@));
}

/// The declarations of every variant's collections.
pub open spec fn spec_enum_collections_decls(e: EnumModel, items: Seq<ItemModel>) -> Seq<char> {
    spec_concat(
        e.variants.map_values(
            |v: VariantModel| spec_collections_decls(e.name + spec_pascal_case(v.name), v.fields, items),
        ),
    )
}

fn push_enum_collections_decls(out: &mut String, e: &Enum, schema: &Schema)
    ensures
        final(out)@ == old(out)@ + spec_enum_collections_decls(e@, schema@.items),
{
    let ghost items = schema@.items;
    let ghost parts = e@.variants.map_values(
        |v: VariantModel| spec_collections_decls(e@.name + spec_pascal_case(v.name), v.fields, items),
    );
    let ghost head = out@;
    let mut i: usize = 0;
    while i < e.variants.len()
        invariant
            i <= e.variants@.len() == parts.len(),
            items == schema@.items,
            parts == e@.variants.map_values(
                |v: VariantModel|
                    spec_collections_decls(e@.name + spec_pascal_case(v.name), v.fields, items),
            ),
            out@ == head + spec_concat(parts.take(i as int)),
        decreases e.variants@.len() - i,
    {
        proof {
            lemma_concat_step(parts, i as int);
            assert(e@.variants[i as int] == e.variants@[i as int]@);
        }
        let v = &e.variants[i];
        let prefix = variant_prefix(e, v);
        push_collections_decls(out, prefix.as_str(), &v.fields, schema);
        assert(v@.fields == v.fields@.map_values(|f: Field| f@));
        assert(out@ =~= head + spec_concat(parts.take(i + 1)));
        i = i + 1;
    }
    assert(parts.take(e.variants@.len() as int) =~= parts);
}

/// An enum's lazy view: its collections, its lazy view interface and
/// variant types, its reader and the function that borrows a packet into
/// it.
pub open spec fn spec_go_lazy_enum_body(e: EnumModel, schema: crate::ast::SchemaModel) -> Seq<char> {
    spec_enum_collections_decls(e, schema.items) + "type "@ + e.name + "LazyView interface{is"@
        + e.name + "LazyView()}\n"@ + spec_concat(
        e.variants.map_values(|v: VariantModel| spec_lazy_variant_type(e, v, schema.items)),
    ) + "func read"@ + e.name + "LazyView(d *wireDecoder) ("@ + e.name
        + "LazyView,error){c,e:=d.take(8);if e!=nil{return nil,e};switch string(c){"@ + spec_concat(
        e.variants.map_values(|v: VariantModel| spec_lazy_variant_read(e, v, schema)),
    ) + "default:return nil,fmt.Errorf(\"unknown constructor\")}}\nfunc Borrow"@ + e.name
        + "Lazy(b []byte) ("@ + e.name + "LazyView,error){d:=wireDecoder{b:b};v,e:=read"@ + e.name
        + "LazyView(&d);if e==nil{e=d.done()};return v,e}\n\n"@
}

/// The lazy view of an enum that has one.
pub open spec fn spec_go_lazy_enum(e: EnumModel, schema: crate::ast::SchemaModel) -> Seq<char> {
    if spec_enum_lazy(e) {
        spec_go_lazy_enum_body(e, schema)
    } else {
        seq![]
    }
}

fn push_lazy_variant_types(out: &mut String, e: &Enum, schema: &Schema)
    ensures
        final(out)@ == old(out)@ + spec_concat(
            e@.variants.map_values(|v: VariantModel| spec_lazy_variant_type(e@, v, schema@.items)),
        ),
{
    let ghost items = schema@.items;
    let ghost parts = e@.variants.map_values(|v: VariantModel| spec_lazy_variant_type(e@, v, items));
    let ghost head = out@;
    let mut i: usize = 0;
    while i < e.variants.len()
        invariant
            i <= e.variants@.len() == parts.len(),
            items == schema@.items,
            parts == e@.variants.map_values(|v: VariantModel| spec_lazy_variant_type(e@, v, items)),
            out@ == head + spec_concat(parts.take(i as int)),
        decreases e.variants@.len() - i,
    {
        proof {
            lemma_concat_step(parts, i as int);
            assert(e@.variants[i as int] == e.variants@[i as int]@);
        }
        push_lazy_variant_type(out, e, &e.variants[i], schema);
        assert(out@ =~= head + spec_concat(parts.take(i + 1)));
        i = i + 1;
    }
    assert(parts.take(e.variants@.len() as int) =~= parts);
}

fn push_lazy_variant_reads(out: &mut String, e: &Enum, schema: &Schema)
    ensures
        final(out)@ == old(out)@ + spec_concat(
            e@.variants.map_values(|v: VariantModel| spec_lazy_variant_read(e@, v, schema@)),
        ),
{
    let ghost model = schema@;
    let ghost parts = e@.variants.map_values(|v: VariantModel| spec_lazy_variant_read(e@, v, model));
    let ghost head = out@;
    let mut i: usize = 0;
    while i < e.variants.len()
        invariant
            i <= e.variants@.len() == parts.len(),
            model == schema@,
            parts == e@.variants.map_values(|v: VariantModel| spec_lazy_variant_read(e@, v, model)),
            out@ == head + spec_concat(parts.take(i as int)),
        decreases e.variants@.len() - i,
    {
        proof {
            lemma_concat_step(parts, i as int);
            assert(e@.variants[i as int] == e.variants@[i as int]@);
        }
        push_lazy_variant_read(out, e, &e.variants[i], schema);
        assert(out@ =~= head + spec_concat(parts.take(i + 1)));
        i = i + 1;
    }
    assert(parts.take(e.variants@.len() as int) =~= parts);
}

fn go_lazy_enum_body(e: &Enum, schema: &Schema, out: &mut String)
    ensures
        final(out)@ == old(out)@ + spec_go_lazy_enum_body(e@, schema@),
{
    let ghost start = out@;
    push_enum_collections_decls(out, e, schema);
    push_literal(out, "type ");
    out.append(e.name.as_str());
    push_literal(out, "LazyView interface{is");
    out.append(e.name.as_str());
    push_literal(out, "LazyView()}\n");
    push_lazy_variant_types(out, e, schema);
    push_literal(out, "func read");
    out.append(e.name.as_str());
    push_literal(out, "LazyView(d *wireDecoder) (");
    out.append(e.name.as_str());
    push_literal(out, "LazyView,error){c,e:=d.take(8);if e!=nil{return nil,e};switch string(c){");
    push_lazy_variant_reads(out, e, schema);
    push_literal(out, "default:return nil,fmt.Errorf(\"unknown constructor\")}}\nfunc Borrow");
    out.append(e.name.as_str());
    push_literal(out, "Lazy(b []byte) (");
    out.append(e.name.as_str());
    push_literal(out, "LazyView,error){d:=wireDecoder{b:b};v,e:=read");
    out.append(e.name.as_str());
    push_literal(out, "LazyView(&d);if e==nil{e=d.done()};return v,e}\n\n");
    assert(out@ =~= start + spec_go_lazy_enum_body(e@, schema@));
}

pub(crate) fn generate_go_lazy_view_enum(e: &Enum, schema: &Schema, out: &mut String)
    ensures
        final(out)@ == old(out)@ + spec_go_lazy_enum(e@, schema@),
{
    if enum_lazy(e) {
        go_lazy_enum_body(e, schema, out);
    } else {
        assert(out@ =~= old(out)@ + Seq::<char>::empty());
    }
}

} // verus!
