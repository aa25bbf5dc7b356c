//! The canonical form of a constructor and the Constructor ID hashed from it.

use vstd::prelude::*;
use vstd::string::StringExecFns;
use vstd::utf8::encode_utf8;

use crate::ast::{
    fields_model, items_model, text_model, Alias, AliasModel, Enum, EnumModel, EnumVariant, Field,
    FieldModel, Item, ItemModel, Schema, SchemaModel, Struct, StructModel, Type, TypeModel,
    VariantModel,
};
use crate::text::{
    ascii_chars, decimal, hex_digit, hex_lower, lemma_hex_bytes_ascii, spec_decimal, spec_hex_bytes,
};

verus! {

// ---------------------------------------------------------------------------
// Canonical text
// ---------------------------------------------------------------------------

/// The text of a number.
pub open spec fn spec_number(n: nat) -> Seq<char> {
    ascii_chars(spec_decimal(n))
}

/// The canonical text of a type, with named types as they are written.
pub open spec fn spec_type_canonical(ty: TypeModel) -> Seq<char>
    decreases ty,
{
    match ty {
        TypeModel::Primitive(name) => name,
        TypeModel::FixedBytes(n) => seq!['b', 'y', 't', 'e', 's', '['] + spec_number(n) + seq![']'],
        TypeModel::Optional(item) => seq!['O', 'p', 't', 'i', 'o', 'n', 'a', 'l', '<']
            + spec_type_canonical(*item) + seq!['>'],
        TypeModel::Vec(item) => seq!['V', 'e', 'c', '<'] + spec_type_canonical(*item) + seq!['>'],
        TypeModel::Mapping(key, value) => seq!['M', 'a', 'p', '<'] + spec_type_canonical(*key)
            + seq![','] + spec_type_canonical(*value) + seq!['>'],
    }
}

/// What follows the last `.` of `s`, or all of `s` when it has no `.`.
pub open spec fn spec_last_segment(s: Seq<char>) -> Seq<char>
    decreases s.len(),
{
    if s.len() == 0 {
        s
    } else if s.last() == '.' {
        seq![]
    } else {
        spec_last_segment(s.drop_last()).push(s.last())
    }
}

/// `[bit]` for a guarded field, nothing otherwise.
pub open spec fn spec_guard_canonical(guard: Option<Seq<char>>) -> Seq<char> {
    match guard {
        Some(g) => seq!['['] + spec_last_segment(g) + seq![']'],
        None => seq![],
    }
}

/// `{exact_len=n}` for a byte field of exact length, nothing otherwise.
pub open spec fn spec_exact_len_canonical(exact_len: Option<usize>) -> Seq<char> {
    match exact_len {
        Some(n) => seq!['{', 'e', 'x', 'a', 'c', 't', '_', 'l', 'e', 'n', '='] + spec_number(
            n as nat,
        ) + seq!['}'],
        None => seq![],
    }
}

/// The canonical text of a field: guard bit, name, type, exact length.
pub open spec fn spec_field_canonical(field: FieldModel) -> Seq<char> {
    spec_guard_canonical(field.guard) + field.name + seq![':'] + spec_type_canonical(field.ty)
        + spec_exact_len_canonical(field.exact_len)
}

/// The canonical texts of `fields`, separated by `|`.
pub open spec fn spec_fields_canonical(fields: Seq<FieldModel>) -> Seq<char>
    decreases fields.len(),
{
    if fields.len() == 0 {
        seq![]
    } else if fields.len() == 1 {
        spec_field_canonical(fields[0])
    } else {
        spec_fields_canonical(fields.drop_last()) + seq!['|'] + spec_field_canonical(fields.last())
    }
}

/// The canonical form of a struct: its name, then its fields, each after a
/// `|`-separated position.
pub open spec fn spec_canonical_form(item: StructModel) -> Seq<char> {
    item.name + seq!['|'] + spec_fields_canonical(item.fields)
}

/// The canonical form of an enum variant: enum name, variant name, fields.
pub open spec fn spec_variant_canonical_form(item: EnumModel, variant: VariantModel) -> Seq<char> {
    item.name + seq!['|'] + variant.name + seq!['|'] + spec_fields_canonical(variant.fields)
}

pub(crate) fn push_literal(out: &mut String, text: &str)
    ensures
        final(out)@ == old(out)@ + text@,
{
    out.append(text);
}

pub(crate) fn type_canonical(ty: &Type) -> (r: String)
    ensures
        r@ == spec_type_canonical(ty@),
    decreases ty,
{
    match ty {
        Type::Primitive(name) => name.clone(),
        Type::FixedBytes(length) => {
            let mut out = String::new();
            push_literal(&mut out, "bytes[");
            let digits = decimal(*length as u64);
            out.append(digits.as_str());
            push_literal(&mut out, "]");
            proof {
                reveal_strlit("bytes[");
                reveal_strlit("]");
            }
            assert(out@ =~= spec_type_canonical(ty@));
            out
        },
        Type::Optional(item) => {
            let mut out = String::new();
            push_literal(&mut out, "Optional<");
            let inner = type_canonical(item);
            out.append(inner.as_str());
            push_literal(&mut out, ">");
            proof {
                reveal_strlit("Optional<");
                reveal_strlit(">");
            }
            assert(out@ =~= spec_type_canonical(ty@));
            out
        },
        Type::Vec(item) => {
            let mut out = String::new();
            push_literal(&mut out, "Vec<");
            let inner = type_canonical(item);
            out.append(inner.as_str());
            push_literal(&mut out, ">");
            proof {
                reveal_strlit("Vec<");
                reveal_strlit(">");
            }
            assert(out@ =~= spec_type_canonical(ty@));
            out
        },
        Type::Mapping(key, value) => {
            let mut out = String::new();
            push_literal(&mut out, "Map<");
            let k = type_canonical(key);
            out.append(k.as_str());
            push_literal(&mut out, ",");
            let v = type_canonical(value);
            out.append(v.as_str());
            push_literal(&mut out, ">");
            proof {
                reveal_strlit("Map<");
                reveal_strlit(",");
                reveal_strlit(">");
            }
            assert(out@ =~= spec_type_canonical(ty@));
            out
        },
    }
}

/// What follows the last `.` of `text`.
fn last_segment(text: &String) -> (r: String)
    ensures
        r@ == spec_last_segment(text@),
{
    let s = text.as_str();
    let len = s.unicode_len();
    let mut i: usize = len;
    assert(text@.take(len as int) =~= text@);
    assert(text@.subrange(len as int, len as int) =~= Seq::<char>::empty());
    while i > 0
        invariant
            i <= len == s@.len(),
            s@ == text@,
            spec_last_segment(text@) == spec_last_segment(text@.take(i as int)) + text@.subrange(
                i as int,
                len as int,
            ),
        decreases i,
    {
        let c = s.get_char(i - 1);
        if c == '.' {
            proof {
                assert(text@.take(i as int).last() == '.');
                assert(text@.take(i as int).len() > 0);
            }
            let r = s.substring_char(i, len);
            assert(r@ =~= spec_last_segment(text@));
            return r.to_owned();
        }
        proof {
            let t = text@.take(i as int);
            assert(t.drop_last() =~= text@.take(i - 1));
            assert(t.last() == c);
            assert(seq![c] + text@.subrange(i as int, len as int) =~= text@.subrange(
                i - 1,
                len as int,
            ));
            assert(spec_last_segment(text@.take(i - 1)).push(c) + text@.subrange(i as int, len as int)
                =~= spec_last_segment(text@.take(i - 1)) + text@.subrange(i - 1, len as int));
        }
        i = i - 1;
    }
    assert(text@.take(0) =~= Seq::<char>::empty());
    assert(text@.subrange(0, len as int) =~= text@);
    text.clone()
}

fn guard_canonical(guard: &Option<String>) -> (r: String)
    ensures
        r@ == spec_guard_canonical(text_model(*guard)),
{
    let mut out = String::new();
    match guard {
        Some(g) => {
            push_literal(&mut out, "[");
            let bit = last_segment(g);
            out.append(bit.as_str());
            push_literal(&mut out, "]");
            proof {
                reveal_strlit("[");
                reveal_strlit("]");
            }
        },
        None => {},
    }
    assert(out@ =~= spec_guard_canonical(text_model(*guard)));
    out
}

fn exact_len_canonical(exact_len: Option<usize>) -> (r: String)
    ensures
        r@ == spec_exact_len_canonical(exact_len),
{
    let mut out = String::new();
    match exact_len {
        Some(length) => {
            push_literal(&mut out, "{exact_len=");
            let digits = decimal(length as u64);
            out.append(digits.as_str());
            push_literal(&mut out, "}");
            proof {
                reveal_strlit("{exact_len=");
                reveal_strlit("}");
            }
        },
        None => {},
    }
    assert(out@ =~= spec_exact_len_canonical(exact_len));
    out
}

fn field_canonical(field: &Field) -> (r: String)
    ensures
        r@ == spec_field_canonical(field@),
{
    let mut out = guard_canonical(&field.guard);
    out.append(field.name.as_str());
    push_literal(&mut out, ":");
    let ty = type_canonical(&field.ty);
    out.append(ty.as_str());
    let exact = exact_len_canonical(field.exact_len);
    out.append(exact.as_str());
    proof {
        reveal_strlit(":");
    }
    assert(out@ =~= spec_field_canonical(field@));
    out
}

/// Appends the canonical texts of `fields`, separated by `|`.
fn push_fields_canonical(out: &mut String, fields: &Vec<Field>)
    ensures
        final(out)@ == old(out)@ + spec_fields_canonical(fields_model(fields@)),
{
    let ghost model = fields_model(fields@);
    let mut i: usize = 0;
    proof {
        reveal_strlit("|");
    }
    assert(old(out)@ =~= old(out)@ + spec_fields_canonical(model.take(0)));
    while i < fields.len()
        invariant
            i <= fields@.len() == model.len(),
            model == fields_model(fields@),
            out@ == old(out)@ + spec_fields_canonical(model.take(i as int)),
            "|"@ == seq!['|'],
        decreases fields@.len() - i,
    {
        if i > 0 {
            push_literal(out, "|");
        }
        let text = field_canonical(&fields[i]);
        out.append(text.as_str());
        proof {
            let t = model.take(i + 1);
            assert(t.drop_last() =~= model.take(i as int));
            assert(t.last() == fields@[i as int]@);
            if i == 0 {
                assert(old(out)@ + spec_fields_canonical(model.take(0)) =~= old(out)@);
            }
            assert(out@ =~= old(out)@ + spec_fields_canonical(t));
        }
        i = i + 1;
    }
    assert(model.take(fields@.len() as int) =~= model);
}

/// The canonical form of a struct, the text its Constructor ID is hashed
/// from: `Name|field|field...`.
pub fn canonical_form(item: &Struct) -> (r: String)
    ensures
        r@ == spec_canonical_form(item@),
{
    let mut out = item.name.clone();
    push_literal(&mut out, "|");
    push_fields_canonical(&mut out, &item.fields);
    proof {
        reveal_strlit("|");
    }
    assert(out@ =~= spec_canonical_form(item@));
    out
}

fn variant_canonical_form(item: &Enum, variant: &EnumVariant) -> (r: String)
    ensures
        r@ == spec_variant_canonical_form(item@, variant@),
{
    let mut out = item.name.clone();
    push_literal(&mut out, "|");
    out.append(variant.name.as_str());
    push_literal(&mut out, "|");
    push_fields_canonical(&mut out, &variant.fields);
    proof {
        reveal_strlit("|");
    }
    assert(out@ =~= spec_variant_canonical_form(item@, variant@));
    out
}

// ---------------------------------------------------------------------------
// Canonical text with aliases resolved
// ---------------------------------------------------------------------------

/// The first alias of `items` named `name`.
pub open spec fn spec_find_alias(items: Seq<ItemModel>, name: Seq<char>) -> Option<AliasModel>
    decreases items.len(),
{
    if items.len() == 0 {
        None
    } else if items[0] is Alias && items[0]->Alias_0.name == name {
        Some(items[0]->Alias_0)
    } else {
        spec_find_alias(items.drop_first(), name)
    }
}

/// How many aliases of `items` are not being expanded.
pub open spec fn spec_unvisited_aliases(items: Seq<ItemModel>, visiting: Seq<Seq<char>>) -> nat
    decreases items.len(),
{
    if items.len() == 0 {
        0
    } else {
        spec_unvisited_aliases(items.drop_first(), visiting) + if items[0] is Alias
            && !visiting.contains(items[0]->Alias_0.name) {
            1nat
        } else {
            0nat
        }
    }
}

pub proof fn lemma_unvisited_aliases_shrink(items: Seq<ItemModel>, visiting: Seq<Seq<char>>, name: Seq<char>)
    requires
        spec_find_alias(items, name) is Some,
        !visiting.contains(name),
    ensures
        spec_unvisited_aliases(items, visiting.push(name)) < spec_unvisited_aliases(
            items,
            visiting,
        ),
    decreases items.len(),
{
    let vp = visiting.push(name);
    let rest = items.drop_first();
    lemma_unvisited_aliases_monotone(rest, visiting, name);
    assert(spec_unvisited_aliases(items, visiting) == spec_unvisited_aliases(rest, visiting) + if items[0] is Alias
            && !visiting.contains(items[0]->Alias_0.name) {
            1nat
        } else {
            0nat
        });
    assert(spec_unvisited_aliases(items, vp) == spec_unvisited_aliases(rest, vp) + if items[0] is Alias
            && !vp.contains(items[0]->Alias_0.name) {
            1nat
        } else {
            0nat
        });
    assert(visiting.push(name)[visiting.len() as int] == name);
    assert(visiting.push(name).contains(name));
    if !(items[0] is Alias && items[0]->Alias_0.name == name) {
        lemma_unvisited_aliases_shrink(items.drop_first(), visiting, name);
        if items[0] is Alias {
            let other = items[0]->Alias_0.name;
            if visiting.push(name).contains(other) {
                let j = choose|j: int| 0 <= j < visiting.len() + 1 && visiting.push(name)[j] == other;
                assert(j < visiting.len());
                assert(visiting[j] == other);
            }
            if visiting.contains(other) {
                let j = choose|j: int| 0 <= j < visiting.len() && visiting[j] == other;
                assert(vp[j] == other);
            }
        }
    }
}

pub proof fn lemma_unvisited_aliases_monotone(
    items: Seq<ItemModel>,
    visiting: Seq<Seq<char>>,
    name: Seq<char>,
)
    ensures
        spec_unvisited_aliases(items, visiting.push(name)) <= spec_unvisited_aliases(
            items,
            visiting,
        ),
    decreases items.len(),
{
    if items.len() > 0 {
        lemma_unvisited_aliases_monotone(items.drop_first(), visiting, name);
        if items[0] is Alias && visiting.contains(items[0]->Alias_0.name) {
            let j = choose|j: int|
                0 <= j < visiting.len() && visiting[j] == items[0]->Alias_0.name;
            assert(visiting.push(name)[j] == items[0]->Alias_0.name);
            assert(visiting.push(name).contains(items[0]->Alias_0.name));
        }
    }
}

/// The canonical text of a type with every alias that is not already being
/// expanded replaced by its own type and exact-length constraint.
pub open spec fn spec_type_canonical_in(
    ty: TypeModel,
    items: Seq<ItemModel>,
    visiting: Seq<Seq<char>>,
) -> Seq<char>
    decreases spec_unvisited_aliases(items, visiting), ty,
{
    match ty {
        TypeModel::Primitive(name) => match spec_find_alias(items, name) {
            None => name,
            Some(alias) => if visiting.contains(name) {
                name
            } else {
                proof {
                    lemma_unvisited_aliases_shrink(items, visiting, name);
                }
                spec_type_canonical_in(alias.ty, items, visiting.push(name))
                    + spec_exact_len_canonical(alias.exact_len)
            },
        },
        TypeModel::FixedBytes(n) => seq!['b', 'y', 't', 'e', 's', '['] + spec_number(n) + seq![']'],
        TypeModel::Optional(item) => seq!['O', 'p', 't', 'i', 'o', 'n', 'a', 'l', '<']
            + spec_type_canonical_in(*item, items, visiting) + seq!['>'],
        TypeModel::Vec(item) => seq!['V', 'e', 'c', '<'] + spec_type_canonical_in(*item, items, visiting)
            + seq!['>'],
        TypeModel::Mapping(key, value) => seq!['M', 'a', 'p', '<'] + spec_type_canonical_in(
            *key,
            items,
            visiting,
        ) + seq![','] + spec_type_canonical_in(*value, items, visiting) + seq!['>'],
    }
}

/// The canonical text of a field with aliases resolved in `items`.
pub open spec fn spec_field_canonical_in(field: FieldModel, items: Seq<ItemModel>) -> Seq<char> {
    spec_guard_canonical(field.guard) + field.name + seq![':'] + spec_type_canonical_in(
        field.ty,
        items,
        seq![],
    ) + spec_exact_len_canonical(field.exact_len)
}

pub open spec fn spec_fields_canonical_in(fields: Seq<FieldModel>, items: Seq<ItemModel>) -> Seq<
    char,
>
    decreases fields.len(),
{
    if fields.len() == 0 {
        seq![]
    } else if fields.len() == 1 {
        spec_field_canonical_in(fields[0], items)
    } else {
        spec_fields_canonical_in(fields.drop_last(), items) + seq!['|'] + spec_field_canonical_in(
            fields.last(),
            items,
        )
    }
}

/// The canonical form of a struct with the aliases of `schema` resolved.
pub open spec fn spec_canonical_form_in(item: StructModel, schema: SchemaModel) -> Seq<char> {
    item.name + seq!['|'] + spec_fields_canonical_in(item.fields, schema.items)
}

pub open spec fn spec_variant_canonical_form_in(
    item: EnumModel,
    variant: VariantModel,
    schema: SchemaModel,
) -> Seq<char> {
    item.name + seq!['|'] + variant.name + seq!['|'] + spec_fields_canonical_in(
        variant.fields,
        schema.items,
    )
}

/// The first alias of `items` named `name`.
fn find_alias<'a>(items: &'a Vec<Item>, name: &String) -> (r: Option<&'a Alias>)
    ensures
        match spec_find_alias(items_model(items@), name@) {
            Some(a) => r matches Some(x) && x@ == a,
            None => r is None,
        },
{
    let ghost model = items_model(items@);
    let mut i: usize = 0;
    assert(model.skip(0) =~= model);
    while i < items.len()
        invariant
            i <= items@.len() == model.len(),
            model == items_model(items@),
            spec_find_alias(model, name@) == spec_find_alias(model.skip(i as int), name@),
        decreases items@.len() - i,
    {
        proof {
            assert(model.skip(i as int).drop_first() =~= model.skip(i + 1));
            assert(model.skip(i as int)[0] == items@[i as int]@);
        }
        match &items[i] {
            Item::Alias(alias) => {
                if alias.name == *name {
                    return Some(alias);
                }
            },
            _ => {},
        }
        i = i + 1;
    }
    None
}

/// Whether `names` holds `name`.
fn contains_name(names: &Vec<String>, name: &String) -> (r: bool)
    ensures
        r == names.deep_view().contains(name@),
{
    let mut i: usize = 0;
    while i < names.len()
        invariant
            i <= names@.len(),
            forall|j: int| 0 <= j < i ==> names@[j]@ != name@,
        decreases names@.len() - i,
    {
        if names[i] == *name {
            assert(names.deep_view()[i as int] == name@);
            return true;
        }
        i = i + 1;
    }
    proof {
        if names.deep_view().contains(name@) {
            let j = choose|j: int| 0 <= j < names.deep_view().len() && names.deep_view()[j] == name@;
            assert(names@[j]@ == name@);
        }
    }
    false
}

fn type_canonical_in(ty: &Type, schema: &Schema, visiting: &mut Vec<String>) -> (r: String)
    ensures
        final(visiting).deep_view() == old(visiting).deep_view(),
        r@ == spec_type_canonical_in(ty@, schema@.items, old(visiting).deep_view()),
    decreases spec_unvisited_aliases(schema@.items, old(visiting).deep_view()), *ty,
{
    match ty {
        Type::Primitive(name) => {
            let alias = match find_alias(&schema.items, name) {
                Some(alias) => alias,
                None => return name.clone(),
            };
            if contains_name(visiting, name) {
                return name.clone();
            }
            let ghost before = visiting.deep_view();
            visiting.push(name.clone());
            proof {
                assert(visiting.deep_view() =~= before.push(name@));
                lemma_unvisited_aliases_shrink(schema@.items, before, name@);
            }
            let mut out = type_canonical_in(&alias.ty, schema, visiting);
            let constraint = exact_len_canonical(alias.exact_len);
            out.append(constraint.as_str());
            let ghost mid = visiting@;
            visiting.pop();
            proof {
                assert(mid.len() == before.len() + 1);
                assert forall|j: int| 0 <= j < before.len() implies visiting.deep_view()[j]
                    == before[j] by {
                    assert(visiting@[j] == mid[j]);
                    assert(before.push(name@)[j] == before[j]);
                }
                assert(visiting.deep_view() =~= before);
            }
            out
        },
        Type::FixedBytes(length) => {
            let mut out = String::new();
            push_literal(&mut out, "bytes[");
            let digits = decimal(*length as u64);
            out.append(digits.as_str());
            push_literal(&mut out, "]");
            proof {
                reveal_strlit("bytes[");
                reveal_strlit("]");
            }
            assert(out@ =~= spec_type_canonical_in(ty@, schema@.items, old(visiting).deep_view()));
            out
        },
        Type::Optional(item) => {
            let mut out = String::new();
            push_literal(&mut out, "Optional<");
            let inner = type_canonical_in(item, schema, visiting);
            out.append(inner.as_str());
            push_literal(&mut out, ">");
            proof {
                reveal_strlit("Optional<");
                reveal_strlit(">");
            }
            assert(out@ =~= spec_type_canonical_in(ty@, schema@.items, old(visiting).deep_view()));
            out
        },
        Type::Vec(item) => {
            let mut out = String::new();
            push_literal(&mut out, "Vec<");
            let inner = type_canonical_in(item, schema, visiting);
            out.append(inner.as_str());
            push_literal(&mut out, ">");
            proof {
                reveal_strlit("Vec<");
                reveal_strlit(">");
            }
            assert(out@ =~= spec_type_canonical_in(ty@, schema@.items, old(visiting).deep_view()));
            out
        },
        Type::Mapping(key, value) => {
            let mut out = String::new();
            push_literal(&mut out, "Map<");
            let k = type_canonical_in(key, schema, visiting);
            out.append(k.as_str());
            push_literal(&mut out, ",");
            let v = type_canonical_in(value, schema, visiting);
            out.append(v.as_str());
            push_literal(&mut out, ">");
            proof {
                reveal_strlit("Map<");
                reveal_strlit(",");
                reveal_strlit(">");
            }
            assert(out@ =~= spec_type_canonical_in(ty@, schema@.items, old(visiting).deep_view()));
            out
        },
    }
}

fn field_canonical_in(field: &Field, schema: &Schema) -> (r: String)
    ensures
        r@ == spec_field_canonical_in(field@, schema@.items),
{
    let mut out = guard_canonical(&field.guard);
    out.append(field.name.as_str());
    push_literal(&mut out, ":");
    let mut visiting: Vec<String> = Vec::new();
    proof {
        assert(visiting.deep_view() =~= Seq::<Seq<char>>::empty());
    }
    let ty = type_canonical_in(&field.ty, schema, &mut visiting);
    out.append(ty.as_str());
    let exact = exact_len_canonical(field.exact_len);
    out.append(exact.as_str());
    proof {
        reveal_strlit(":");
    }
    assert(out@ =~= spec_field_canonical_in(field@, schema@.items));
    out
}

fn push_fields_canonical_in(out: &mut String, fields: &Vec<Field>, schema: &Schema)
    ensures
        final(out)@ == old(out)@ + spec_fields_canonical_in(fields_model(fields@), schema@.items),
{
    let ghost model = fields_model(fields@);
    let mut i: usize = 0;
    proof {
        reveal_strlit("|");
    }
    assert(old(out)@ =~= old(out)@ + spec_fields_canonical_in(model.take(0), schema@.items));
    while i < fields.len()
        invariant
            i <= fields@.len() == model.len(),
            model == fields_model(fields@),
            out@ == old(out)@ + spec_fields_canonical_in(model.take(i as int), schema@.items),
            "|"@ == seq!['|'],
        decreases fields@.len() - i,
    {
        if i > 0 {
            push_literal(out, "|");
        }
        let text = field_canonical_in(&fields[i], schema);
        out.append(text.as_str());
        proof {
            let t = model.take(i + 1);
            assert(t.drop_last() =~= model.take(i as int));
            assert(t.last() == fields@[i as int]@);
            if i == 0 {
                assert(old(out)@ + spec_fields_canonical_in(model.take(0), schema@.items)
                    =~= old(out)@);
            }
            assert(out@ =~= old(out)@ + spec_fields_canonical_in(t, schema@.items));
        }
        i = i + 1;
    }
    assert(model.take(fields@.len() as int) =~= model);
}

/// The canonical form of a struct with the aliases of `schema` resolved, so
/// that a constraint an alias carries is part of the form.
pub fn canonical_form_with_schema(item: &Struct, schema: &Schema) -> (r: String)
    ensures
        r@ == spec_canonical_form_in(item@, schema@),
{
    let mut out = item.name.clone();
    push_literal(&mut out, "|");
    push_fields_canonical_in(&mut out, &item.fields, schema);
    proof {
        reveal_strlit("|");
    }
    assert(out@ =~= spec_canonical_form_in(item@, schema@));
    out
}

fn variant_canonical_form_with_schema(item: &Enum, variant: &EnumVariant, schema: &Schema) -> (r:
    String)
    ensures
        r@ == spec_variant_canonical_form_in(item@, variant@, schema@),
{
    let mut out = item.name.clone();
    push_literal(&mut out, "|");
    out.append(variant.name.as_str());
    push_literal(&mut out, "|");
    push_fields_canonical_in(&mut out, &variant.fields, schema);
    proof {
        reveal_strlit("|");
    }
    assert(out@ =~= spec_variant_canonical_form_in(item@, variant@, schema@));
    out
}

// ---------------------------------------------------------------------------
// Constructor IDs
// ---------------------------------------------------------------------------

/// The BLAKE3 digest of `input`.
pub uninterp spec fn blake3_digest(input: Seq<u8>) -> Seq<u8>;

/// `blake3::hash`: the 32-byte BLAKE3 digest of `input`. Claimed: the digest
/// is a function of the input bytes alone.
#[verifier::external_body]
fn blake3_hash(input: &[u8]) -> (r: [u8; 32])
    ensures
        r@ == blake3_digest(input@),
{
    *blake3::hash(input).as_bytes()
}

/// The textual Constructor ID of a canonical form: the first eight bytes of
/// its BLAKE3 digest as sixteen lowercase hexadecimal digits.
pub open spec fn spec_cid_of_digest(digest: Seq<u8>) -> Seq<char> {
    ascii_chars(spec_hex_bytes(digest.take(8)))
}

/// The Constructor ID text that a digest gives.
pub fn cid_of_digest(digest: &[u8; 32]) -> (r: String)
    ensures
        r@ == spec_cid_of_digest(digest@),
{
    let head = vstd::slice::slice_subrange(digest.as_slice(), 0, 8);
    hex_lower(head)
}

/// The Constructor ID of a canonical form.
fn cid_of_canonical(canonical: &String) -> (r: String)
    ensures
        r@ == spec_cid_of_digest(blake3_digest(encode_utf8(canonical@))),
{
    let digest = blake3_hash(canonical.as_str().as_bytes());
    cid_of_digest(&digest)
}

/// The Constructor ID of a struct, hashed from its canonical form.
pub fn constructor_cid(item: &Struct) -> (r: String)
    ensures
        r@ == spec_cid_of_digest(blake3_digest(encode_utf8(spec_canonical_form(item@)))),
{
    let canonical = canonical_form(item);
    cid_of_canonical(&canonical)
}

/// The Constructor ID of a struct, hashed from its canonical form with the
/// aliases of `schema` resolved.
pub fn constructor_cid_with_schema(item: &Struct, schema: &Schema) -> (r: String)
    ensures
        r@ == spec_cid_of_digest(blake3_digest(encode_utf8(spec_canonical_form_in(item@, schema@)))),
{
    let canonical = canonical_form_with_schema(item, schema);
    cid_of_canonical(&canonical)
}

/// The Constructor ID of an enum variant.
pub fn variant_cid(item: &Enum, variant: &EnumVariant) -> (r: String)
    ensures
        r@ == spec_cid_of_digest(
            blake3_digest(encode_utf8(spec_variant_canonical_form(item@, variant@))),
        ),
{
    let canonical = variant_canonical_form(item, variant);
    cid_of_canonical(&canonical)
}

/// The Constructor ID of an enum variant with the aliases of `schema`
/// resolved.
pub fn variant_cid_with_schema(item: &Enum, variant: &EnumVariant, schema: &Schema) -> (r: String)
    ensures
        r@ == spec_cid_of_digest(
            blake3_digest(encode_utf8(spec_variant_canonical_form_in(item@, variant@, schema@))),
        ),
{
    let canonical = variant_canonical_form_with_schema(item, variant, schema);
    cid_of_canonical(&canonical)
}

// ---------------------------------------------------------------------------
// Laws
// ---------------------------------------------------------------------------

/// The canonical form, and so the Constructor ID, of a struct depends on its
/// name and its fields (order, types, guards, exact lengths) alone: not on a
/// declared `#[cid(...)]`, the Layer, or how the source was laid out.
pub proof fn lemma_canonical_form_of_name_and_fields(a: StructModel, b: StructModel)
    requires
        a.name == b.name,
        a.fields == b.fields,
    ensures
        spec_canonical_form(a) == spec_canonical_form(b),
{
}

/// Within a schema, the canonical forms, and so the Constructor IDs, of a
/// struct and of an enum's variant depend on the schema's items alone: not
/// on its Layer, its comments or its RPC functions.
pub proof fn lemma_canonical_form_ignores_layer_and_comments(
    a: SchemaModel,
    b: SchemaModel,
    st: StructModel,
    e: EnumModel,
    v: VariantModel,
)
    requires
        a.items == b.items,
    ensures
        spec_canonical_form_in(st, a) == spec_canonical_form_in(st, b),
        spec_variant_canonical_form_in(e, v, a) == spec_variant_canonical_form_in(e, v, b),
{
}

/// Texts that both start with `head`, then a name without `sep`, then
/// `sep`, are equal only when the names are.
pub(crate) proof fn lemma_names_before_separator(
    head: Seq<char>,
    n1: Seq<char>,
    n2: Seq<char>,
    sep: char,
    tail1: Seq<char>,
    tail2: Seq<char>,
)
    requires
        !n1.contains(sep),
        !n2.contains(sep),
        head + n1 + seq![sep] + tail1 == head + n2 + seq![sep] + tail2,
    ensures
        n1 == n2,
{
    let s1 = head + n1 + seq![sep] + tail1;
    let s2 = head + n2 + seq![sep] + tail2;
    let h = head.len() as int;
    if n1.len() < n2.len() {
        assert(s1[h + n1.len()] == sep);
        assert(s2[h + n1.len()] == n2[n1.len() as int]);
        assert(n2.contains(n2[n1.len() as int]));
    } else if n2.len() < n1.len() {
        assert(s2[h + n2.len()] == sep);
        assert(s1[h + n2.len()] == n1[n2.len() as int]);
        assert(n1.contains(n1[n2.len() as int]));
    } else {
        assert forall|i: int| 0 <= i < n1.len() implies n1[i] == n2[i] by {
            assert(s1[h + i] == n1[i]);
            assert(s2[h + i] == n2[i]);
        }
        assert(n1 =~= n2);
    }
}

/// Two variants of one enum with different names have different canonical
/// forms, whatever their fields: the variant's name is part of its form, so
/// variants that carry the same fields still get Constructor IDs of their
/// own. (Names are identifiers, which hold no `|`.)
pub proof fn lemma_variant_names_part_canonical_forms(
    e: EnumModel,
    v1: VariantModel,
    v2: VariantModel,
    schema: SchemaModel,
)
    requires
        !v1.name.contains('|'),
        !v2.name.contains('|'),
        v1.name != v2.name,
    ensures
        spec_variant_canonical_form(e, v1) != spec_variant_canonical_form(e, v2),
        spec_variant_canonical_form_in(e, v1, schema) != spec_variant_canonical_form_in(
            e,
            v2,
            schema,
        ),
{
    let head = e.name + seq!['|'];
    if spec_variant_canonical_form(e, v1) == spec_variant_canonical_form(e, v2) {
        lemma_names_before_separator(
            head,
            v1.name,
            v2.name,
            '|',
            spec_fields_canonical(v1.fields),
            spec_fields_canonical(v2.fields),
        );
    }
    if spec_variant_canonical_form_in(e, v1, schema) == spec_variant_canonical_form_in(e, v2, schema) {
        lemma_names_before_separator(
            head,
            v1.name,
            v2.name,
            '|',
            spec_fields_canonical_in(v1.fields, schema.items),
            spec_fields_canonical_in(v2.fields, schema.items),
        );
    }
}

/// The canonical form of a variant begins with its enum's name, `|`, its
/// own name and `|`; what follows is its fields' form.
pub proof fn lemma_variant_canonical_form_starts_with_names(e: EnumModel, v: VariantModel)
    ensures
        spec_variant_canonical_form(e, v).take((e.name.len() + v.name.len() + 2) as int) == e.name
            + seq!['|'] + v.name + seq!['|'],
        spec_variant_canonical_form(e, v).skip((e.name.len() + v.name.len() + 2) as int)
            == spec_fields_canonical(v.fields),
{
    let s = spec_variant_canonical_form(e, v);
    assert(s.take((e.name.len() + v.name.len() + 2) as int) =~= e.name + seq!['|'] + v.name + seq!['|']);
    assert(s.skip((e.name.len() + v.name.len() + 2) as int) =~= spec_fields_canonical(v.fields));
}

/// Every digit of a hexadecimal text is `0`-`9` or `a`-`f`.
proof fn lemma_hex_digits_lowercase(b: Seq<u8>)
    ensures
        forall|i: int|
            0 <= i < spec_hex_bytes(b).len() ==> (48 <= #[trigger] spec_hex_bytes(b)[i] <= 57
                || 97 <= spec_hex_bytes(b)[i] <= 102),
    decreases b.len(),
{
    lemma_hex_bytes_ascii(b);
    if b.len() > 0 {
        lemma_hex_digits_lowercase(b.drop_first());
        let head = seq![hex_digit((b[0] / 16) as nat), hex_digit((b[0] % 16) as nat)];
        let rest = spec_hex_bytes(b.drop_first());
        assert(spec_hex_bytes(b) == head + rest);
        assert forall|i: int| 0 <= i < spec_hex_bytes(b).len() implies (48
            <= #[trigger] spec_hex_bytes(b)[i] <= 57 || 97 <= spec_hex_bytes(b)[i] <= 102) by {
            if i >= 2 {
                assert(spec_hex_bytes(b)[i] == rest[i - 2]);
            }
        }
    }
}

/// A Constructor ID is sixteen lowercase hexadecimal digits: the first eight
/// bytes of the digest, high nibble first.
pub proof fn lemma_cid_text_shape(digest: Seq<u8>)
    requires
        digest.len() >= 8,
    ensures
        spec_cid_of_digest(digest).len() == 16,
        forall|i: int|
            0 <= i < 16 ==> ('0' <= #[trigger] spec_cid_of_digest(digest)[i] <= '9' || 'a'
                <= spec_cid_of_digest(digest)[i] <= 'f'),
{
    let head = digest.take(8);
    lemma_hex_bytes_ascii(head);
    lemma_hex_digits_lowercase(head);
    assert forall|i: int| 0 <= i < 16 implies ('0' <= #[trigger] spec_cid_of_digest(digest)[i]
        <= '9' || 'a' <= spec_cid_of_digest(digest)[i] <= 'f') by {
        let c = spec_hex_bytes(head)[i];
        assert(48 <= c <= 57 || 97 <= c <= 102);
        assert(spec_cid_of_digest(digest)[i] == c as char);
    }
}

} // verus!
