//! The TypeScript binding of a schema: an interface and codec functions for
//! every item, views that read a packet without copying its bytes, and lazy
//! views whose collections are read on demand.

use vstd::prelude::*;
use vstd::string::StringExecFns;

use crate::ast::{
    Enum, EnumModel, EnumVariant, FieldModel, Field, Item, ItemModel, Schema, SchemaModel, Struct, StructModel,
    Type, TypeModel, VariantModel,
};
use crate::text::{
    ascii_lowercase, replace_text, spec_lowercase, spec_replace, spec_without, without_char,
};
use crate::fingerprint::{
    blake3_digest, constructor_cid_with_schema, spec_canonical_form_in, spec_cid_of_digest,
    spec_variant_canonical_form_in, variant_cid_with_schema,
};
use crate::typescript_expr::{
    push_exact_check, spec_decode_expr, spec_exact_check, spec_resolves, spec_ts_decode,
    spec_ts_encode, typescript_decode_expression, typescript_decode_type, typescript_encode_type,
    spec_view_expr, typescript_decode_view_expression, spec_key_compare, spec_lazy_expr, spec_lazy_field, spec_view_decode, typescript_decode_lazy_expression,
    typescript_decode_lazy_field_type, typescript_decode_view_type,
};
use crate::typescript_types::{
    spec_wire_method, typescript_wire_method, is_collection, number_text, spec_is_collection, spec_lazy_item_type, spec_lazy_view_type,
    spec_ts_type, spec_view_type, typescript_lazy_item_type, typescript_lazy_view_type,
    typescript_type, typescript_view_type,
};
use crate::validate::{
    find_field, normalize_name, spec_field_error, spec_fields_error, spec_find_field,
    spec_first_dot_at, spec_flag_bit_declared, spec_guard_error, spec_item_error, spec_items_error,
    spec_normalize_name, spec_split_at_dot, spec_validate,
};
use crate::ast::fields_model;
use crate::fingerprint::{push_literal, spec_number};
use crate::text::{split_once, spec_find_char, text_is};
use crate::typescript_runtime::TS_PREAMBLE;

verus! {

// ---------------------------------------------------------------------------
// Guards
// ---------------------------------------------------------------------------

/// The owner and the bit a guard names: the text before and after its first
/// dot, or `flags` and the whole guard when it has none.
pub open spec fn spec_split_guard(guard: Seq<char>) -> (Seq<char>, Seq<char>) {
    match spec_find_char(guard, '.', 0) {
        Some(k) => (guard.take(k), guard.skip(k + 1)),
        None => ("flags"@, guard),
    }
}

pub(crate) fn split_guard(guard: &String) -> (r: (String, String))
    ensures
        (r.0@, r.1@) == spec_split_guard(guard@),
{
    match split_once(guard.as_str(), '.') {
        Some((owner, bit)) => (owner, bit),
        None => ("flags".to_owned(), guard.clone()),
    }
}

/// The value of the first bit of `bits` whose name, normalized, is that of
/// `bit`.
pub open spec fn spec_bit_value(bits: Seq<crate::ast::BitModel>, bit: Seq<char>) -> Option<u64>
    decreases bits.len(),
{
    if bits.len() == 0 {
        None
    } else if spec_normalize_name(bits[0].name) == spec_normalize_name(bit) {
        Some(bits[0].value)
    } else {
        spec_bit_value(bits.drop_first(), bit)
    }
}

/// The value of bit `bit` in the first flags item called `flag_type` that
/// has such a bit.
pub open spec fn spec_flags_bit(items: Seq<ItemModel>, flag_type: Seq<char>, bit: Seq<char>) -> Option<
    u64,
>
    decreases items.len(),
{
    if items.len() == 0 {
        None
    } else {
        match items[0] {
            ItemModel::Flags(f) => if f.name == flag_type && spec_bit_value(f.bits, bit) is Some {
                spec_bit_value(f.bits, bit)
            } else {
                spec_flags_bit(items.drop_first(), flag_type, bit)
            },
            _ => spec_flags_bit(items.drop_first(), flag_type, bit),
        }
    }
}

/// The bit a guard `owner.bit` tests in a struct with fields `fields`: the
/// bit of that name, compared as the schema's validation compares it, in
/// the flags type of the field called `owner`. A schema that validation
/// accepts always has it; any other guard tests bit zero.
pub open spec fn spec_guard_bit(
    fields: Seq<FieldModel>,
    items: Seq<ItemModel>,
    owner: Seq<char>,
    bit: Seq<char>,
) -> u64 {
    match spec_find_field(fields, owner) {
        Some(f) => match f.ty {
            TypeModel::Primitive(flag_type) => match spec_flags_bit(items, flag_type, bit) {
                Some(v) => v,
                None => 0,
            },
            _ => 0,
        },
        None => 0,
    }
}

/// Some bit of `bits` has, normalized, the name of `bit` and the value `v`.
pub open spec fn spec_bit_named(bits: Seq<crate::ast::BitModel>, bit: Seq<char>, v: u64) -> bool {
    exists|k: int|
        0 <= k < bits.len() && spec_normalize_name(#[trigger] bits[k].name) == spec_normalize_name(
            bit,
        ) && bits[k].value == v
}

proof fn lemma_bit_value_found(bits: Seq<crate::ast::BitModel>, bit: Seq<char>)
    ensures
        (exists|k: int|
            0 <= k < bits.len() && spec_normalize_name(#[trigger] bits[k].name)
                == spec_normalize_name(bit)) ==> spec_bit_value(bits, bit) is Some,
        spec_bit_value(bits, bit) matches Some(v) ==> spec_bit_named(bits, bit, v),
    decreases bits.len(),
{
    if bits.len() > 0 {
        lemma_bit_value_found(bits.drop_first(), bit);
        if exists|k: int|
            0 <= k < bits.len() && spec_normalize_name(#[trigger] bits[k].name)
                == spec_normalize_name(bit) {
            let k = choose|k: int|
                0 <= k < bits.len() && spec_normalize_name(#[trigger] bits[k].name)
                    == spec_normalize_name(bit);
            if k > 0 {
                assert(spec_normalize_name(bits.drop_first()[k - 1].name) == spec_normalize_name(
                    bit,
                ));
            }
        }
        if spec_normalize_name(bits[0].name) != spec_normalize_name(bit) {
            if let Some(v) = spec_bit_value(bits, bit) {
                let k = choose|k: int|
                    0 <= k < bits.drop_first().len() && spec_normalize_name(
                        #[trigger] bits.drop_first()[k].name,
                    ) == spec_normalize_name(bit) && bits.drop_first()[k].value == v;
                assert(bits[k + 1] == bits.drop_first()[k]);
            }
        }
    }
}

proof fn lemma_flags_bit_found(items: Seq<ItemModel>, flag_type: Seq<char>, bit: Seq<char>)
    requires
        spec_flag_bit_declared(items, flag_type, bit),
    ensures
        spec_flags_bit(items, flag_type, bit) matches Some(v) && exists|i: int|
            0 <= i < items.len() && (#[trigger] items[i] matches ItemModel::Flags(fl) && fl.name
                == flag_type && spec_bit_named(fl.bits, bit, v)),
    decreases items.len(),
{
    let i = choose|i: int|
        0 <= i < items.len() && (#[trigger] items[i] matches ItemModel::Flags(f) && f.name
            == flag_type && crate::validate::spec_flags_have_bit(f, bit));
    match items[0] {
        ItemModel::Flags(f) => {
            lemma_bit_value_found(f.bits, bit);
            if i == 0 {
                assert(spec_bit_value(f.bits, bit) is Some);
            }
        },
        _ => {},
    }
    let first_has = items[0] matches ItemModel::Flags(f) && f.name == flag_type && spec_bit_value(
        f.bits,
        bit,
    ) is Some;
    if first_has {
        assert(items[0] matches ItemModel::Flags(fl) && fl.name == flag_type);
    } else {
        assert(i > 0);
        assert(items.drop_first()[i - 1] == items[i]);
        lemma_flags_bit_found(items.drop_first(), flag_type, bit);
        let v = spec_flags_bit(items, flag_type, bit)->Some_0;
        let i2 = choose|i2: int|
            0 <= i2 < items.drop_first().len() && (#[trigger] items.drop_first()[i2] matches ItemModel::Flags(
                fl,
            ) && fl.name == flag_type && spec_bit_named(fl.bits, bit, v));
        assert(items[i2 + 1] == items.drop_first()[i2]);
    }
}

proof fn lemma_first_dot_found(s: Seq<char>, i: int, from: int)
    requires
        spec_first_dot_at(s, i),
        0 <= from <= i,
    ensures
        crate::text::spec_find_char(s, '.', from) == Some(i),
    decreases i - from,
{
    if from < i {
        lemma_first_dot_found(s, i, from + 1);
    }
}

proof fn lemma_find_field_in_prefix(fields: Seq<FieldModel>, j: int, name: Seq<char>)
    requires
        0 <= j <= fields.len(),
        spec_find_field(fields.take(j), name) is Some,
    ensures
        spec_find_field(fields, name) == spec_find_field(fields.take(j), name),
    decreases fields.len(),
{
    if fields[0].name != name {
        assert(fields.take(j).drop_first() =~= fields.drop_first().take(j - 1));
        lemma_find_field_in_prefix(fields.drop_first(), j - 1, name);
    }
}

/// The bit a generated guard tests is the one validation checked: when
/// validation accepts the guard of field `j`, the field it names holds a
/// flags type with a bit of the guard's name, and the guard tests that
/// bit's value.
pub proof fn lemma_guard_tests_the_validated_bit(
    fields: Seq<FieldModel>,
    j: int,
    items: Seq<ItemModel>,
)
    requires
        0 <= j < fields.len(),
        fields[j].guard is Some,
        spec_guard_error(fields[j].guard->0, fields.take(j), items) is None,
    ensures
        ({
            let (owner, bit) = spec_split_guard(fields[j].guard->0);
            spec_find_field(fields, owner) matches Some(f) && f.ty matches TypeModel::Primitive(
                flag_type,
            ) && exists|i: int|
                0 <= i < items.len() && (#[trigger] items[i] matches ItemModel::Flags(fl) && fl.name
                    == flag_type && spec_bit_named(
                    fl.bits,
                    bit,
                    spec_guard_bit(fields, items, owner, bit),
                ))
        }),
{
    let g = fields[j].guard->0;
    let (owner, bit) = spec_split_at_dot(g)->Some_0;
    let d = choose|d: int| spec_first_dot_at(g, d);
    lemma_first_dot_found(g, d, 0);
    assert(spec_split_guard(g) == (owner, bit));
    lemma_find_field_in_prefix(fields, j, owner);
    let f = spec_find_field(fields, owner)->Some_0;
    let flag_type = f.ty->Primitive_0;
    lemma_flags_bit_found(items, flag_type, bit);
}

proof fn lemma_no_item_error(items: Seq<ItemModel>, n: int, i: int)
    requires
        0 <= i < n,
        spec_items_error(items, n) is None,
    ensures
        spec_item_error(items[i], items) is None,
    decreases n,
{
    if i < n - 1 {
        lemma_no_item_error(items, n - 1, i);
    }
}

proof fn lemma_no_field_error(fields: Seq<FieldModel>, n: int, j: int, items: Seq<ItemModel>)
    requires
        0 <= j < n,
        spec_fields_error(fields, n, items) is None,
    ensures
        spec_field_error(fields, j, items) is None,
    decreases n,
{
    if j < n - 1 {
        lemma_no_field_error(fields, n - 1, j, items);
    }
}

/// In a schema that validation accepts, every guard of a struct field tests
/// the bit that it names, in the flags type of the field that it names.
pub proof fn lemma_valid_schema_guards_test_their_bits(schema: SchemaModel, i: int, j: int)
    requires
        spec_validate(schema) is None,
        0 <= i < schema.items.len(),
        schema.items[i] is Struct,
        0 <= j < schema.items[i]->Struct_0.fields.len(),
        schema.items[i]->Struct_0.fields[j].guard is Some,
    ensures
        ({
            let fields = schema.items[i]->Struct_0.fields;
            let items = schema.items;
            let (owner, bit) = spec_split_guard(fields[j].guard->0);
            spec_find_field(fields, owner) matches Some(f) && f.ty matches TypeModel::Primitive(
                flag_type,
            ) && exists|t: int|
                0 <= t < items.len() && (#[trigger] items[t] matches ItemModel::Flags(fl) && fl.name
                    == flag_type && spec_bit_named(
                    fl.bits,
                    bit,
                    spec_guard_bit(fields, items, owner, bit),
                ))
        }),
{
    let items = schema.items;
    let fields = items[i]->Struct_0.fields;
    lemma_no_item_error(items, items.len() as int, i);
    lemma_no_field_error(fields, fields.len() as int, j, items);
    lemma_guard_tests_the_validated_bit(fields, j, items);
}

fn bit_value(bits: &Vec<crate::ast::FlagsBit>, bit: &String) -> (r: Option<u64>)
    ensures
        r == spec_bit_value(bits@.map_values(|b: crate::ast::FlagsBit| b@), bit@),
{
    let ghost model = bits@.map_values(|b: crate::ast::FlagsBit| b@);
    let wanted = normalize_name(bit);
    let mut i: usize = 0;
    assert(model.skip(0) =~= model);
    while i < bits.len()
        invariant
            i <= bits@.len() == model.len(),
            model == bits@.map_values(|b: crate::ast::FlagsBit| b@),
            wanted@ == spec_normalize_name(bit@),
            spec_bit_value(model, bit@) == spec_bit_value(model.skip(i as int), bit@),
        decreases bits@.len() - i,
    {
        assert(model.skip(i as int).drop_first() =~= model.skip(i + 1));
        assert(model.skip(i as int)[0] == bits@[i as int]@);
        let name = normalize_name(&bits[i].name);
        if name == wanted {
            return Some(bits[i].value);
        }
        i = i + 1;
    }
    assert(model.skip(i as int) =~= Seq::<crate::ast::BitModel>::empty());
    None
}

fn flags_bit(schema: &Schema, flag_type: &String, bit: &String) -> (r: Option<u64>)
    ensures
        r == spec_flags_bit(schema@.items, flag_type@, bit@),
{
    let ghost items = schema@.items;
    let mut i: usize = 0;
    assert(items.skip(0) =~= items);
    while i < schema.items.len()
        invariant
            i <= schema.items@.len() == items.len(),
            items == schema@.items,
            spec_flags_bit(items, flag_type@, bit@) == spec_flags_bit(items.skip(i as int), flag_type@, bit@),
        decreases schema.items@.len() - i,
    {
        assert(items.skip(i as int).drop_first() =~= items.skip(i + 1));
        assert(items.skip(i as int)[0] == schema.items@[i as int]@);
        match &schema.items[i] {
            Item::Flags(flags) => {
                if flags.name == *flag_type {
                    proof {
                        assert(flags@.bits == flags.bits@.map_values(|b: crate::ast::FlagsBit| b@));
                    }
                    match bit_value(&flags.bits, bit) {
                        Some(v) => {
                            return Some(v);
                        },
                        None => {},
                    }
                }
            },
            _ => {},
        }
        i = i + 1;
    }
    assert(items.skip(i as int) =~= Seq::<ItemModel>::empty());
    None
}

pub(crate) fn ts_guard_bit(fields: &Vec<Field>, schema: &Schema, owner: &String, bit: &String) -> (r: u64)
    ensures
        r == spec_guard_bit(fields_model(fields@), schema@.items, owner@, bit@),
{
    assert(fields_model(fields@).take(fields@.len() as int) =~= fields_model(fields@));
    match find_field(fields, fields.len(), owner) {
        Some(f) => match &f.ty {
            Type::Primitive(flag_type) => match flags_bit(schema, flag_type, bit) {
                Some(v) => v,
                None => 0,
            },
            _ => 0,
        },
        None => 0,
    }
}

/// A group of guarded fields: the guard's owner, its bit, and the names of
/// the fields it guards.
pub type GuardGroup = (String, u64, Vec<String>);

/// The value of a group.
pub open spec fn spec_group_view(g: GuardGroup) -> (Seq<char>, u64, Seq<Seq<char>>) {
    (g.0@, g.1, g.2@.map_values(|s: String| s@))
}

/// The first group with `owner` and `bit`, at or after `from`.
pub open spec fn spec_group_index(
    groups: Seq<(Seq<char>, u64, Seq<Seq<char>>)>,
    owner: Seq<char>,
    bit: u64,
    from: int,
) -> Option<int>
    decreases groups.len() - from,
{
    if from < 0 || from >= groups.len() {
        None
    } else if groups[from].0 == owner && groups[from].1 == bit {
        Some(from)
    } else {
        spec_group_index(groups, owner, bit, from + 1)
    }
}

/// The guarded fields of `fields` grouped by guard owner and bit, groups in
/// the order their first field comes.
pub open spec fn spec_guard_groups(fields: Seq<FieldModel>, all: Seq<FieldModel>, items: Seq<ItemModel>) -> Seq<
    (Seq<char>, u64, Seq<Seq<char>>),
>
    decreases fields.len(),
{
    if fields.len() == 0 {
        seq![]
    } else {
        let groups = spec_guard_groups(fields.drop_last(), all, items);
        let f = fields.last();
        match f.guard {
            None => groups,
            Some(guard) => {
                let (owner, bit) = spec_split_guard(guard);
                let value = spec_guard_bit(all, items, owner, bit);
                match spec_group_index(groups, owner, value, 0) {
                    Some(k) => groups.update(
                        k,
                        (groups[k].0, groups[k].1, groups[k].2.push(f.name)),
                    ),
                    None => groups.push((owner, value, seq![f.name])),
                }
            },
        }
    }
}

pub(crate) fn group_index(groups: &Vec<GuardGroup>, owner: &String, bit: u64) -> (r: Option<usize>)
    ensures
        match r {
            Some(k) => k < groups@.len() && spec_group_index(
                groups@.map_values(|g: GuardGroup| spec_group_view(g)),
                owner@,
                bit,
                0,
            ) == Some(k as int),
            None => spec_group_index(
                groups@.map_values(|g: GuardGroup| spec_group_view(g)),
                owner@,
                bit,
                0,
            ) is None,
        },
{
    let ghost view = groups@.map_values(|g: GuardGroup| spec_group_view(g));
    let mut i: usize = 0;
    while i < groups.len()
        invariant
            i <= groups@.len() == view.len(),
            view == groups@.map_values(|g: GuardGroup| spec_group_view(g)),
            spec_group_index(view, owner@, bit, 0) == spec_group_index(view, owner@, bit, i as int),
        decreases groups@.len() - i,
    {
        assert(view[i as int] == spec_group_view(groups@[i as int]));
        if groups[i].0 == *owner && groups[i].1 == bit {
            return Some(i);
        }
        i = i + 1;
    }
    None
}

pub(crate) fn ts_guard_groups(item: &Struct, schema: &Schema) -> (r: Vec<GuardGroup>)
    ensures
        r@.map_values(|g: GuardGroup| spec_group_view(g)) == spec_guard_groups(
            item@.fields,
            item@.fields,
            schema@.items,
        ),
{
    let ghost fields = item@.fields;
    let ghost items = schema@.items;
    let mut groups: Vec<GuardGroup> = Vec::new();
    let mut i: usize = 0;
    while i < item.fields.len()
        invariant
            i <= item.fields@.len() == fields.len(),
            fields == item@.fields,
            items == schema@.items,
            groups@.map_values(|g: GuardGroup| spec_group_view(g)) == spec_guard_groups(
                fields.take(i as int),
                fields,
                items,
            ),
        decreases item.fields@.len() - i,
    {
        let ghost before = groups@.map_values(|g: GuardGroup| spec_group_view(g));
        assert(fields.take(i + 1).drop_last() =~= fields.take(i as int));
        assert(fields.take(i + 1).last() == item.fields@[i as int]@);
        let field = &item.fields[i];
        let ghost f = fields.take(i + 1).last();
        assert(spec_guard_groups(fields.take(i + 1), fields, items) == match f.guard {
            None => before,
            Some(guard) => {
                let (owner, bit) = spec_split_guard(guard);
                let value = spec_guard_bit(fields, items, owner, bit);
                match spec_group_index(before, owner, value, 0) {
                    Some(k) => before.update(k, (before[k].0, before[k].1, before[k].2.push(f.name))),
                    None => before.push((owner, value, seq![f.name])),
                }
            },
        });
        match &field.guard {
            None => {},
            Some(guard) => {
                let (owner, bit) = split_guard(guard);
                let value = ts_guard_bit(&item.fields, schema, &owner, &bit);
                match group_index(&groups, &owner, value) {
                    Some(k) => {
                        let mut names = groups[k].2.clone();
                        assert(names@ =~= groups@[k as int].2@);
                        names.push(field.name.clone());
                        let entry = (groups[k].0.clone(), groups[k].1, names);
                        assert(entry.2@.map_values(|s: String| s@) =~= before[k as int].2.push(
                            field.name@,
                        ));
                        assert(spec_group_view(entry) == (
                            before[k as int].0,
                            before[k as int].1,
                            before[k as int].2.push(field.name@),
                        ));
                        groups.set(k, entry);
                        assert(groups@.map_values(|g: GuardGroup| spec_group_view(g)) =~= before.update(
                            k as int,
                            spec_group_view(entry),
                        ));
                    },
                    None => {
                        let mut names: Vec<String> = Vec::new();
                        names.push(field.name.clone());
                        assert(names@.map_values(|s: String| s@) =~= seq![field.name@]);
                        let entry = (owner, value, names);
                        groups.push(entry);
                        assert(groups@.map_values(|g: GuardGroup| spec_group_view(g)) =~= before.push(
                            spec_group_view(entry),
                        ));
                    },
                }
            },
        }
        assert(groups@.map_values(|g: GuardGroup| spec_group_view(g)) =~= spec_guard_groups(
            fields.take(i + 1),
            fields,
            items,
        ));
        i = i + 1;
    }
    assert(fields.take(item.fields@.len() as int) =~= fields);
    groups
}

/// Some group of `groups` is owned by `name`.
pub open spec fn spec_owns_group(groups: Seq<(Seq<char>, u64, Seq<Seq<char>>)>, name: Seq<char>) -> bool {
    exists|k: int| 0 <= k < groups.len() && (#[trigger] groups[k]).0 == name
}

pub(crate) fn owns_group(groups: &Vec<GuardGroup>, name: &String) -> (r: bool)
    ensures
        r == spec_owns_group(groups@.map_values(|g: GuardGroup| spec_group_view(g)), name@),
{
    let ghost view = groups@.map_values(|g: GuardGroup| spec_group_view(g));
    let mut i: usize = 0;
    while i < groups.len()
        invariant
            i <= groups@.len() == view.len(),
            view == groups@.map_values(|g: GuardGroup| spec_group_view(g)),
            forall|k: int| 0 <= k < i ==> (#[trigger] view[k]).0 != name@,
        decreases groups@.len() - i,
    {
        assert(view[i as int] == spec_group_view(groups@[i as int]));
        if groups[i].0 == *name {
            return true;
        }
        i = i + 1;
    }
    false
}

// ---------------------------------------------------------------------------
// Lists
// ---------------------------------------------------------------------------

/// `parts` with `sep` between each two.
pub open spec fn spec_join(parts: Seq<Seq<char>>, sep: Seq<char>) -> Seq<char>
    decreases parts.len(),
{
    if parts.len() == 0 {
        seq![]
    } else if parts.len() == 1 {
        parts[0]
    } else {
        spec_join(parts.drop_last(), sep) + sep + parts.last()
    }
}

/// One more part of a list.
pub proof fn lemma_join_step(parts: Seq<Seq<char>>, sep: Seq<char>, i: int)
    requires
        0 <= i < parts.len(),
    ensures
        spec_join(parts.take(i + 1), sep) == if i == 0 {
            parts[0]
        } else {
            spec_join(parts.take(i), sep) + sep + parts[i]
        },
{
    assert(parts.take(i + 1).drop_last() =~= parts.take(i));
    if i == 0 {
        assert(parts.take(1)[0] == parts[0]);
    }
}

/// The type of a field in an owned value: `name: type`.
pub open spec fn spec_field_type(f: FieldModel, items: Seq<ItemModel>) -> Seq<char> {
    f.name + ": "@ + spec_ts_type(f.ty, items)
}

/// A variant's case of an enum's type: its name in quotes when it has no
/// fields, else an object holding its fields.
pub open spec fn spec_variant_type(v: VariantModel, items: Seq<ItemModel>) -> Seq<char> {
    if v.fields.len() == 0 {
        "\""@ + v.name + "\""@
    } else {
        "{ "@ + v.name + ": { "@ + spec_join(
            v.fields.map_values(|f: FieldModel| spec_field_type(f, items)),
            "; "@,
        ) + " } }"@
    }
}

fn variant_type(v: &EnumVariant, schema: &Schema) -> (r: String)
    ensures
        r@ == spec_variant_type(v@, schema@.items),
{
    let ghost items = schema@.items;
    if v.fields.len() == 0 {
        let mut out = "\"".to_owned();
        out.append(v.name.as_str());
        push_literal(&mut out, "\"");
        return out;
    }
    let ghost parts = v@.fields.map_values(|f: FieldModel| spec_field_type(f, items));
    let mut list = String::new();
    let mut i: usize = 0;
    while i < v.fields.len()
        invariant
            i <= v.fields@.len() == parts.len(),
            items == schema@.items,
            parts == v@.fields.map_values(|f: FieldModel| spec_field_type(f, items)),
            list@ == spec_join(parts.take(i as int), "; "@),
        decreases v.fields@.len() - i,
    {
        proof {
            lemma_join_step(parts, "; "@, i as int);
            assert(parts[i as int] == spec_field_type(v.fields@[i as int]@, items));
        }
        let ghost before = list@;
        if i > 0 {
            push_literal(&mut list, "; ");
        }
        let f = &v.fields[i];
        list.append(f.name.as_str());
        push_literal(&mut list, ": ");
        let ty = typescript_type(&f.ty, schema);
        list.append(ty.as_str());
        assert(list@ =~= spec_join(parts.take(i + 1), "; "@));
        i = i + 1;
    }
    assert(parts.take(v.fields@.len() as int) =~= parts);
    let mut out = "{ ".to_owned();
    out.append(v.name.as_str());
    push_literal(&mut out, ": { ");
    out.append(list.as_str());
    push_literal(&mut out, " } }");
    out
}

/// The declaration of the TypeScript type of an alias, a flags type or an
/// enum.
pub open spec fn spec_item_type(item: ItemModel, items: Seq<ItemModel>) -> Seq<char> {
    match item {
        ItemModel::Alias(a) => "export type "@ + a.name + " = "@ + spec_ts_type(a.ty, items) + ";"@,
        ItemModel::Flags(f) => "export type "@ + f.name + " = number;"@,
        ItemModel::Enum(e) => "export type "@ + e.name + " = "@ + spec_join(
            e.variants.map_values(|v: VariantModel| spec_variant_type(v, items)),
            " | "@,
        ) + ";"@,
        ItemModel::Struct(_) => seq![],
    }
}

pub(crate) fn typescript_item_type(item: &Item, schema: &Schema) -> (r: String)
    requires
        !(item@ is Struct),
    ensures
        r@ == spec_item_type(item@, schema@.items),
{
    let ghost items = schema@.items;
    match item {
        Item::Alias(a) => {
            let mut out = "export type ".to_owned();
            out.append(a.name.as_str());
            push_literal(&mut out, " = ");
            let ty = typescript_type(&a.ty, schema);
            out.append(ty.as_str());
            push_literal(&mut out, ";");
            out
        },
        Item::Flags(f) => {
            let mut out = "export type ".to_owned();
            out.append(f.name.as_str());
            push_literal(&mut out, " = number;");
            out
        },
        Item::Enum(e) => {
            let ghost parts = e@.variants.map_values(|v: VariantModel| spec_variant_type(v, items));
            let mut list = String::new();
            let mut i: usize = 0;
            while i < e.variants.len()
                invariant
                    i <= e.variants@.len() == parts.len(),
                    items == schema@.items,
                    parts == e@.variants.map_values(|v: VariantModel| spec_variant_type(v, items)),
                    list@ == spec_join(parts.take(i as int), " | "@),
                decreases e.variants@.len() - i,
            {
                proof {
                    lemma_join_step(parts, " | "@, i as int);
                    assert(parts[i as int] == spec_variant_type(e.variants@[i as int]@, items));
                }
                if i > 0 {
                    push_literal(&mut list, " | ");
                }
                let part = variant_type(&e.variants[i], schema);
                list.append(part.as_str());
                assert(list@ =~= spec_join(parts.take(i + 1), " | "@));
                i = i + 1;
            }
            assert(parts.take(e.variants@.len() as int) =~= parts);
            let mut out = "export type ".to_owned();
            out.append(e.name.as_str());
            push_literal(&mut out, " = ");
            out.append(list.as_str());
            push_literal(&mut out, ";");
            out
        },
        Item::Struct(_) => String::new(),
    }
}

// ---------------------------------------------------------------------------
// Views of structs
// ---------------------------------------------------------------------------

/// The pieces one after another.
pub open spec fn spec_concat(parts: Seq<Seq<char>>) -> Seq<char>
    decreases parts.len(),
{
    if parts.len() == 0 {
        seq![]
    } else {
        spec_concat(parts.drop_last()) + parts.last()
    }
}

pub proof fn lemma_concat_step(parts: Seq<Seq<char>>, i: int)
    requires
        0 <= i < parts.len(),
    ensures
        spec_concat(parts.take(i + 1)) == spec_concat(parts.take(i)) + parts[i],
{
    assert(parts.take(i + 1).drop_last() =~= parts.take(i));
}

/// `?` for a guarded field, which may be absent.
pub open spec fn spec_optional_mark(f: FieldModel) -> Seq<char> {
    if f.guard is Some {
        "?"@
    } else {
        seq![]
    }
}

fn push_optional_mark(out: &mut String, f: &Field)
    ensures
        final(out)@ == old(out)@ + spec_optional_mark(f@),
{
    if f.guard.is_some() {
        push_literal(out, "?");
    } else {
        assert(out@ =~= out@ + Seq::<char>::empty());
    }
}

/// The test that opens the statements of a guarded field.
pub open spec fn spec_guard_open(prefix: Seq<char>, owner: Seq<char>, bit: u64) -> Seq<char> {
    prefix + owner + " & (1 << "@ + spec_number(bit as nat) + ")) !== 0) {"@
}

/// The test of a guarded field as read: the owner's bit in the value read.
pub open spec fn spec_read_guard(f: FieldModel, fields: Seq<FieldModel>, items: Seq<ItemModel>) -> Seq<char> {
    match f.guard {
        Some(guard) => {
            let (owner, bit) = spec_split_guard(guard);
            spec_guard_open(" if ((value."@, owner, spec_guard_bit(fields, items, owner, bit))
        },
        None => seq![],
    }
}

fn push_read_guard(out: &mut String, f: &Field, fields: &Vec<Field>, schema: &Schema)
    requires
        f@.guard is Some,
    ensures
        final(out)@ == old(out)@ + spec_read_guard(f@, fields_model(fields@), schema@.items),
{
    match &f.guard {
        Some(guard) => {
            let (owner, bit) = split_guard(guard);
            let value = ts_guard_bit(fields, schema, &owner, &bit);
            push_literal(out, " if ((value.");
            out.append(owner.as_str());
            push_literal(out, " & (1 << ");
            let digits = number_text(value);
            out.append(digits.as_str());
            push_literal(out, ")) !== 0) {");
        },
        None => {},
    }
}

/// A field's member in a struct's view interface.
pub open spec fn spec_view_member(f: FieldModel, items: Seq<ItemModel>) -> Seq<char> {
    " "@ + f.name + spec_optional_mark(f) + ": "@ + spec_view_type(f.ty, items) + ";"@
}

/// The statements that read a field into a struct's view.
pub open spec fn spec_view_field(f: FieldModel, fields: Seq<FieldModel>, items: Seq<ItemModel>) -> Seq<char> {
    let lhs = "value."@ + f.name;
    if f.guard is Some {
        spec_read_guard(f, fields, items) + spec_view_decode(f.ty, lhs, items) + " }"@
    } else {
        spec_view_decode(f.ty, lhs, items)
    }
}

fn push_view_field(out: &mut String, f: &Field, fields: &Vec<Field>, schema: &Schema)
    ensures
        final(out)@ == old(out)@ + spec_view_field(f@, fields_model(fields@), schema@.items),
{
    let mut lhs = "value.".to_owned();
    lhs.append(f.name.as_str());
    if f.guard.is_some() {
        push_read_guard(out, f, fields, schema);
        typescript_decode_view_type(&f.ty, lhs.as_str(), schema, out);
        push_literal(out, " }");
    } else {
        typescript_decode_view_type(&f.ty, lhs.as_str(), schema, out);
    }
    assert(out@ =~= old(out)@ + spec_view_field(f@, fields_model(fields@), schema@.items));
}

/// A struct's view interface.
pub open spec fn spec_view_interface(st: StructModel, items: Seq<ItemModel>) -> Seq<char> {
    "export interface "@ + st.name + "View {"@ + spec_concat(
        st.fields.map_values(|f: FieldModel| spec_view_member(f, items)),
    ) + " }\n"@
}

fn view_interface(item: &Struct, schema: &Schema) -> (r: String)
    ensures
        r@ == spec_view_interface(item@, schema@.items),
{
    let ghost items = schema@.items;
    let ghost fields = item@.fields;
    let mut out = "export interface ".to_owned();
    out.append(item.name.as_str());
    push_literal(&mut out, "View {");
    let ghost members = fields.map_values(|f: FieldModel| spec_view_member(f, items));
    let ghost head = out@;
    let mut i: usize = 0;
    while i < item.fields.len()
        invariant
            i <= item.fields@.len() == fields.len() == members.len(),
            fields == item@.fields,
            items == schema@.items,
            members == fields.map_values(|f: FieldModel| spec_view_member(f, items)),
            out@ == head + spec_concat(members.take(i as int)),
        decreases item.fields@.len() - i,
    {
        proof {
            lemma_concat_step(members, i as int);
            assert(fields[i as int] == item.fields@[i as int]@);
        }
        let f = &item.fields[i];
        push_literal(&mut out, " ");
        out.append(f.name.as_str());
        push_optional_mark(&mut out, f);
        push_literal(&mut out, ": ");
        let ty = typescript_view_type(&f.ty, schema);
        out.append(ty.as_str());
        push_literal(&mut out, ";");
        assert(out@ =~= head + spec_concat(members.take(i + 1)));
        i = i + 1;
    }
    assert(members.take(fields.len() as int) =~= members);
    push_literal(&mut out, " }\n");
    out
}

/// A struct's view reader.
pub open spec fn spec_view_reader(st: StructModel, items: Seq<ItemModel>) -> Seq<char> {
    let name = st.name;
    "function read_"@ + spec_lowercase(name) + "_view(d: WireDecoder): "@ + name
        + "View { cid(d, "@ + name + "CID); const value = {} as "@ + name + "View;"@ + spec_concat(
        st.fields.map_values(|f: FieldModel| spec_view_field(f, st.fields, items)),
    ) + " return value; }\n"@
}

fn view_reader(item: &Struct, schema: &Schema) -> (r: String)
    ensures
        r@ == spec_view_reader(item@, schema@.items),
{
    let ghost items = schema@.items;
    let ghost fields = item@.fields;
    let name = &item.name;
    let lower = ascii_lowercase(name.as_str());
    let mut out = "function read_".to_owned();
    out.append(lower.as_str());
    push_literal(&mut out, "_view(d: WireDecoder): ");
    out.append(name.as_str());
    push_literal(&mut out, "View { cid(d, ");
    out.append(name.as_str());
    push_literal(&mut out, "CID); const value = {} as ");
    out.append(name.as_str());
    push_literal(&mut out, "View;");
    let ghost reads = fields.map_values(|f: FieldModel| spec_view_field(f, fields, items));
    let ghost head = out@;
    let mut i: usize = 0;
    while i < item.fields.len()
        invariant
            i <= item.fields@.len() == fields.len() == reads.len(),
            fields == item@.fields,
            items == schema@.items,
            reads == fields.map_values(|f: FieldModel| spec_view_field(f, fields, items)),
            out@ == head + spec_concat(reads.take(i as int)),
        decreases item.fields@.len() - i,
    {
        proof {
            lemma_concat_step(reads, i as int);
            assert(fields[i as int] == item.fields@[i as int]@);
        }
        push_view_field(&mut out, &item.fields[i], &item.fields, schema);
        assert(out@ =~= head + spec_concat(reads.take(i + 1)));
        i = i + 1;
    }
    assert(reads.take(fields.len() as int) =~= reads);
    push_literal(&mut out, " return value; }\n");
    out
}

/// The functions that read a whole packet into a view: `kind` is `View` or
/// `LazyView`, and `reader` completes the reader's call after its name.
pub open spec fn spec_view_exports(name: Seq<char>, kind: Seq<char>, reader: Seq<char>) -> Seq<
    char,
> {
    "export function decode"@ + name + kind + "(wire: Uint8Array): "@ + name + kind
        + " { const d = new WireDecoder(wire); const value = read_"@ + spec_lowercase(name) + reader
        + "; d.done(); return value; }\nexport function borrow"@ + name + kind
        + "(wire: Uint8Array): BorrowedPacket<"@ + name + kind
        + "> { return new BorrowedPacket(wire, decode"@ + name + kind + "(wire)); }\n\n"@
}

fn view_exports(name: &String, kind: &str, reader: &str) -> (r: String)
    ensures
        r@ == spec_view_exports(name@, kind@, reader@),
{
    let lower = ascii_lowercase(name.as_str());
    let mut out = "export function decode".to_owned();
    out.append(name.as_str());
    out.append(kind);
    push_literal(&mut out, "(wire: Uint8Array): ");
    out.append(name.as_str());
    out.append(kind);
    push_literal(&mut out, " { const d = new WireDecoder(wire); const value = read_");
    out.append(lower.as_str());
    out.append(reader);
    push_literal(&mut out, "; d.done(); return value; }\nexport function borrow");
    out.append(name.as_str());
    out.append(kind);
    push_literal(&mut out, "(wire: Uint8Array): BorrowedPacket<");
    out.append(name.as_str());
    out.append(kind);
    push_literal(&mut out, "> { return new BorrowedPacket(wire, decode");
    out.append(name.as_str());
    out.append(kind);
    push_literal(&mut out, "(wire)); }\n\n");
    out
}

/// A struct's view: an interface whose byte fields and strings point into
/// the packet, its reader, and its lazy view.
pub open spec fn spec_view_struct(st: StructModel, items: Seq<ItemModel>) -> Seq<char> {
    spec_view_interface(st, items) + spec_view_reader(st, items) + spec_view_exports(
        st.name,
        "View"@,
        "_view(d)"@,
    ) + spec_lazy_view_struct(st, items)
}

pub(crate) fn generate_typescript_view_struct(item: &Struct, schema: &Schema, out: &mut String)
    requires
        spec_lazy_fields_ok(item@.fields),
    ensures
        final(out)@ == old(out)@ + spec_view_struct(item@, schema@.items),
{
    let interface = view_interface(item, schema);
    out.append(interface.as_str());
    let reader = view_reader(item, schema);
    out.append(reader.as_str());
    let exports = view_exports(&item.name, "View", "_view(d)");
    out.append(exports.as_str());
    generate_typescript_lazy_view_struct(item, schema, out);
    assert(out@ =~= old(out)@ + spec_view_struct(item@, schema@.items));
}

// ---------------------------------------------------------------------------
// Lazy views of structs
// ---------------------------------------------------------------------------

/// Some field of `fields` named `name` is a lazily read collection.
pub open spec fn spec_collection_named(fields: Seq<FieldModel>, name: Seq<char>) -> bool {
    exists|k: int| 0 <= k < fields.len() && spec_is_collection((#[trigger] fields[k]).ty) && fields[k].name == name
}

pub(crate) fn collection_named(fields: &Vec<Field>, name: &String) -> (r: bool)
    ensures
        r == spec_collection_named(fields@.map_values(|f: Field| f@), name@),
{
    let ghost model = fields@.map_values(|f: Field| f@);
    let mut i: usize = 0;
    while i < fields.len()
        invariant
            i <= fields@.len() == model.len(),
            model == fields@.map_values(|f: Field| f@),
            forall|k: int| 0 <= k < i ==> !(spec_is_collection((#[trigger] model[k]).ty) && model[k].name == name@),
        decreases fields@.len() - i,
    {
        assert(model[i as int] == fields@[i as int]@);
        if is_collection(&fields[i].ty) && fields[i].name == *name {
            return true;
        }
        i = i + 1;
    }
    false
}

/// Every field that a lazy view reads as a collection is a vector or a map:
/// a field is read so when some collection field has its name.
pub open spec fn spec_lazy_fields_ok(fields: Seq<FieldModel>) -> bool {
    forall|k: int|
        0 <= k < fields.len() && spec_collection_named(fields, (#[trigger] fields[k]).name) ==> (
        fields[k].ty is Vec || fields[k].ty is Mapping)
}

/// The expression that reads one item of a lazy collection of type `ty`: a
/// map's entry, or a vector's element.
pub open spec fn spec_item_expr(ty: TypeModel, items: Seq<ItemModel>) -> Seq<char> {
    match ty {
        TypeModel::Mapping(key, value) => "({ key: "@ + spec_lazy_expr(*key, items) + ", value: "@
            + spec_lazy_expr(*value, items) + " })"@,
        TypeModel::Vec(item) => spec_lazy_expr(*item, items),
        _ => seq![],
    }
}

fn item_expression(ty: &Type, schema: &Schema) -> (r: String)
    ensures
        r@ == spec_item_expr(ty@, schema@.items),
{
    let mut out = String::new();
    match ty {
        Type::Mapping(key, value) => {
            push_literal(&mut out, "({ key: ");
            typescript_decode_lazy_expression(key, schema, &mut out);
            push_literal(&mut out, ", value: ");
            typescript_decode_lazy_expression(value, schema, &mut out);
            push_literal(&mut out, " })");
        },
        Type::Vec(item) => {
            typescript_decode_lazy_expression(item, schema, &mut out);
        },
        _ => {},
    }
    assert(out@ =~= spec_item_expr(ty@, schema@.items));
    out
}

/// The item reader as a callback over its own decoder.
pub open spec fn spec_callback(ty: TypeModel, items: Seq<ItemModel>) -> Seq<char> {
    spec_replace(
        spec_replace(
            spec_replace(spec_item_expr(ty, items), "d."@, "itemDecoder."@),
            "(d)"@,
            "(itemDecoder)"@,
        ),
        "(d, wire)"@,
        "(itemDecoder, wire)"@,
    )
}

/// The statements that step over one item while the collection is scanned:
/// a map's keys must increase strictly.
pub open spec fn spec_scan(ty: TypeModel, items: Seq<ItemModel>) -> Seq<char> {
    match ty {
        TypeModel::Mapping(key, value) => "const key = "@ + spec_lazy_expr(*key, items)
            + "; if (previousKey !== undefined && "@ + spec_key_compare(*key)
            + " >= 0) throw new Error('map keys are not strictly sorted'); previousKey = key; "@
            + spec_lazy_expr(*value, items) + ";"@,
        _ => spec_replace(spec_item_expr(ty, items), "itemDecoder."@, "d."@),
    }
}

/// The declaration of the previous key, for a map.
pub open spec fn spec_previous_key(ty: TypeModel, items: Seq<ItemModel>) -> Seq<char> {
    match ty {
        TypeModel::Mapping(key, _) => " let previousKey: "@ + spec_lazy_view_type(*key, items)
            + " | undefined;"@,
        _ => seq![],
    }
}

/// The parts of reading a lazy collection: its callback, its scan and the
/// declaration of the previous key.
fn collection_parts(ty: &Type, schema: &Schema) -> (r: (String, String, String))
    ensures
        r.0@ == spec_callback(ty@, schema@.items),
        r.1@ == spec_scan(ty@, schema@.items),
        r.2@ == spec_previous_key(ty@, schema@.items),
{
    let item = item_expression(ty, schema);
    let first = replace_text(item.as_str(), "d.", "itemDecoder.");
    let second = replace_text(first.as_str(), "(d)", "(itemDecoder)");
    let callback = replace_text(second.as_str(), "(d, wire)", "(itemDecoder, wire)");
    match ty {
        Type::Mapping(key, value) => {
            let mut scan = "const key = ".to_owned();
            typescript_decode_lazy_expression(key, schema, &mut scan);
            push_literal(&mut scan, "; if (previousKey !== undefined && ");
            scan.append(crate::typescript_expr::key_compare(key));
            push_literal(
                &mut scan,
                " >= 0) throw new Error('map keys are not strictly sorted'); previousKey = key; ",
            );
            typescript_decode_lazy_expression(value, schema, &mut scan);
            push_literal(&mut scan, ";");
            let mut previous = " let previousKey: ".to_owned();
            let key_type = typescript_lazy_view_type(key, schema);
            previous.append(key_type.as_str());
            push_literal(&mut previous, " | undefined;");
            (callback, scan, previous)
        },
        _ => {
            let scan = replace_text(item.as_str(), "itemDecoder.", "d.");
            (callback, scan, String::new())
        },
    }
}

/// The statements that read a collection field of a struct's lazy view at
/// `lhs`: count it, scan its items once, and keep where they start.
pub open spec fn spec_collection_read(f: FieldModel, lhs: Seq<char>, items: Seq<ItemModel>) -> Seq<
    char,
> {
    let id = spec_without(f.name, '_');
    " const "@ + id + "Count = d.varint();"@ + spec_previous_key(f.ty, items) + " const "@ + id
        + "Start = d.position(); for (let i = 0; i < "@ + id + "Count; i++) { "@ + spec_scan(
        f.ty,
        items,
    ) + " } "@ + lhs + " = new LazyCollection(wire, "@ + id + "Start, "@ + id
        + "Count, (itemDecoder: WireDecoder) => "@ + spec_callback(f.ty, items) + ");"@
}

/// A field's member in a struct's lazy view interface.
pub open spec fn spec_lazy_member(
    f: FieldModel,
    fields: Seq<FieldModel>,
    items: Seq<ItemModel>,
) -> Seq<char> {
    " "@ + f.name + spec_optional_mark(f) + ": "@ + if spec_collection_named(fields, f.name) {
        "LazyCollection<"@ + spec_lazy_item_type(f.ty, items) + ">"@
    } else {
        spec_lazy_view_type(f.ty, items)
    } + ";"@
}

/// The statements that read a field into a struct's lazy view.
pub open spec fn spec_lazy_read(
    f: FieldModel,
    fields: Seq<FieldModel>,
    items: Seq<ItemModel>,
) -> Seq<char> {
    let lhs = "value."@ + f.name;
    let body = if spec_collection_named(fields, f.name) {
        spec_collection_read(f, lhs, items)
    } else {
        spec_lazy_field(f.ty, lhs, items)
    };
    if f.guard is Some {
        spec_read_guard(f, fields, items) + body + " }"@
    } else {
        body
    }
}

fn push_collection_read(out: &mut String, f: &Field, lhs: &str, schema: &Schema)
    ensures
        final(out)@ == old(out)@ + spec_collection_read(f@, lhs@, schema@.items),
{
    let (callback, scan, previous) = collection_parts(&f.ty, schema);
    let id = without_char(f.name.as_str(), '_');
    push_literal(out, " const ");
    out.append(id.as_str());
    push_literal(out, "Count = d.varint();");
    out.append(previous.as_str());
    push_literal(out, " const ");
    out.append(id.as_str());
    push_literal(out, "Start = d.position(); for (let i = 0; i < ");
    out.append(id.as_str());
    push_literal(out, "Count; i++) { ");
    out.append(scan.as_str());
    push_literal(out, " } ");
    out.append(lhs);
    push_literal(out, " = new LazyCollection(wire, ");
    out.append(id.as_str());
    push_literal(out, "Start, ");
    out.append(id.as_str());
    push_literal(out, "Count, (itemDecoder: WireDecoder) => ");
    out.append(callback.as_str());
    push_literal(out, ");");
    assert(out@ =~= old(out)@ + spec_collection_read(f@, lhs@, schema@.items));
}

fn push_lazy_read(out: &mut String, f: &Field, fields: &Vec<Field>, schema: &Schema)
    ensures
        final(out)@ == old(out)@ + spec_lazy_read(
            f@,
            fields@.map_values(|g: Field| g@),
            schema@.items,
        ),
{
    let mut lhs = "value.".to_owned();
    lhs.append(f.name.as_str());
    let is_collection_field = collection_named(fields, &f.name);
    if f.guard.is_some() {
        push_read_guard(out, f, fields, schema);
    }
    if is_collection_field {
        push_collection_read(out, f, lhs.as_str(), schema);
    } else {
        typescript_decode_lazy_field_type(&f.ty, lhs.as_str(), schema, out);
    }
    if f.guard.is_some() {
        push_literal(out, " }");
    }
    assert(out@ =~= old(out)@ + spec_lazy_read(f@, fields@.map_values(|g: Field| g@), schema@.items));
}

/// A struct's lazy view interface.
pub open spec fn spec_lazy_interface(st: StructModel, items: Seq<ItemModel>) -> Seq<char> {
    "export interface "@ + st.name + "LazyView {"@ + spec_concat(
        st.fields.map_values(|f: FieldModel| spec_lazy_member(f, st.fields, items)),
    ) + " }\n"@
}

fn lazy_interface(item: &Struct, schema: &Schema) -> (r: String)
    ensures
        r@ == spec_lazy_interface(item@, schema@.items),
{
    let ghost items = schema@.items;
    let ghost fields = item@.fields;
    let mut out = "export interface ".to_owned();
    out.append(item.name.as_str());
    push_literal(&mut out, "LazyView {");
    let ghost members = fields.map_values(|f: FieldModel| spec_lazy_member(f, fields, items));
    let ghost head = out@;
    let mut i: usize = 0;
    while i < item.fields.len()
        invariant
            i <= item.fields@.len() == fields.len() == members.len(),
            fields == item@.fields,
            fields == item.fields@.map_values(|g: Field| g@),
            items == schema@.items,
            members == fields.map_values(|f: FieldModel| spec_lazy_member(f, fields, items)),
            out@ == head + spec_concat(members.take(i as int)),
        decreases item.fields@.len() - i,
    {
        proof {
            lemma_concat_step(members, i as int);
            assert(fields[i as int] == item.fields@[i as int]@);
        }
        let f = &item.fields[i];
        push_literal(&mut out, " ");
        out.append(f.name.as_str());
        push_optional_mark(&mut out, f);
        push_literal(&mut out, ": ");
        if collection_named(&item.fields, &f.name) {
            push_literal(&mut out, "LazyCollection<");
            let ty = typescript_lazy_item_type(&f.ty, schema);
            out.append(ty.as_str());
            push_literal(&mut out, ">");
        } else {
            let ty = typescript_lazy_view_type(&f.ty, schema);
            out.append(ty.as_str());
        }
        push_literal(&mut out, ";");
        assert(out@ =~= head + spec_concat(members.take(i + 1)));
        i = i + 1;
    }
    assert(members.take(fields.len() as int) =~= members);
    push_literal(&mut out, " }\n");
    out
}

/// A struct's lazy view reader.
pub open spec fn spec_lazy_reader(st: StructModel, items: Seq<ItemModel>) -> Seq<char> {
    let name = st.name;
    "function read_"@ + spec_lowercase(name) + "_lazy_view(d: WireDecoder, wire: Uint8Array): "@
        + name + "LazyView { const value = {} as "@ + name + "LazyView; cid(d, "@ + name
        + "CID);"@ + spec_concat(st.fields.map_values(|f: FieldModel| spec_lazy_read(f, st.fields, items)))
        + " return value; }\n"@
}

fn lazy_reader(item: &Struct, schema: &Schema) -> (r: String)
    ensures
        r@ == spec_lazy_reader(item@, schema@.items),
{
    let ghost items = schema@.items;
    let ghost fields = item@.fields;
    let name = &item.name;
    let lower = ascii_lowercase(name.as_str());
    let mut out = "function read_".to_owned();
    out.append(lower.as_str());
    push_literal(&mut out, "_lazy_view(d: WireDecoder, wire: Uint8Array): ");
    out.append(name.as_str());
    push_literal(&mut out, "LazyView { const value = {} as ");
    out.append(name.as_str());
    push_literal(&mut out, "LazyView; cid(d, ");
    out.append(name.as_str());
    push_literal(&mut out, "CID);");
    let ghost reads = fields.map_values(|f: FieldModel| spec_lazy_read(f, fields, items));
    let ghost head = out@;
    let mut i: usize = 0;
    while i < item.fields.len()
        invariant
            i <= item.fields@.len() == fields.len() == reads.len(),
            fields == item@.fields,
            fields == item.fields@.map_values(|g: Field| g@),
            items == schema@.items,
            reads == fields.map_values(|f: FieldModel| spec_lazy_read(f, fields, items)),
            out@ == head + spec_concat(reads.take(i as int)),
        decreases item.fields@.len() - i,
    {
        proof {
            lemma_concat_step(reads, i as int);
            assert(fields[i as int] == item.fields@[i as int]@);
        }
        push_lazy_read(&mut out, &item.fields[i], &item.fields, schema);
        assert(out@ =~= head + spec_concat(reads.take(i + 1)));
        i = i + 1;
    }
    assert(reads.take(fields.len() as int) =~= reads);
    push_literal(&mut out, " return value; }\n");
    out
}

/// A struct's lazy view, when it has collections: an interface whose
/// collections are read on demand, its reader, and the functions that use
/// it.
pub open spec fn spec_lazy_view_struct(st: StructModel, items: Seq<ItemModel>) -> Seq<char> {
    if !(exists|k: int| 0 <= k < st.fields.len() && spec_is_collection(#[trigger] st.fields[k].ty)) {
        seq![]
    } else {
        spec_lazy_interface(st, items) + spec_lazy_reader(st, items) + spec_view_exports(
            st.name,
            "LazyView"@,
            "_lazy_view(d, wire)"@,
        )
    }
}

/// Some field of `fields` is a lazily read collection.
fn any_collection(fields: &Vec<Field>) -> (r: bool)
    ensures
        r == exists|k: int| 0 <= k < fields@.len() && spec_is_collection(#[trigger] fields@[k]@.ty),
{
    let mut i: usize = 0;
    while i < fields.len()
        invariant
            i <= fields@.len(),
            forall|k: int| 0 <= k < i ==> !spec_is_collection(#[trigger] fields@[k]@.ty),
        decreases fields@.len() - i,
    {
        if is_collection(&fields[i].ty) {
            assert(spec_is_collection(fields@[i as int]@.ty));
            return true;
        }
        i = i + 1;
    }
    false
}

pub(crate) fn generate_typescript_lazy_view_struct(item: &Struct, schema: &Schema, out: &mut String)
    requires
        spec_lazy_fields_ok(item@.fields),
    ensures
        final(out)@ == old(out)@ + spec_lazy_view_struct(item@, schema@.items),
{
    let ghost fields = item@.fields;
    let any = any_collection(&item.fields);
    proof {
        if any {
            let k = choose|k: int| 0 <= k < item.fields@.len() && spec_is_collection(
                #[trigger] item.fields@[k]@.ty,
            );
            assert(fields[k] == item.fields@[k]@);
        } else {
            assert forall|k: int| 0 <= k < fields.len() implies !spec_is_collection(
                #[trigger] fields[k].ty,
            ) by {
                assert(fields[k] == item.fields@[k]@);
            }
        }
    }
    if !any {
        assert(out@ =~= old(out)@ + spec_lazy_view_struct(item@, schema@.items));
        return;
    }
    let interface = lazy_interface(item, schema);
    out.append(interface.as_str());
    let reader = lazy_reader(item, schema);
    out.append(reader.as_str());
    let exports = view_exports(&item.name, "LazyView", "_lazy_view(d, wire)");
    out.append(exports.as_str());
    assert(out@ =~= old(out)@ + spec_lazy_view_struct(item@, schema@.items));
}

// ---------------------------------------------------------------------------
// Views of enums
// ---------------------------------------------------------------------------

/// A variant's Constructor ID: the declared one, else the one hashed from
/// its canonical form.
pub open spec fn spec_variant_cid(e: EnumModel, v: VariantModel, schema: crate::ast::SchemaModel) -> Seq<
    char,
> {
    match v.cid {
        Some(c) => c,
        None => spec_cid_of_digest(
            blake3_digest(vstd::utf8::encode_utf8(spec_variant_canonical_form_in(e, v, schema))),
        ),
    }
}

pub(crate) fn variant_cid_text(e: &Enum, v: &EnumVariant, schema: &Schema) -> (r: String)
    ensures
        r@ == spec_variant_cid(e@, v@, schema@),
{
    match &v.cid {
        Some(c) => c.clone(),
        None => variant_cid_with_schema(e, v, schema),
    }
}

/// The test that a packet's Constructor ID is the variant's.
pub open spec fn spec_cid_test(cid: Seq<char>) -> Seq<char> {
    " if (c.every((x, i) => x === hex(\""@ + cid + "\")[i])) "@
}

/// A variant's case of an enum's view type.
pub open spec fn spec_view_variant_type(v: VariantModel, items: Seq<ItemModel>) -> Seq<char> {
    "{ "@ + v.name + ": { "@ + spec_join(
        v.fields.map_values(|f: FieldModel| f.name + ": "@ + spec_view_type(f.ty, items)),
        "; "@,
    ) + " } }"@
}

/// A variant's case of an enum's lazy view type.
pub open spec fn spec_lazy_variant_type(v: VariantModel, items: Seq<ItemModel>) -> Seq<char> {
    "{ "@ + v.name + ": { "@ + spec_join(
        v.fields.map_values(|f: FieldModel| f.name + ": "@ + spec_lazy_member_type(f.ty, items)),
        "; "@,
    ) + " } }"@
}

/// The type of a field in a lazy view: a collection is read on demand.
pub open spec fn spec_lazy_member_type(ty: TypeModel, items: Seq<ItemModel>) -> Seq<char> {
    if spec_is_collection(ty) {
        "LazyCollection<"@ + spec_lazy_item_type(ty, items) + ">"@
    } else {
        spec_lazy_view_type(ty, items)
    }
}

fn lazy_member_type(ty: &Type, schema: &Schema) -> (r: String)
    ensures
        r@ == spec_lazy_member_type(ty@, schema@.items),
{
    if is_collection(ty) {
        let mut out = "LazyCollection<".to_owned();
        let inner = typescript_lazy_item_type(ty, schema);
        out.append(inner.as_str());
        push_literal(&mut out, ">");
        out
    } else {
        typescript_lazy_view_type(ty, schema)
    }
}

/// A variant's case of an enum's view or lazy view type.
fn variant_view_type(v: &EnumVariant, schema: &Schema, lazy: bool) -> (r: String)
    ensures
        r@ == if lazy {
            spec_lazy_variant_type(v@, schema@.items)
        } else {
            spec_view_variant_type(v@, schema@.items)
        },
{
    let ghost items = schema@.items;
    let ghost parts = if lazy {
        v@.fields.map_values(|f: FieldModel| f.name + ": "@ + spec_lazy_member_type(f.ty, items))
    } else {
        v@.fields.map_values(|f: FieldModel| f.name + ": "@ + spec_view_type(f.ty, items))
    };
    let mut list = String::new();
    let mut i: usize = 0;
    while i < v.fields.len()
        invariant
            i <= v.fields@.len() == parts.len(),
            items == schema@.items,
            parts == if lazy {
                v@.fields.map_values(|f: FieldModel| f.name + ": "@ + spec_lazy_member_type(f.ty, items))
            } else {
                v@.fields.map_values(|f: FieldModel| f.name + ": "@ + spec_view_type(f.ty, items))
            },
            list@ == spec_join(parts.take(i as int), "; "@),
        decreases v.fields@.len() - i,
    {
        proof {
            lemma_join_step(parts, "; "@, i as int);
            assert(v@.fields[i as int] == v.fields@[i as int]@);
        }
        if i > 0 {
            push_literal(&mut list, "; ");
        }
        let f = &v.fields[i];
        list.append(f.name.as_str());
        push_literal(&mut list, ": ");
        let ty = if lazy {
            lazy_member_type(&f.ty, schema)
        } else {
            typescript_view_type(&f.ty, schema)
        };
        list.append(ty.as_str());
        assert(list@ =~= spec_join(parts.take(i + 1), "; "@));
        i = i + 1;
    }
    assert(parts.take(v.fields@.len() as int) =~= parts);
    let mut out = "{ ".to_owned();
    out.append(v.name.as_str());
    push_literal(&mut out, ": { ");
    out.append(list.as_str());
    push_literal(&mut out, " } }");
    out
}

/// The cases of an enum's view or lazy view type.
pub open spec fn spec_enum_view_cases(e: EnumModel, items: Seq<ItemModel>, lazy: bool) -> Seq<char> {
    spec_join(
        e.variants.map_values(
            |v: VariantModel|
                if lazy {
                    spec_lazy_variant_type(v, items)
                } else {
                    spec_view_variant_type(v, items)
                },
        ),
        " | "@,
    )
}

fn enum_view_cases(e: &Enum, schema: &Schema, lazy: bool) -> (r: String)
    ensures
        r@ == spec_enum_view_cases(e@, schema@.items, lazy),
{
    let ghost items = schema@.items;
    let ghost parts = e@.variants.map_values(
        |v: VariantModel|
            if lazy {
                spec_lazy_variant_type(v, items)
            } else {
                spec_view_variant_type(v, items)
            },
    );
    let mut list = String::new();
    let mut i: usize = 0;
    while i < e.variants.len()
        invariant
            i <= e.variants@.len() == parts.len(),
            items == schema@.items,
            parts == e@.variants.map_values(
                |v: VariantModel|
                    if lazy {
                        spec_lazy_variant_type(v, items)
                    } else {
                        spec_view_variant_type(v, items)
                    },
            ),
            list@ == spec_join(parts.take(i as int), " | "@),
        decreases e.variants@.len() - i,
    {
        proof {
            lemma_join_step(parts, " | "@, i as int);
            assert(e@.variants[i as int] == e.variants@[i as int]@);
        }
        if i > 0 {
            push_literal(&mut list, " | ");
        }
        let part = variant_view_type(&e.variants[i], schema, lazy);
        list.append(part.as_str());
        assert(list@ =~= spec_join(parts.take(i + 1), " | "@));
        i = i + 1;
    }
    assert(parts.take(e.variants@.len() as int) =~= parts);
    list
}

/// The statements that read a variant into an enum's view.
pub open spec fn spec_view_variant_read(
    e: EnumModel,
    v: VariantModel,
    schema: crate::ast::SchemaModel,
) -> Seq<char> {
    spec_cid_test(spec_variant_cid(e, v, schema)) + "return { "@ + v.name + ": {"@ + spec_concat(
        v.fields.map_values(|f: FieldModel| " "@ + f.name + ": "@ + spec_view_expr(f.ty, schema.items) + ","@),
    ) + " } };"@
}

fn push_cid_test(out: &mut String, cid: &String)
    ensures
        final(out)@ == old(out)@ + spec_cid_test(cid@),
{
    push_literal(out, " if (c.every((x, i) => x === hex(\"");
    out.append(cid.as_str());
    push_literal(out, "\")[i])) ");
    assert(out@ =~= old(out)@ + spec_cid_test(cid@));
}

fn push_view_variant_read(out: &mut String, e: &Enum, v: &EnumVariant, schema: &Schema)
    ensures
        final(out)@ == old(out)@ + spec_view_variant_read(e@, v@, schema@),
{
    let ghost items = schema@.items;
    let ghost parts = v@.fields.map_values(
        |f: FieldModel| " "@ + f.name + ": "@ + spec_view_expr(f.ty, items) + ","@,
    );
    let cid = variant_cid_text(e, v, schema);
    let ghost start = out@;
    push_cid_test(out, &cid);
    push_literal(out, "return { ");
    out.append(v.name.as_str());
    push_literal(out, ": {");
    let ghost head = out@;
    let mut i: usize = 0;
    while i < v.fields.len()
        invariant
            i <= v.fields@.len() == parts.len(),
            items == schema@.items,
            parts == v@.fields.map_values(
                |f: FieldModel| " "@ + f.name + ": "@ + spec_view_expr(f.ty, items) + ","@,
            ),
            out@ == head + spec_concat(parts.take(i as int)),
        decreases v.fields@.len() - i,
    {
        proof {
            lemma_concat_step(parts, i as int);
            assert(v@.fields[i as int] == v.fields@[i as int]@);
        }
        let f = &v.fields[i];
        push_literal(out, " ");
        out.append(f.name.as_str());
        push_literal(out, ": ");
        typescript_decode_view_expression(&f.ty, schema, out);
        push_literal(out, ",");
        assert(out@ =~= head + spec_concat(parts.take(i + 1)));
        i = i + 1;
    }
    assert(parts.take(v.fields@.len() as int) =~= parts);
    push_literal(out, " } };");
    assert(out@ =~= start + spec_view_variant_read(e@, v@, schema@));
}

/// How a lazy view reads a collection field of a variant: an immediately
/// called function that scans the items once and returns the collection.
pub open spec fn spec_enum_collection(v: VariantModel, f: FieldModel, items: Seq<ItemModel>) -> Seq<
    char,
> {
    let id = spec_lowercase(v.name) + spec_without(f.name, '_');
    "(() => { const "@ + id + "Count = d.varint();"@ + spec_previous_key(f.ty, items) + " const "@
        + id + "Start = d.position(); for (let i = 0; i < "@ + id + "Count; i++) { "@ + spec_scan(
        f.ty,
        items,
    ) + " } return new LazyCollection(wire, "@ + id + "Start, "@ + id
        + "Count, (itemDecoder: WireDecoder): "@ + spec_lazy_item_type(f.ty, items) + " => "@
        + spec_callback(f.ty, items) + "); })()"@
}

fn push_enum_collection(out: &mut String, v: &EnumVariant, f: &Field, schema: &Schema)
    ensures
        final(out)@ == old(out)@ + spec_enum_collection(v@, f@, schema@.items),
{
    let (callback, scan, previous) = collection_parts(&f.ty, schema);
    let mut id = ascii_lowercase(v.name.as_str());
    let tail = without_char(f.name.as_str(), '_');
    id.append(tail.as_str());
    let item_type = typescript_lazy_item_type(&f.ty, schema);
    push_literal(out, "(() => { const ");
    out.append(id.as_str());
    push_literal(out, "Count = d.varint();");
    out.append(previous.as_str());
    push_literal(out, " const ");
    out.append(id.as_str());
    push_literal(out, "Start = d.position(); for (let i = 0; i < ");
    out.append(id.as_str());
    push_literal(out, "Count; i++) { ");
    out.append(scan.as_str());
    push_literal(out, " } return new LazyCollection(wire, ");
    out.append(id.as_str());
    push_literal(out, "Start, ");
    out.append(id.as_str());
    push_literal(out, "Count, (itemDecoder: WireDecoder): ");
    out.append(item_type.as_str());
    push_literal(out, " => ");
    out.append(callback.as_str());
    push_literal(out, "); })()");
    assert(out@ =~= old(out)@ + spec_enum_collection(v@, f@, schema@.items));
}

/// How a lazy view reads a field of a variant.
pub open spec fn spec_lazy_variant_field(v: VariantModel, f: FieldModel, items: Seq<ItemModel>) -> Seq<
    char,
> {
    " "@ + f.name + ": "@ + if spec_is_collection(f.ty) {
        spec_enum_collection(v, f, items)
    } else {
        spec_lazy_expr(f.ty, items)
    } + ","@
}

/// The statements that read a variant into an enum's lazy view.
pub open spec fn spec_lazy_variant_read(
    e: EnumModel,
    v: VariantModel,
    schema: crate::ast::SchemaModel,
) -> Seq<char> {
    spec_cid_test(spec_variant_cid(e, v, schema)) + "return { "@ + v.name + ": {"@ + spec_concat(
        v.fields.map_values(|f: FieldModel| spec_lazy_variant_field(v, f, schema.items)),
    ) + " } };"@
}

fn push_lazy_variant_read(out: &mut String, e: &Enum, v: &EnumVariant, schema: &Schema)
    ensures
        final(out)@ == old(out)@ + spec_lazy_variant_read(e@, v@, schema@),
{
    let ghost items = schema@.items;
    let ghost parts = v@.fields.map_values(|f: FieldModel| spec_lazy_variant_field(v@, f, items));
    let cid = variant_cid_text(e, v, schema);
    let ghost start = out@;
    push_cid_test(out, &cid);
    push_literal(out, "return { ");
    out.append(v.name.as_str());
    push_literal(out, ": {");
    let ghost head = out@;
    let mut i: usize = 0;
    while i < v.fields.len()
        invariant
            i <= v.fields@.len() == parts.len(),
            items == schema@.items,
            parts == v@.fields.map_values(|f: FieldModel| spec_lazy_variant_field(v@, f, items)),
            out@ == head + spec_concat(parts.take(i as int)),
        decreases v.fields@.len() - i,
    {
        proof {
            lemma_concat_step(parts, i as int);
            assert(v@.fields[i as int] == v.fields@[i as int]@);
        }
        let f = &v.fields[i];
        let ghost before = out@;
        push_literal(out, " ");
        out.append(f.name.as_str());
        push_literal(out, ": ");
        if is_collection(&f.ty) {
            push_enum_collection(out, v, f, schema);
        } else {
            typescript_decode_lazy_expression(&f.ty, schema, out);
        }
        push_literal(out, ",");
        assert(out@ =~= before + spec_lazy_variant_field(v@, f@, items));
        assert(out@ =~= head + spec_concat(parts.take(i + 1)));
        i = i + 1;
    }
    assert(parts.take(v.fields@.len() as int) =~= parts);
    push_literal(out, " } };");
    assert(out@ =~= start + spec_lazy_variant_read(e@, v@, schema@));
}

/// An enum's view or lazy view reader, without its exports.
pub open spec fn spec_enum_reader(e: EnumModel, schema: crate::ast::SchemaModel, lazy: bool) -> Seq<
    char,
> {
    let name = e.name;
    let lower = spec_lowercase(name);
    if lazy {
        "export type "@ + name + "LazyView = "@ + spec_enum_view_cases(e, schema.items, true)
            + ";\nfunction read_"@ + lower + "_lazy_view(d: WireDecoder, wire: Uint8Array): "@ + name
            + "LazyView { const c = d.take(8);"@ + spec_concat(
            e.variants.map_values(|v: VariantModel| spec_lazy_variant_read(e, v, schema)),
        ) + " throw new Error('unknown constructor'); }\n"@
    } else {
        "export type "@ + name + "View = "@ + spec_enum_view_cases(e, schema.items, false)
            + ";\nfunction read_"@ + lower + "_view(d: WireDecoder): "@ + name
            + "View { const c = d.take(8);"@ + spec_concat(
            e.variants.map_values(|v: VariantModel| spec_view_variant_read(e, v, schema)),
        ) + " throw new Error('unknown constructor'); }\n"@
    }
}

fn enum_reader(e: &Enum, schema: &Schema, lazy: bool) -> (r: String)
    ensures
        r@ == spec_enum_reader(e@, schema@, lazy),
{
    let ghost model = schema@;
    let name = &e.name;
    let lower = ascii_lowercase(name.as_str());
    let cases = enum_view_cases(e, schema, lazy);
    let mut out = "export type ".to_owned();
    out.append(name.as_str());
    if lazy {
        push_literal(&mut out, "LazyView = ");
    } else {
        push_literal(&mut out, "View = ");
    }
    out.append(cases.as_str());
    push_literal(&mut out, ";\nfunction read_");
    out.append(lower.as_str());
    if lazy {
        push_literal(&mut out, "_lazy_view(d: WireDecoder, wire: Uint8Array): ");
        out.append(name.as_str());
        push_literal(&mut out, "LazyView { const c = d.take(8);");
    } else {
        push_literal(&mut out, "_view(d: WireDecoder): ");
        out.append(name.as_str());
        push_literal(&mut out, "View { const c = d.take(8);");
    }
    let ghost parts = if lazy {
        e@.variants.map_values(|v: VariantModel| spec_lazy_variant_read(e@, v, model))
    } else {
        e@.variants.map_values(|v: VariantModel| spec_view_variant_read(e@, v, model))
    };
    let ghost head = out@;
    let mut i: usize = 0;
    while i < e.variants.len()
        invariant
            i <= e.variants@.len() == parts.len(),
            model == schema@,
            parts == if lazy {
                e@.variants.map_values(|v: VariantModel| spec_lazy_variant_read(e@, v, model))
            } else {
                e@.variants.map_values(|v: VariantModel| spec_view_variant_read(e@, v, model))
            },
            out@ == head + spec_concat(parts.take(i as int)),
        decreases e.variants@.len() - i,
    {
        proof {
            lemma_concat_step(parts, i as int);
            assert(e@.variants[i as int] == e.variants@[i as int]@);
        }
        if lazy {
            push_lazy_variant_read(&mut out, e, &e.variants[i], schema);
        } else {
            push_view_variant_read(&mut out, e, &e.variants[i], schema);
        }
        assert(out@ =~= head + spec_concat(parts.take(i + 1)));
        i = i + 1;
    }
    assert(parts.take(e.variants@.len() as int) =~= parts);
    push_literal(&mut out, " throw new Error('unknown constructor'); }\n");
    out
}

/// An enum's view and lazy view: the types, their readers, and the
/// functions that read a packet into them.
pub open spec fn spec_view_enum(e: EnumModel, schema: crate::ast::SchemaModel) -> Seq<char> {
    spec_enum_reader(e, schema, false) + spec_view_exports(e.name, "View"@, "_view(d)"@)
        + spec_enum_reader(e, schema, true) + spec_view_exports(
        e.name,
        "LazyView"@,
        "_lazy_view(d, wire)"@,
    )
}

pub(crate) fn generate_typescript_view_enum(item: &Enum, schema: &Schema, out: &mut String)
    ensures
        final(out)@ == old(out)@ + spec_view_enum(item@, schema@),
{
    let reader = enum_reader(item, schema, false);
    out.append(reader.as_str());
    let exports = view_exports(&item.name, "View", "_view(d)");
    out.append(exports.as_str());
    let lazy_reader = enum_reader(item, schema, true);
    out.append(lazy_reader.as_str());
    let lazy_exports = view_exports(&item.name, "LazyView", "_lazy_view(d, wire)");
    out.append(lazy_exports.as_str());
    assert(out@ =~= old(out)@ + spec_view_enum(item@, schema@));
}

// ---------------------------------------------------------------------------
// Owned values
// ---------------------------------------------------------------------------

/// The functions that write a value to a packet and read it from one.
pub open spec fn spec_codec_exports(name: Seq<char>) -> Seq<char> {
    let lower = spec_lowercase(name);
    "export function encode"@ + name + "(value: "@ + name
        + "): Uint8Array { const e = new WireEncoder(); write_"@ + lower
        + "(e, value); return e.finish(); }\nexport function decode"@ + name
        + "(wire: Uint8Array): "@ + name
        + " { const d = new WireDecoder(wire); const value = read_"@ + lower
        + "(d); d.done(); return value; }\n\n"@
}

fn codec_exports(name: &String) -> (r: String)
    ensures
        r@ == spec_codec_exports(name@),
{
    let lower = ascii_lowercase(name.as_str());
    let mut out = "export function encode".to_owned();
    out.append(name.as_str());
    push_literal(&mut out, "(value: ");
    out.append(name.as_str());
    push_literal(&mut out, "): Uint8Array { const e = new WireEncoder(); write_");
    out.append(lower.as_str());
    push_literal(&mut out, "(e, value); return e.finish(); }\nexport function decode");
    out.append(name.as_str());
    push_literal(&mut out, "(wire: Uint8Array): ");
    out.append(name.as_str());
    push_literal(&mut out, " { const d = new WireDecoder(wire); const value = read_");
    out.append(lower.as_str());
    push_literal(&mut out, "(d); d.done(); return value; }\n\n");
    out
}

/// The check that a field has its exact byte length.
pub open spec fn spec_exact_byte(expr: Seq<char>, exact_len: Option<usize>) -> Seq<char> {
    match exact_len {
        Some(n) => " if ("@ + expr + ".length !== "@ + spec_number(n as nat)
            + ") throw new Error('invalid exact byte length');"@,
        None => seq![],
    }
}

fn push_exact_byte(out: &mut String, expr: &str, exact_len: Option<usize>)
    ensures
        final(out)@ == old(out)@ + spec_exact_byte(expr@, exact_len),
{
    match exact_len {
        Some(n) => {
            push_literal(out, " if (");
            out.append(expr);
            push_literal(out, ".length !== ");
            let digits = number_text(n as u64);
            out.append(digits.as_str());
            push_literal(out, ") throw new Error('invalid exact byte length');");
        },
        None => {},
    }
    assert(out@ =~= old(out)@ + spec_exact_byte(expr@, exact_len));
}

/// An alias's reader expression, checking an exact length.
pub open spec fn spec_alias_read(a: crate::ast::AliasModel, items: Seq<ItemModel>) -> Seq<char> {
    match a.exact_len {
        Some(n) => "(()=>{const value = "@ + spec_decode_expr(a.ty, items)
            + "; if (value.length !== "@ + spec_number(n as nat)
            + ") throw new Error('invalid exact length'); return value;})()"@,
        None => spec_decode_expr(a.ty, items),
    }
}

/// An alias's writer, reader and codec functions.
pub open spec fn spec_typed_alias(a: crate::ast::AliasModel, items: Seq<ItemModel>, fuel: nat) -> Seq<
    char,
> {
    let lower = spec_lowercase(a.name);
    "function write_"@ + lower + "(e: WireEncoder, value: "@ + a.name + "): void {"@
        + spec_exact_check("value"@, a.exact_len) + spec_ts_encode(a.ty, "value"@, items, fuel)
        + "}\nfunction read_"@ + lower + "(d: WireDecoder): "@ + a.name + " { return "@
        + spec_alias_read(a, items) + "; }\n"@ + spec_codec_exports(a.name)
}

fn typed_alias(a: &crate::ast::Alias, schema: &Schema, fuel: usize) -> (r: String)
    requires
        spec_resolves(a@.ty, schema@.items, fuel as nat),
    ensures
        r@ == spec_typed_alias(a@, schema@.items, fuel as nat),
{
    let lower = ascii_lowercase(a.name.as_str());
    let mut out = "function write_".to_owned();
    out.append(lower.as_str());
    push_literal(&mut out, "(e: WireEncoder, value: ");
    out.append(a.name.as_str());
    push_literal(&mut out, "): void {");
    push_exact_check(&mut out, "value", a.exact_len);
    typescript_encode_type(&a.ty, "value", schema, fuel, &mut out);
    push_literal(&mut out, "}\nfunction read_");
    out.append(lower.as_str());
    push_literal(&mut out, "(d: WireDecoder): ");
    out.append(a.name.as_str());
    push_literal(&mut out, " { return ");
    match a.exact_len {
        Some(n) => {
            push_literal(&mut out, "(()=>{const value = ");
            typescript_decode_expression(&a.ty, schema, &mut out);
            push_literal(&mut out, "; if (value.length !== ");
            let digits = number_text(n as u64);
            out.append(digits.as_str());
            push_literal(&mut out, ") throw new Error('invalid exact length'); return value;})()");
        },
        None => {
            typescript_decode_expression(&a.ty, schema, &mut out);
        },
    }
    push_literal(&mut out, "; }\n");
    let exports = codec_exports(&a.name);
    out.append(exports.as_str());
    assert(out@ =~= spec_typed_alias(a@, schema@.items, fuel as nat));
    out
}

/// A flags type's writer, reader and codec functions.
pub open spec fn spec_typed_flags(f: crate::ast::FlagsModel) -> Seq<char> {
    let lower = spec_lowercase(f.name);
    let method = spec_wire_method(f.underlying);
    "function write_"@ + lower + "(e: WireEncoder, value: "@ + f.name + "): void { e."@ + method
        + "(value); }\nfunction read_"@ + lower + "(d: WireDecoder): "@ + f.name + " { return d."@
        + method + "(); }\n"@ + spec_codec_exports(f.name)
}

fn typed_flags(f: &crate::ast::Flags) -> (r: String)
    ensures
        r@ == spec_typed_flags(f@),
{
    let lower = ascii_lowercase(f.name.as_str());
    let method = typescript_wire_method(&f.underlying);
    let mut out = "function write_".to_owned();
    out.append(lower.as_str());
    push_literal(&mut out, "(e: WireEncoder, value: ");
    out.append(f.name.as_str());
    push_literal(&mut out, "): void { e.");
    out.append(method);
    push_literal(&mut out, "(value); }\nfunction read_");
    out.append(lower.as_str());
    push_literal(&mut out, "(d: WireDecoder): ");
    out.append(f.name.as_str());
    push_literal(&mut out, " { return d.");
    out.append(method);
    push_literal(&mut out, "(); }\n");
    let exports = codec_exports(&f.name);
    out.append(exports.as_str());
    out
}

/// A unit variant's value, zero when it has none.
pub open spec fn spec_unit_value(v: VariantModel) -> u64 {
    match v.value {
        Some(x) => x,
        None => 0,
    }
}

/// An integer enum's writer, reader and codec functions: each variant is
/// its value as a `u64`.
pub open spec fn spec_typed_unit_enum(e: EnumModel) -> Seq<char> {
    let lower = spec_lowercase(e.name);
    "function write_"@ + lower + "(e: WireEncoder, value: "@ + e.name
        + "): void { switch (value) {"@ + spec_concat(
        e.variants.map_values(
            |v: VariantModel|
                " case \""@ + v.name + "\": e.u64("@ + spec_number(spec_unit_value(v) as nat)
                    + "n); break;"@,
        ),
    ) + " } }\n"@ + "function read_"@ + lower + "(d: WireDecoder): "@ + e.name
        + " { switch (d.u64()) {"@ + spec_concat(
        e.variants.map_values(
            |v: VariantModel|
                " case "@ + spec_number(spec_unit_value(v) as nat) + "n: return \""@ + v.name
                    + "\";"@,
        ),
    ) + " default: throw new Error('invalid enum'); } }\n"@ + spec_codec_exports(e.name)
}

fn typed_unit_enum(e: &Enum) -> (r: String)
    ensures
        r@ == spec_typed_unit_enum(e@),
{
    let lower = ascii_lowercase(e.name.as_str());
    let ghost writes = e@.variants.map_values(
        |v: VariantModel|
            " case \""@ + v.name + "\": e.u64("@ + spec_number(spec_unit_value(v) as nat)
                + "n); break;"@,
    );
    let ghost reads = e@.variants.map_values(
        |v: VariantModel|
            " case "@ + spec_number(spec_unit_value(v) as nat) + "n: return \""@ + v.name + "\";"@,
    );
    let mut out = "function write_".to_owned();
    out.append(lower.as_str());
    push_literal(&mut out, "(e: WireEncoder, value: ");
    out.append(e.name.as_str());
    push_literal(&mut out, "): void { switch (value) {");
    let ghost head = out@;
    let mut i: usize = 0;
    while i < e.variants.len()
        invariant
            i <= e.variants@.len() == writes.len(),
            writes == e@.variants.map_values(
                |v: VariantModel|
                    " case \""@ + v.name + "\": e.u64("@ + spec_number(spec_unit_value(v) as nat)
                        + "n); break;"@,
            ),
            out@ == head + spec_concat(writes.take(i as int)),
        decreases e.variants@.len() - i,
    {
        proof {
            lemma_concat_step(writes, i as int);
            assert(e@.variants[i as int] == e.variants@[i as int]@);
        }
        let v = &e.variants[i];
        let value: u64 = match v.value {
            Some(x) => x,
            None => 0,
        };
        push_literal(&mut out, " case \"");
        out.append(v.name.as_str());
        push_literal(&mut out, "\": e.u64(");
        let digits = number_text(value);
        out.append(digits.as_str());
        push_literal(&mut out, "n); break;");
        assert(out@ =~= head + spec_concat(writes.take(i + 1)));
        i = i + 1;
    }
    assert(writes.take(e.variants@.len() as int) =~= writes);
    push_literal(&mut out, " } }\n");
    push_literal(&mut out, "function read_");
    out.append(lower.as_str());
    push_literal(&mut out, "(d: WireDecoder): ");
    out.append(e.name.as_str());
    push_literal(&mut out, " { switch (d.u64()) {");
    let ghost head2 = out@;
    let mut i: usize = 0;
    while i < e.variants.len()
        invariant
            i <= e.variants@.len() == reads.len(),
            reads == e@.variants.map_values(
                |v: VariantModel|
                    " case "@ + spec_number(spec_unit_value(v) as nat) + "n: return \""@ + v.name
                        + "\";"@,
            ),
            out@ == head2 + spec_concat(reads.take(i as int)),
        decreases e.variants@.len() - i,
    {
        proof {
            lemma_concat_step(reads, i as int);
            assert(e@.variants[i as int] == e.variants@[i as int]@);
        }
        let v = &e.variants[i];
        let value: u64 = match v.value {
            Some(x) => x,
            None => 0,
        };
        push_literal(&mut out, " case ");
        let digits = number_text(value);
        out.append(digits.as_str());
        push_literal(&mut out, "n: return \"");
        out.append(v.name.as_str());
        push_literal(&mut out, "\";");
        assert(out@ =~= head2 + spec_concat(reads.take(i + 1)));
        i = i + 1;
    }
    assert(reads.take(e.variants@.len() as int) =~= reads);
    push_literal(&mut out, " default: throw new Error('invalid enum'); } }\n");
    let exports = codec_exports(&e.name);
    out.append(exports.as_str());
    assert(out@ =~= spec_typed_unit_enum(e@));
    out
}

// ---------------------------------------------------------------------------
// Structs
// ---------------------------------------------------------------------------

/// A struct's Constructor ID: the declared one, else the one hashed from its
/// canonical form.
pub open spec fn spec_struct_cid(st: StructModel, schema: crate::ast::SchemaModel) -> Seq<char> {
    match st.cid {
        Some(c) => c,
        None => spec_cid_of_digest(
            blake3_digest(vstd::utf8::encode_utf8(spec_canonical_form_in(st, schema))),
        ),
    }
}

/// How the writer sets a guard's bit: from whether any field it guards is
/// present, declaring the owner's effective value the first time.
pub open spec fn spec_group_effective(groups: Seq<(Seq<char>, u64, Seq<Seq<char>>)>, k: int) -> Seq<
    char,
> {
    let owner = groups[k].0;
    let bit = spec_number(groups[k].1 as nat);
    let declaration = if exists|j: int| 0 <= j < k && (#[trigger] groups[j]).0 == owner {
        seq![]
    } else {
        " let effective_"@ + owner + " = value."@ + owner + ";"@
    };
    declaration + " if ("@ + spec_join(
        groups[k].2.map_values(|n: Seq<char>| "value."@ + n + " !== undefined"@),
        " || "@,
    ) + ") effective_"@ + owner + " |= (1 << "@ + bit + "); else effective_"@ + owner
        + " &= ~(1 << "@ + bit + ");"@
}

fn push_group_effective(out: &mut String, groups: &Vec<GuardGroup>, k: usize)
    requires
        k < groups@.len(),
    ensures
        final(out)@ == old(out)@ + spec_group_effective(
            groups@.map_values(|g: GuardGroup| spec_group_view(g)),
            k as int,
        ),
{
    let ghost view = groups@.map_values(|g: GuardGroup| spec_group_view(g));
    let owner = &groups[k].0;
    let mut declared = false;
    let mut j: usize = 0;
    while j < k
        invariant
            j <= k < groups@.len() == view.len(),
            view == groups@.map_values(|g: GuardGroup| spec_group_view(g)),
            owner@ == view[k as int].0,
            declared == exists|i: int| 0 <= i < j && (#[trigger] view[i]).0 == view[k as int].0,
        decreases k - j,
    {
        assert(view[j as int] == spec_group_view(groups@[j as int]));
        if groups[j].0 == *owner {
            declared = true;
        }
        j = j + 1;
    }
    let ghost start = out@;
    if !declared {
        push_literal(out, " let effective_");
        out.append(owner.as_str());
        push_literal(out, " = value.");
        out.append(owner.as_str());
        push_literal(out, ";");
    }
    push_literal(out, " if (");
    let names = &groups[k].2;
    let ghost parts = view[k as int].2.map_values(|n: Seq<char>| "value."@ + n + " !== undefined"@);
    assert(view[k as int].2 == names@.map_values(|s: String| s@));
    let ghost head = out@;
    let mut i: usize = 0;
    while i < names.len()
        invariant
            i <= names@.len() == parts.len(),
            parts == names@.map_values(|s: String| s@).map_values(
                |n: Seq<char>| "value."@ + n + " !== undefined"@,
            ),
            out@ == head + spec_join(parts.take(i as int), " || "@),
        decreases names@.len() - i,
    {
        proof {
            lemma_join_step(parts, " || "@, i as int);
        }
        let ghost before = out@;
        if i > 0 {
            push_literal(out, " || ");
        }
        push_literal(out, "value.");
        out.append(names[i].as_str());
        push_literal(out, " !== undefined");
        assert(out@ =~= head + spec_join(parts.take(i + 1), " || "@));
        i = i + 1;
    }
    assert(parts.take(names@.len() as int) =~= parts);
    let digits = number_text(groups[k].1);
    push_literal(out, ") effective_");
    out.append(owner.as_str());
    push_literal(out, " |= (1 << ");
    out.append(digits.as_str());
    push_literal(out, "); else effective_");
    out.append(owner.as_str());
    push_literal(out, " &= ~(1 << ");
    out.append(digits.as_str());
    push_literal(out, ");");
    assert(out@ =~= start + spec_group_effective(view, k as int));
}

/// The statements that write a struct's field.
pub open spec fn spec_field_write(
    f: FieldModel,
    groups: Seq<(Seq<char>, u64, Seq<Seq<char>>)>,
    fields: Seq<FieldModel>,
    items: Seq<ItemModel>,
    fuel: nat,
) -> Seq<char> {
    let expr = "value."@ + f.name;
    match f.guard {
        Some(guard) => {
            let (owner, bit) = spec_split_guard(guard);
            spec_guard_open(" if ((effective_"@, owner, spec_guard_bit(fields, items, owner, bit))
                + spec_exact_byte(expr + "!"@, f.exact_len) + spec_ts_encode(
                f.ty,
                expr + "!"@,
                items,
                fuel,
            ) + " }"@
        },
        None => {
            let target = if spec_owns_group(groups, f.name) {
                "effective_"@ + f.name
            } else {
                expr
            };
            spec_exact_byte(target, f.exact_len) + spec_ts_encode(f.ty, target, items, fuel)
        },
    }
}

fn push_field_write(
    out: &mut String,
    f: &Field,
    groups: &Vec<GuardGroup>,
    fields: &Vec<Field>,
    schema: &Schema,
    fuel: usize,
)
    requires
        spec_resolves(f@.ty, schema@.items, fuel as nat),
    ensures
        final(out)@ == old(out)@ + spec_field_write(
            f@,
            groups@.map_values(|g: GuardGroup| spec_group_view(g)),
            fields_model(fields@),
            schema@.items,
            fuel as nat,
        ),
{
    let mut expr = "value.".to_owned();
    expr.append(f.name.as_str());
    match &f.guard {
        Some(guard) => {
            let (owner, bit) = split_guard(guard);
            let value = ts_guard_bit(fields, schema, &owner, &bit);
            push_literal(out, " if ((effective_");
            out.append(owner.as_str());
            push_literal(out, " & (1 << ");
            let digits = number_text(value);
            out.append(digits.as_str());
            push_literal(out, ")) !== 0) {");
            let mut present = expr.clone();
            push_literal(&mut present, "!");
            push_exact_byte(out, present.as_str(), f.exact_len);
            typescript_encode_type(&f.ty, present.as_str(), schema, fuel, out);
            push_literal(out, " }");
        },
        None => {
            let target = if owns_group(groups, &f.name) {
                let mut t = "effective_".to_owned();
                t.append(f.name.as_str());
                t
            } else {
                expr
            };
            push_exact_byte(out, target.as_str(), f.exact_len);
            typescript_encode_type(&f.ty, target.as_str(), schema, fuel, out);
        },
    }
    assert(out@ =~= old(out)@ + spec_field_write(
        f@,
        groups@.map_values(|g: GuardGroup| spec_group_view(g)),
        fields_model(fields@),
        schema@.items,
        fuel as nat,
    ));
}

/// The statements that read a struct's field.
pub open spec fn spec_field_read(f: FieldModel, fields: Seq<FieldModel>, items: Seq<ItemModel>, fuel: nat) -> Seq<char> {
    let lhs = "value."@ + f.name;
    let body = spec_ts_decode(f.ty, lhs, items, fuel) + spec_exact_byte(lhs, f.exact_len);
    if f.guard is Some {
        spec_read_guard(f, fields, items) + body + " }"@
    } else {
        body
    }
}

fn push_field_read(out: &mut String, f: &Field, fields: &Vec<Field>, schema: &Schema, fuel: usize)
    requires
        spec_resolves(f@.ty, schema@.items, fuel as nat),
    ensures
        final(out)@ == old(out)@ + spec_field_read(f@, fields_model(fields@), schema@.items, fuel as nat),
{
    let mut lhs = "value.".to_owned();
    lhs.append(f.name.as_str());
    if f.guard.is_some() {
        push_read_guard(out, f, fields, schema);
    }
    typescript_decode_type(&f.ty, lhs.as_str(), schema, fuel, out);
    push_exact_byte(out, lhs.as_str(), f.exact_len);
    if f.guard.is_some() {
        push_literal(out, " }");
    }
    assert(out@ =~= old(out)@ + spec_field_read(f@, fields_model(fields@), schema@.items, fuel as nat));
}

/// Every field type of `fields` resolves its aliases within `fuel` steps.
pub open spec fn spec_fields_resolve(fields: Seq<FieldModel>, items: Seq<ItemModel>, fuel: nat) -> bool {
    forall|k: int| 0 <= k < fields.len() ==> spec_resolves((#[trigger] fields[k]).ty, items, fuel)
}

/// A struct's writer: its Constructor ID, the guard bits its fields decide,
/// then each field.
pub open spec fn spec_struct_writer(st: StructModel, schema: crate::ast::SchemaModel, fuel: nat) -> Seq<
    char,
> {
    let items = schema.items;
    let groups = spec_guard_groups(st.fields, st.fields, items);
    "const "@ + st.name + "CID = hex(\""@ + spec_struct_cid(st, schema)
        + "\");\nfunction write_"@ + spec_lowercase(st.name) + "(e: WireEncoder, value: "@ + st.name
        + "): void { e.raw("@ + st.name + "CID);"@ + spec_concat(
        Seq::new(groups.len(), |k: int| spec_group_effective(groups, k)),
    ) + spec_concat(st.fields.map_values(|f: FieldModel| spec_field_write(f, groups, st.fields, items, fuel)))
        + " }\n"@
}

fn struct_writer(st: &Struct, schema: &Schema, fuel: usize) -> (r: String)
    requires
        spec_fields_resolve(st@.fields, schema@.items, fuel as nat),
    ensures
        r@ == spec_struct_writer(st@, schema@, fuel as nat),
{
    let ghost items = schema@.items;
    let ghost fields = st@.fields;
    let cid = match &st.cid {
        Some(c) => c.clone(),
        None => constructor_cid_with_schema(st, schema),
    };
    let lower = ascii_lowercase(st.name.as_str());
    let mut out = "const ".to_owned();
    out.append(st.name.as_str());
    push_literal(&mut out, "CID = hex(\"");
    out.append(cid.as_str());
    push_literal(&mut out, "\");\nfunction write_");
    out.append(lower.as_str());
    push_literal(&mut out, "(e: WireEncoder, value: ");
    out.append(st.name.as_str());
    push_literal(&mut out, "): void { e.raw(");
    out.append(st.name.as_str());
    push_literal(&mut out, "CID);");
    let groups = ts_guard_groups(st, schema);
    let ghost view = groups@.map_values(|g: GuardGroup| spec_group_view(g));
    let ghost effective = Seq::new(view.len(), |k: int| spec_group_effective(view, k));
    let ghost head = out@;
    let mut k: usize = 0;
    while k < groups.len()
        invariant
            k <= groups@.len() == view.len() == effective.len(),
            view == groups@.map_values(|g: GuardGroup| spec_group_view(g)),
            effective == Seq::new(view.len(), |k: int| spec_group_effective(view, k)),
            out@ == head + spec_concat(effective.take(k as int)),
        decreases groups@.len() - k,
    {
        proof {
            lemma_concat_step(effective, k as int);
        }
        push_group_effective(&mut out, &groups, k);
        assert(out@ =~= head + spec_concat(effective.take(k + 1)));
        k = k + 1;
    }
    assert(effective.take(view.len() as int) =~= effective);
    let ghost writes = fields.map_values(|f: FieldModel| spec_field_write(f, view, fields, items, fuel as nat));
    let ghost head2 = out@;
    let mut i: usize = 0;
    while i < st.fields.len()
        invariant
            i <= st.fields@.len() == fields.len() == writes.len(),
            fields == st@.fields,
            items == schema@.items,
            view == groups@.map_values(|g: GuardGroup| spec_group_view(g)),
            spec_fields_resolve(fields, items, fuel as nat),
            writes == fields.map_values(|f: FieldModel| spec_field_write(f, view, fields, items, fuel as nat)),
            out@ == head2 + spec_concat(writes.take(i as int)),
        decreases st.fields@.len() - i,
    {
        proof {
            lemma_concat_step(writes, i as int);
            assert(fields[i as int] == st.fields@[i as int]@);
        }
        push_field_write(&mut out, &st.fields[i], &groups, &st.fields, schema, fuel);
        assert(out@ =~= head2 + spec_concat(writes.take(i + 1)));
        i = i + 1;
    }
    assert(writes.take(fields.len() as int) =~= writes);
    push_literal(&mut out, " }\n");
    assert(out@ =~= spec_struct_writer(st@, schema@, fuel as nat));
    out
}

/// A struct's reader: its Constructor ID, then each field.
pub open spec fn spec_struct_reader(st: StructModel, items: Seq<ItemModel>, fuel: nat) -> Seq<char> {
    "function read_"@ + spec_lowercase(st.name) + "(d: WireDecoder): "@ + st.name + " { cid(d, "@
        + st.name + "CID); const value = {} as "@ + st.name + ";"@ + spec_concat(
        st.fields.map_values(|f: FieldModel| spec_field_read(f, st.fields, items, fuel)),
    ) + " return value; }\n"@
}

fn struct_reader(st: &Struct, schema: &Schema, fuel: usize) -> (r: String)
    requires
        spec_fields_resolve(st@.fields, schema@.items, fuel as nat),
    ensures
        r@ == spec_struct_reader(st@, schema@.items, fuel as nat),
{
    let ghost items = schema@.items;
    let ghost fields = st@.fields;
    let lower = ascii_lowercase(st.name.as_str());
    let mut out = "function read_".to_owned();
    out.append(lower.as_str());
    push_literal(&mut out, "(d: WireDecoder): ");
    out.append(st.name.as_str());
    push_literal(&mut out, " { cid(d, ");
    out.append(st.name.as_str());
    push_literal(&mut out, "CID); const value = {} as ");
    out.append(st.name.as_str());
    push_literal(&mut out, ";");
    let ghost reads = fields.map_values(|f: FieldModel| spec_field_read(f, fields, items, fuel as nat));
    let ghost head = out@;
    let mut i: usize = 0;
    while i < st.fields.len()
        invariant
            i <= st.fields@.len() == fields.len() == reads.len(),
            fields == st@.fields,
            items == schema@.items,
            spec_fields_resolve(fields, items, fuel as nat),
            reads == fields.map_values(|f: FieldModel| spec_field_read(f, fields, items, fuel as nat)),
            out@ == head + spec_concat(reads.take(i as int)),
        decreases st.fields@.len() - i,
    {
        proof {
            lemma_concat_step(reads, i as int);
            assert(fields[i as int] == st.fields@[i as int]@);
        }
        push_field_read(&mut out, &st.fields[i], &st.fields, schema, fuel);
        assert(out@ =~= head + spec_concat(reads.take(i + 1)));
        i = i + 1;
    }
    assert(reads.take(fields.len() as int) =~= reads);
    push_literal(&mut out, " return value; }\n");
    out
}

/// A struct's writer, reader, codec functions and views.
pub open spec fn spec_typed_struct(st: StructModel, schema: crate::ast::SchemaModel, fuel: nat) -> Seq<
    char,
> {
    spec_struct_writer(st, schema, fuel) + spec_struct_reader(st, schema.items, fuel)
        + spec_codec_exports(st.name) + spec_view_struct(st, schema.items)
}

fn typed_struct(st: &Struct, schema: &Schema, fuel: usize, out: &mut String)
    requires
        spec_fields_resolve(st@.fields, schema@.items, fuel as nat),
        spec_lazy_fields_ok(st@.fields),
    ensures
        final(out)@ == old(out)@ + spec_typed_struct(st@, schema@, fuel as nat),
{
    let writer = struct_writer(st, schema, fuel);
    out.append(writer.as_str());
    let reader = struct_reader(st, schema, fuel);
    out.append(reader.as_str());
    let exports = codec_exports(&st.name);
    out.append(exports.as_str());
    generate_typescript_view_struct(st, schema, out);
    assert(out@ =~= old(out)@ + spec_typed_struct(st@, schema@, fuel as nat));
}

// ---------------------------------------------------------------------------
// Enums with fields
// ---------------------------------------------------------------------------

/// The statements that write a variant's fields.
pub open spec fn spec_variant_field_write(
    v: VariantModel,
    f: FieldModel,
    items: Seq<ItemModel>,
    fuel: nat,
) -> Seq<char> {
    let expr = "value."@ + v.name + "."@ + f.name;
    spec_exact_byte(expr, f.exact_len) + spec_ts_encode(f.ty, expr, items, fuel)
}

/// The statements that write a variant, when the value is that variant.
pub open spec fn spec_variant_write(
    e: EnumModel,
    v: VariantModel,
    schema: crate::ast::SchemaModel,
    fuel: nat,
) -> Seq<char> {
    " if (\""@ + v.name + "\" in value) { e.raw(hex(\""@ + spec_variant_cid(e, v, schema)
        + "\"));"@ + spec_concat(
        v.fields.map_values(|f: FieldModel| spec_variant_field_write(v, f, schema.items, fuel)),
    ) + " return; }"@
}

fn push_variant_write(out: &mut String, e: &Enum, v: &EnumVariant, schema: &Schema, fuel: usize)
    requires
        spec_fields_resolve(v@.fields, schema@.items, fuel as nat),
    ensures
        final(out)@ == old(out)@ + spec_variant_write(e@, v@, schema@, fuel as nat),
{
    let ghost items = schema@.items;
    let ghost fields = v@.fields;
    let ghost parts = fields.map_values(|f: FieldModel| spec_variant_field_write(v@, f, items, fuel as nat));
    let cid = variant_cid_text(e, v, schema);
    let ghost start = out@;
    push_literal(out, " if (\"");
    out.append(v.name.as_str());
    push_literal(out, "\" in value) { e.raw(hex(\"");
    out.append(cid.as_str());
    push_literal(out, "\"));");
    let ghost head = out@;
    let mut i: usize = 0;
    while i < v.fields.len()
        invariant
            i <= v.fields@.len() == fields.len() == parts.len(),
            fields == v@.fields,
            items == schema@.items,
            spec_fields_resolve(fields, items, fuel as nat),
            parts == fields.map_values(|f: FieldModel| spec_variant_field_write(v@, f, items, fuel as nat)),
            out@ == head + spec_concat(parts.take(i as int)),
        decreases v.fields@.len() - i,
    {
        proof {
            lemma_concat_step(parts, i as int);
            assert(fields[i as int] == v.fields@[i as int]@);
        }
        let f = &v.fields[i];
        let mut expr = "value.".to_owned();
        expr.append(v.name.as_str());
        push_literal(&mut expr, ".");
        expr.append(f.name.as_str());
        let ghost before = out@;
        push_exact_byte(out, expr.as_str(), f.exact_len);
        typescript_encode_type(&f.ty, expr.as_str(), schema, fuel, out);
        assert(out@ =~= before + spec_variant_field_write(v@, f@, items, fuel as nat));
        assert(out@ =~= head + spec_concat(parts.take(i + 1)));
        i = i + 1;
    }
    assert(parts.take(fields.len() as int) =~= parts);
    push_literal(out, " return; }");
    assert(out@ =~= start + spec_variant_write(e@, v@, schema@, fuel as nat));
}

/// The expression that reads a variant's field, checking an exact length.
pub open spec fn spec_variant_field_read(f: FieldModel, items: Seq<ItemModel>) -> Seq<char> {
    " "@ + f.name + ": "@ + match f.exact_len {
        Some(n) => "(() => { const value = "@ + spec_decode_expr(f.ty, items)
            + "; if (value.length !== "@ + spec_number(n as nat)
            + ") throw new Error('invalid exact byte length'); return value; })()"@,
        None => spec_decode_expr(f.ty, items),
    } + ","@
}

/// The statements that read a variant, when the packet's Constructor ID is
/// that variant's.
pub open spec fn spec_variant_read(e: EnumModel, v: VariantModel, schema: crate::ast::SchemaModel) -> Seq<
    char,
> {
    spec_cid_test(spec_variant_cid(e, v, schema)) + "{ return { "@ + v.name + ": {"@ + spec_concat(
        v.fields.map_values(|f: FieldModel| spec_variant_field_read(f, schema.items)),
    ) + " } }; }"@
}

fn push_variant_read(out: &mut String, e: &Enum, v: &EnumVariant, schema: &Schema)
    ensures
        final(out)@ == old(out)@ + spec_variant_read(e@, v@, schema@),
{
    let ghost items = schema@.items;
    let ghost parts = v@.fields.map_values(|f: FieldModel| spec_variant_field_read(f, items));
    let cid = variant_cid_text(e, v, schema);
    let ghost start = out@;
    push_cid_test(out, &cid);
    push_literal(out, "{ return { ");
    out.append(v.name.as_str());
    push_literal(out, ": {");
    let ghost head = out@;
    let mut i: usize = 0;
    while i < v.fields.len()
        invariant
            i <= v.fields@.len() == parts.len(),
            items == schema@.items,
            parts == v@.fields.map_values(|f: FieldModel| spec_variant_field_read(f, items)),
            out@ == head + spec_concat(parts.take(i as int)),
        decreases v.fields@.len() - i,
    {
        proof {
            lemma_concat_step(parts, i as int);
            assert(v@.fields[i as int] == v.fields@[i as int]@);
        }
        let f = &v.fields[i];
        let ghost before = out@;
        push_literal(out, " ");
        out.append(f.name.as_str());
        push_literal(out, ": ");
        match f.exact_len {
            Some(n) => {
                push_literal(out, "(() => { const value = ");
                typescript_decode_expression(&f.ty, schema, out);
                push_literal(out, "; if (value.length !== ");
                let digits = number_text(n as u64);
                out.append(digits.as_str());
                push_literal(
                    out,
                    ") throw new Error('invalid exact byte length'); return value; })()",
                );
            },
            None => {
                typescript_decode_expression(&f.ty, schema, out);
            },
        }
        push_literal(out, ",");
        assert(out@ =~= before + spec_variant_field_read(f@, items));
        assert(out@ =~= head + spec_concat(parts.take(i + 1)));
        i = i + 1;
    }
    assert(parts.take(v.fields@.len() as int) =~= parts);
    push_literal(out, " } }; }");
    assert(out@ =~= start + spec_variant_read(e@, v@, schema@));
}

/// Every field type of every variant resolves its aliases within `fuel`
/// steps.
pub open spec fn spec_variants_resolve(e: EnumModel, items: Seq<ItemModel>, fuel: nat) -> bool {
    forall|k: int| 0 <= k < e.variants.len() ==> spec_fields_resolve(
        (#[trigger] e.variants[k]).fields,
        items,
        fuel,
    )
}

/// An enum's writer: each variant that the value holds writes its
/// Constructor ID and its fields.
pub open spec fn spec_data_enum_writer(e: EnumModel, schema: crate::ast::SchemaModel, fuel: nat) -> Seq<char> {
    "function write_"@ + spec_lowercase(e.name) + "(e: WireEncoder, value: "@ + e.name + "): void {"@
        + spec_concat(
        e.variants.map_values(|v: VariantModel| spec_variant_write(e, v, schema, fuel)),
    ) + " throw new Error('unknown variant'); }\n"@
}

/// An enum's reader: the Constructor ID picks the variant whose fields
/// follow.
pub open spec fn spec_data_enum_reader(e: EnumModel, schema: crate::ast::SchemaModel) -> Seq<char> {
    "function read_"@ + spec_lowercase(e.name) + "(d: WireDecoder): "@ + e.name
        + " { const c = d.take(8);"@ + spec_concat(
        e.variants.map_values(|v: VariantModel| spec_variant_read(e, v, schema)),
    ) + " throw new Error('unknown constructor'); }\n"@
}

/// An enum's writer, reader, codec functions and views.
pub open spec fn spec_typed_data_enum(e: EnumModel, schema: crate::ast::SchemaModel, fuel: nat) -> Seq<
    char,
> {
    spec_data_enum_writer(e, schema, fuel) + spec_data_enum_reader(e, schema) + spec_codec_exports(e.name)
        + spec_view_enum(e, schema)
}

fn push_data_enum_writer(e: &Enum, schema: &Schema, fuel: usize, out: &mut String)
    requires
        spec_variants_resolve(e@, schema@.items, fuel as nat),
    ensures
        final(out)@ == old(out)@ + spec_data_enum_writer(e@, schema@, fuel as nat),
{
    let ghost model = schema@;
    let ghost writes = e@.variants.map_values(|v: VariantModel| spec_variant_write(e@, v, model, fuel as nat));
    let lower = ascii_lowercase(e.name.as_str());
    let ghost start = out@;
    push_literal(out, "function write_");
    out.append(lower.as_str());
    push_literal(out, "(e: WireEncoder, value: ");
    out.append(e.name.as_str());
    push_literal(out, "): void {");
    let ghost head = out@;
    let mut i: usize = 0;
    while i < e.variants.len()
        invariant
            i <= e.variants@.len() == writes.len(),
            model == schema@,
            spec_variants_resolve(e@, model.items, fuel as nat),
            writes == e@.variants.map_values(|v: VariantModel| spec_variant_write(e@, v, model, fuel as nat)),
            out@ == head + spec_concat(writes.take(i as int)),
        decreases e.variants@.len() - i,
    {
        proof {
            lemma_concat_step(writes, i as int);
            assert(e@.variants[i as int] == e.variants@[i as int]@);
        }
        push_variant_write(out, e, &e.variants[i], schema, fuel);
        assert(out@ =~= head + spec_concat(writes.take(i + 1)));
        i = i + 1;
    }
    assert(writes.take(e.variants@.len() as int) =~= writes);
    push_literal(out, " throw new Error('unknown variant'); }\n");
    assert(out@ =~= start + spec_data_enum_writer(e@, schema@, fuel as nat));
}

fn push_data_enum_reader(e: &Enum, schema: &Schema, out: &mut String)
    ensures
        final(out)@ == old(out)@ + spec_data_enum_reader(e@, schema@),
{
    let ghost model = schema@;
    let ghost reads = e@.variants.map_values(|v: VariantModel| spec_variant_read(e@, v, model));
    let lower = ascii_lowercase(e.name.as_str());
    let ghost start = out@;
    push_literal(out, "function read_");
    out.append(lower.as_str());
    push_literal(out, "(d: WireDecoder): ");
    out.append(e.name.as_str());
    push_literal(out, " { const c = d.take(8);");
    let ghost head = out@;
    let mut i: usize = 0;
    while i < e.variants.len()
        invariant
            i <= e.variants@.len() == reads.len(),
            model == schema@,
            reads == e@.variants.map_values(|v: VariantModel| spec_variant_read(e@, v, model)),
            out@ == head + spec_concat(reads.take(i as int)),
        decreases e.variants@.len() - i,
    {
        proof {
            lemma_concat_step(reads, i as int);
            assert(e@.variants[i as int] == e.variants@[i as int]@);
        }
        push_variant_read(out, e, &e.variants[i], schema);
        assert(out@ =~= head + spec_concat(reads.take(i + 1)));
        i = i + 1;
    }
    assert(reads.take(e.variants@.len() as int) =~= reads);
    push_literal(out, " throw new Error('unknown constructor'); }\n");
    assert(out@ =~= start + spec_data_enum_reader(e@, schema@));
}

fn typed_data_enum(e: &Enum, schema: &Schema, fuel: usize, out: &mut String)
    requires
        spec_variants_resolve(e@, schema@.items, fuel as nat),
    ensures
        final(out)@ == old(out)@ + spec_typed_data_enum(e@, schema@, fuel as nat),
{
    let ghost start = out@;
    push_data_enum_writer(e, schema, fuel, out);
    push_data_enum_reader(e, schema, out);
    let exports = codec_exports(&e.name);
    out.append(exports.as_str());
    generate_typescript_view_enum(e, schema, out);
    assert(out@ =~= start + spec_typed_data_enum(e@, schema@, fuel as nat));
}

// ---------------------------------------------------------------------------
// Items and the binding
// ---------------------------------------------------------------------------

/// Every variant of the enum is without fields: an integer enum.
pub open spec fn spec_unit_enum(e: EnumModel) -> bool {
    forall|k: int| 0 <= k < e.variants.len() ==> (#[trigger] e.variants[k]).fields.len() == 0
}

pub(crate) fn unit_enum(e: &Enum) -> (r: bool)
    ensures
        r == spec_unit_enum(e@),
{
    let mut i: usize = 0;
    while i < e.variants.len()
        invariant
            i <= e.variants@.len(),
            forall|k: int| 0 <= k < i ==> (#[trigger] e@.variants[k]).fields.len() == 0,
        decreases e.variants@.len() - i,
    {
        assert(e@.variants[i as int] == e.variants@[i as int]@);
        if e.variants[i].fields.len() != 0 {
            return false;
        }
        i = i + 1;
    }
    true
}

/// The TypeScript functions of one item.
pub open spec fn spec_typed_item(item: ItemModel, schema: crate::ast::SchemaModel, fuel: nat) -> Seq<
    char,
> {
    match item {
        ItemModel::Alias(a) => spec_typed_alias(a, schema.items, fuel),
        ItemModel::Struct(st) => spec_typed_struct(st, schema, fuel),
        ItemModel::Flags(f) => spec_typed_flags(f),
        ItemModel::Enum(e) => if spec_unit_enum(e) {
            spec_typed_unit_enum(e)
        } else {
            spec_typed_data_enum(e, schema, fuel)
        },
    }
}

/// What writing an item's functions needs: its aliases resolve within
/// `fuel` steps, and a struct's lazy view reads as collections only vectors
/// and maps.
pub open spec fn spec_item_ready(item: ItemModel, items: Seq<ItemModel>, fuel: nat) -> bool {
    match item {
        ItemModel::Alias(a) => spec_resolves(a.ty, items, fuel),
        ItemModel::Struct(st) => spec_fields_resolve(st.fields, items, fuel) && spec_lazy_fields_ok(
            st.fields,
        ),
        ItemModel::Enum(e) => spec_variants_resolve(e, items, fuel),
        ItemModel::Flags(_) => true,
    }
}

pub(crate) fn generate_typescript_typed_item(item: &Item, schema: &Schema, fuel: usize, out: &mut String)
    requires
        spec_item_ready(item@, schema@.items, fuel as nat),
    ensures
        final(out)@ == old(out)@ + spec_typed_item(item@, schema@, fuel as nat),
{
    match item {
        Item::Alias(a) => {
            let text = typed_alias(a, schema, fuel);
            out.append(text.as_str());
        },
        Item::Struct(st) => {
            typed_struct(st, schema, fuel, out);
        },
        Item::Flags(f) => {
            let text = typed_flags(f);
            out.append(text.as_str());
        },
        Item::Enum(e) => {
            if unit_enum(e) {
                let text = typed_unit_enum(e);
                out.append(text.as_str());
            } else {
                typed_data_enum(e, schema, fuel, out);
            }
        },
    }
}


/// The interface of a struct's owned value.
pub open spec fn spec_struct_interface(st: StructModel, items: Seq<ItemModel>) -> Seq<char> {
    "export interface "@ + st.name + " {\n"@ + spec_concat(
        st.fields.map_values(
            |f: FieldModel|
                "  "@ + f.name + spec_optional_mark(f) + ": "@ + spec_ts_type(f.ty, items) + ";\n"@,
        ),
    ) + "}\n\n"@
}

fn struct_interface(st: &Struct, schema: &Schema) -> (r: String)
    ensures
        r@ == spec_struct_interface(st@, schema@.items),
{
    let ghost items = schema@.items;
    let ghost parts = st@.fields.map_values(
        |f: FieldModel|
            "  "@ + f.name + spec_optional_mark(f) + ": "@ + spec_ts_type(f.ty, items) + ";\n"@,
    );
    let mut out = "export interface ".to_owned();
    out.append(st.name.as_str());
    push_literal(&mut out, " {\n");
    let ghost head = out@;
    let mut i: usize = 0;
    while i < st.fields.len()
        invariant
            i <= st.fields@.len() == parts.len(),
            items == schema@.items,
            parts == st@.fields.map_values(
                |f: FieldModel|
                    "  "@ + f.name + spec_optional_mark(f) + ": "@ + spec_ts_type(f.ty, items)
                        + ";\n"@,
            ),
            out@ == head + spec_concat(parts.take(i as int)),
        decreases st.fields@.len() - i,
    {
        proof {
            lemma_concat_step(parts, i as int);
            assert(st@.fields[i as int] == st.fields@[i as int]@);
        }
        let f = &st.fields[i];
        push_literal(&mut out, "  ");
        out.append(f.name.as_str());
        push_optional_mark(&mut out, f);
        push_literal(&mut out, ": ");
        let ty = typescript_type(&f.ty, schema);
        out.append(ty.as_str());
        push_literal(&mut out, ";\n");
        assert(out@ =~= head + spec_concat(parts.take(i + 1)));
        i = i + 1;
    }
    assert(parts.take(st.fields@.len() as int) =~= parts);
    push_literal(&mut out, "}\n\n");
    out
}

/// The functions that hand an item's packets to the native binding.
pub open spec fn spec_binary_functions(name: Seq<char>, layer: u16) -> Seq<char> {
    let lower = spec_lowercase(name);
    let layer = spec_number(layer as nat);
    "export function encodeBinary"@ + name
        + "(native: TypikonNative, wire: Uint8Array): Uint8Array { return native.encodeBinary("@
        + layer + ", \""@ + lower + "\", wire); }\nexport function decodeBinary"@ + name
        + "(native: TypikonNative, wire: Uint8Array): Uint8Array { return native.decodeBinary("@
        + layer + ", \""@ + lower + "\", wire); }\nexport function validateBinary"@ + name
        + "(native: TypikonNative, wire: Uint8Array): void { native.validateBinary("@ + layer
        + ", \""@ + lower + "\", wire); }\n\n"@
}

fn binary_functions(name: &String, layer: u16) -> (r: String)
    ensures
        r@ == spec_binary_functions(name@, layer),
{
    let lower = ascii_lowercase(name.as_str());
    let digits = number_text(layer as u64);
    let mut out = "export function encodeBinary".to_owned();
    out.append(name.as_str());
    push_literal(
        &mut out,
        "(native: TypikonNative, wire: Uint8Array): Uint8Array { return native.encodeBinary(",
    );
    out.append(digits.as_str());
    push_literal(&mut out, ", \"");
    out.append(lower.as_str());
    push_literal(&mut out, "\", wire); }\nexport function decodeBinary");
    out.append(name.as_str());
    push_literal(
        &mut out,
        "(native: TypikonNative, wire: Uint8Array): Uint8Array { return native.decodeBinary(",
    );
    out.append(digits.as_str());
    push_literal(&mut out, ", \"");
    out.append(lower.as_str());
    push_literal(&mut out, "\", wire); }\nexport function validateBinary");
    out.append(name.as_str());
    push_literal(&mut out, "(native: TypikonNative, wire: Uint8Array): void { native.validateBinary(");
    out.append(digits.as_str());
    push_literal(&mut out, ", \"");
    out.append(lower.as_str());
    push_literal(&mut out, "\", wire); }\n\n");
    out
}

/// An item's type in the binding: a struct's interface, or the type of any
/// other item.
pub open spec fn spec_binding_head(item: ItemModel, items: Seq<ItemModel>) -> Seq<char> {
    match item {
        ItemModel::Struct(st) => spec_struct_interface(st, items),
        _ => spec_item_type(item, items) + "\n\n"@,
    }
}

/// An item's part of the binding: its type, the native functions, and its
/// own codec functions and views.
#[verifier::opaque]
pub open spec fn spec_binding_item(item: ItemModel, schema: crate::ast::SchemaModel) -> Seq<char> {
    spec_binding_head(item, schema.items) + spec_binary_functions(item.name(), schema.version)
        + spec_typed_item(item, schema, schema.items.len())
}

/// What writing a schema's binding needs: each item is ready, its aliases
/// resolving within as many steps as the schema has items.
pub open spec fn spec_binding_ready(schema: crate::ast::SchemaModel) -> bool {
    forall|k: int|
        0 <= k < schema.items.len() ==> spec_item_ready(
            #[trigger] schema.items[k],
            schema.items,
            schema.items.len(),
        )
}

pub(crate) fn fields_resolve(fields: &Vec<Field>, schema: &Schema, fuel: usize) -> (r: bool)
    ensures
        r == spec_fields_resolve(fields@.map_values(|f: Field| f@), schema@.items, fuel as nat),
{
    let ghost model = fields@.map_values(|f: Field| f@);
    let mut i: usize = 0;
    while i < fields.len()
        invariant
            i <= fields@.len() == model.len(),
            model == fields@.map_values(|f: Field| f@),
            forall|k: int| 0 <= k < i ==> spec_resolves(#[trigger] model[k].ty, schema@.items, fuel as nat),
        decreases fields@.len() - i,
    {
        if !crate::typescript_expr::resolves(&fields[i].ty, schema, fuel) {
            assert(!spec_resolves(model[i as int].ty, schema@.items, fuel as nat));
            return false;
        }
        i = i + 1;
    }
    true
}

pub(crate) fn variants_resolve(e: &Enum, schema: &Schema, fuel: usize) -> (r: bool)
    ensures
        r == spec_variants_resolve(e@, schema@.items, fuel as nat),
{
    let mut k: usize = 0;
    while k < e.variants.len()
        invariant
            k <= e.variants@.len(),
            forall|j: int|
                0 <= j < k ==> spec_fields_resolve(
                    (#[trigger] e@.variants[j]).fields,
                    schema@.items,
                    fuel as nat,
                ),
        decreases e.variants@.len() - k,
    {
        let v = &e.variants[k];
        assert(e@.variants[k as int] == v@);
        assert(v@.fields == v.fields@.map_values(|f: Field| f@));
        if !fields_resolve(&v.fields, schema, fuel) {
            assert(!spec_fields_resolve(e@.variants[k as int].fields, schema@.items, fuel as nat));
            return false;
        }
        k = k + 1;
    }
    true
}

fn lazy_fields_ok(fields: &Vec<Field>) -> (r: bool)
    ensures
        r == spec_lazy_fields_ok(fields@.map_values(|f: Field| f@)),
{
    let ghost model = fields@.map_values(|f: Field| f@);
    let mut i: usize = 0;
    while i < fields.len()
        invariant
            i <= fields@.len() == model.len(),
            model == fields@.map_values(|f: Field| f@),
            forall|k: int|
                0 <= k < i && spec_collection_named(model, (#[trigger] model[k]).name) ==> (
                model[k].ty is Vec || model[k].ty is Mapping),
        decreases fields@.len() - i,
    {
        assert(model[i as int] == fields@[i as int]@);
        if collection_named(fields, &fields[i].name) {
            match &fields[i].ty {
                Type::Vec(_) | Type::Mapping(_, _) => {},
                _ => {
                    return false;
                },
            }
        }
        i = i + 1;
    }
    true
}

fn item_ready(item: &Item, schema: &Schema) -> (r: bool)
    ensures
        r == spec_item_ready(item@, schema@.items, schema@.items.len()),
{
    let fuel = schema.items.len();
    match item {
        Item::Alias(a) => crate::typescript_expr::resolves(&a.ty, schema, fuel),
        Item::Struct(st) => {
            assert(st@.fields == st.fields@.map_values(|f: Field| f@));
            fields_resolve(&st.fields, schema, fuel) && lazy_fields_ok(&st.fields)
        },
        Item::Enum(e) => variants_resolve(e, schema, fuel),
        Item::Flags(_) => true,
    }
}

/// Whether the TypeScript binding of `schema` can be written: exactly when
/// no alias refers back to itself along the types that writing and reading
/// a value follow, and every field that a struct's lazy view reads as a
/// collection is a vector or a map.
pub fn typescript_binding_ready(schema: &Schema) -> (r: bool)
    ensures
        r == spec_binding_ready(schema@),
{
    let mut k: usize = 0;
    while k < schema.items.len()
        invariant
            k <= schema.items@.len(),
            forall|j: int|
                0 <= j < k ==> spec_item_ready(
                    #[trigger] schema@.items[j],
                    schema@.items,
                    schema@.items.len(),
                ),
        decreases schema.items@.len() - k,
    {
        assert(schema@.items[k as int] == schema.items@[k as int]@);
        if !item_ready(&schema.items[k], schema) {
            return false;
        }
        k = k + 1;
    }
    true
}

/// The TypeScript binding of a schema.
pub open spec fn spec_typescript_binding(schema: crate::ast::SchemaModel) -> Seq<char> {
    TS_PREAMBLE@ + spec_concat(
        schema.items.map_values(|item: ItemModel| spec_binding_item(item, schema)),
    )
}

fn push_binding_head(item: &Item, schema: &Schema, out: &mut String)
    ensures
        final(out)@ == old(out)@ + spec_binding_head(item@, schema@.items),
{
    let ghost before = out@;
    match item {
        Item::Struct(st) => {
            let text = struct_interface(st, schema);
            out.append(text.as_str());
        },
        _ => {
            let text = typescript_item_type(item, schema);
            out.append(text.as_str());
            push_literal(out, "\n\n");
        },
    }
    assert(out@ =~= before + spec_binding_head(item@, schema@.items));
}

fn push_binding_item(item: &Item, schema: &Schema, out: &mut String)
    requires
        spec_item_ready(item@, schema@.items, schema@.items.len()),
    ensures
        final(out)@ == old(out)@ + spec_binding_item(item@, schema@),
{
    let ghost before = out@;
    push_binding_head(item, schema, out);
    let binary = binary_functions(item.name(), schema.version);
    out.append(binary.as_str());
    generate_typescript_typed_item(item, schema, schema.items.len(), out);
    proof {
        reveal(spec_binding_item);
    }
    assert(out@ =~= before + spec_binding_item(item@, schema@));
}

/// The TypeScript binding of `schema`: the wire runtime, then for each item
/// its type, the functions that hand its packets to the native binding, its
/// writer, reader and codec functions, and for structs and enums with fields
/// their views and lazy views.
pub fn generate_typescript_binding(schema: &Schema) -> (r: String)
    requires
        spec_binding_ready(schema@),
    ensures
        r@ == spec_typescript_binding(schema@),
{
    let ghost model = schema@;
    let fuel = schema.items.len();
    let ghost parts = model.items.map_values(|item: ItemModel| spec_binding_item(item, model));
    let mut out = TS_PREAMBLE.to_owned();
    let ghost head = out@;
    let mut i: usize = 0;
    while i < schema.items.len()
        invariant
            i <= schema.items@.len() == parts.len() == fuel,
            model == schema@,
            spec_binding_ready(model),
            parts == model.items.map_values(|item: ItemModel| spec_binding_item(item, model)),
            out@ == head + spec_concat(parts.take(i as int)),
        decreases schema.items@.len() - i,
    {
        proof {
            lemma_concat_step(parts, i as int);
            assert(model.items[i as int] == schema.items@[i as int]@);
        }
        let item = &schema.items[i];
        push_binding_item(item, schema, &mut out);
        assert(out@ =~= head + spec_concat(parts.take(i + 1)));
        i = i + 1;
    }
    assert(parts.take(fuel as int) =~= parts);
    out
}

} // verus!
