//! Semantic checks of a parsed schema: item and field names, types, guards,
//! enums, flags and declared Constructor IDs.

use vstd::prelude::*;
use vstd::string::StrSliceExecFns;
use vstd::utf8::encode_utf8;

use crate::ast::{
    fields_model, items_model, Enum, EnumModel, Field, FieldModel, Flags, FlagsModel, Item,
    ItemModel, Schema, SchemaModel, StructModel, Type, TypeModel, VariantModel,
};
use crate::error::ParseError;
use crate::fingerprint::{
    blake3_digest, constructor_cid, spec_canonical_form, spec_cid_of_digest,
    spec_variant_canonical_form, variant_cid,
};
use crate::text::text_is;

verus! {

// ---------------------------------------------------------------------------
// What a check reports
// ---------------------------------------------------------------------------

/// `r` is what a check that finds `expected` returns: success when nothing
/// is found, else the error with that message at position zero.
pub open spec fn spec_reports(r: Result<(), ParseError>, expected: Option<Seq<char>>) -> bool {
    match expected {
        None => r is Ok,
        Some(message) => r matches Err(e) && e.message@ == message && e.position == 0,
    }
}

/// The first of two findings.
pub open spec fn spec_first(a: Option<Seq<char>>, b: Option<Seq<char>>) -> Option<Seq<char>> {
    match a {
        Some(m) => Some(m),
        None => b,
    }
}

fn error(message: &str) -> (e: ParseError)
    ensures
        e.message@ == message@,
        e.position == 0,
{
    ParseError { message: message.to_owned(), position: 0 }
}

// ---------------------------------------------------------------------------
// Names
// ---------------------------------------------------------------------------

/// The built-in scalar type names.
pub open spec fn spec_is_primitive_name(name: Seq<char>) -> bool {
    ||| name == "bool"@
    ||| name == "u8"@
    ||| name == "u16"@
    ||| name == "u32"@
    ||| name == "u64"@
    ||| name == "u128"@
    ||| name == "i8"@
    ||| name == "i16"@
    ||| name == "i32"@
    ||| name == "i64"@
    ||| name == "i128"@
    ||| name == "f32"@
    ||| name == "f64"@
    ||| name == "String"@
}

/// The built-in types that can key a map: all but the floats.
pub open spec fn spec_is_map_key_type(name: Seq<char>) -> bool {
    spec_is_primitive_name(name) && name != "f32"@ && name != "f64"@
}

fn is_primitive_name(name: &String) -> (r: bool)
    ensures
        r == spec_is_primitive_name(name@),
{
    text_is(name, "bool") || text_is(name, "u8") || text_is(name, "u16") || text_is(name, "u32")
        || text_is(name, "u64") || text_is(name, "u128") || text_is(name, "i8") || text_is(
        name,
        "i16",
    ) || text_is(name, "i32") || text_is(name, "i64") || text_is(name, "i128") || text_is(
        name,
        "f32",
    ) || text_is(name, "f64") || text_is(name, "String")
}

fn is_map_key_type(name: &String) -> (r: bool)
    ensures
        r == spec_is_map_key_type(name@),
{
    is_primitive_name(name) && !text_is(name, "f32") && !text_is(name, "f64")
}

/// `Vec<u8>`.
pub open spec fn spec_is_bytes_vec(ty: TypeModel) -> bool {
    match ty {
        TypeModel::Vec(item) => match *item {
            TypeModel::Primitive(name) => name == "u8"@,
            _ => false,
        },
        _ => false,
    }
}

fn is_bytes_vec(ty: &Type) -> (r: bool)
    ensures
        r == spec_is_bytes_vec(ty@),
{
    proof {
        reveal_with_fuel(crate::ast::type_model, 2);
    }
    match ty {
        Type::Vec(item) => match &**item {
            Type::Primitive(name) => text_is(name, "u8"),
            _ => false,
        },
        _ => false,
    }
}

/// The lowercase mapping of a character.
pub uninterp spec fn lowercase_mapping(c: char) -> Seq<char>;

/// `char::to_lowercase`, collected into a string. Claimed: the result depends
/// on `c` alone, and an ASCII capital letter maps to its small letter while
/// any other ASCII character maps to itself. What it gives for other
/// characters (the Unicode tables) is not stated.
#[verifier::external_body]
fn char_to_lowercase(c: char) -> (r: String)
    ensures
        r@ == lowercase_mapping(c),
        65 <= (c as u32) <= 90 ==> r@ == seq![((c as u32) + 32) as char],
        (c as u32) < 128 && !(65 <= (c as u32) <= 90) ==> r@ == seq![c],
{
    c.to_lowercase().collect()
}

/// A name with its underscores dropped and its letters lowered, the form in
/// which flag bits are compared.
pub open spec fn spec_normalize_name(name: Seq<char>) -> Seq<char>
    decreases name.len(),
{
    if name.len() == 0 {
        seq![]
    } else {
        spec_normalize_name(name.drop_last()) + if name.last() == '_' {
            Seq::<char>::empty()
        } else {
            lowercase_mapping(name.last())
        }
    }
}

pub(crate) fn normalize_name(name: &String) -> (r: String)
    ensures
        r@ == spec_normalize_name(name@),
{
    let s = name.as_str();
    let len = s.unicode_len();
    let mut out = String::new();
    let mut i: usize = 0;
    assert(name@.take(0) =~= Seq::<char>::empty());
    while i < len
        invariant
            i <= len == s@.len(),
            s@ == name@,
            out@ == spec_normalize_name(name@.take(i as int)),
        decreases len - i,
    {
        let c = s.get_char(i);
        if c != '_' {
            let lower = char_to_lowercase(c);
            out.append(lower.as_str());
        }
        proof {
            assert(name@.take(i + 1).drop_last() =~= name@.take(i as int));
            assert(out@ =~= spec_normalize_name(name@.take(i + 1)));
        }
        i = i + 1;
    }
    assert(name@.take(len as int) =~= name@);
    out
}

/// Some item of `items` is named `name`.
pub open spec fn spec_declares(items: Seq<ItemModel>, name: Seq<char>) -> bool {
    exists|i: int| 0 <= i < items.len() && #[trigger] items[i].name() == name
}

fn declares(items: &Vec<Item>, name: &String) -> (r: bool)
    ensures
        r == spec_declares(items_model(items@), name@),
{
    let ghost model = items_model(items@);
    let mut i: usize = 0;
    while i < items.len()
        invariant
            i <= items@.len() == model.len(),
            model == items_model(items@),
            forall|j: int| 0 <= j < i ==> #[trigger] model[j].name() != name@,
        decreases items@.len() - i,
    {
        assert(model[i as int] == items@[i as int]@);
        if *items[i].name() == *name {
            return true;
        }
        i = i + 1;
    }
    false
}

// ---------------------------------------------------------------------------
// Types
// ---------------------------------------------------------------------------

/// What is wrong with a type, if anything: a name that is neither built in
/// nor declared, an empty fixed byte array, or a map key that is not an
/// orderable built-in type.
pub open spec fn spec_type_error(ty: TypeModel, items: Seq<ItemModel>) -> Option<Seq<char>>
    decreases ty,
{
    match ty {
        TypeModel::Primitive(name) => if spec_is_primitive_name(name) || spec_declares(items, name) {
            None
        } else {
            Some("unknown type"@)
        },
        TypeModel::FixedBytes(n) => if n > 0 {
            None
        } else {
            Some("fixed byte length must be greater than zero"@)
        },
        TypeModel::Optional(item) => spec_type_error(*item, items),
        TypeModel::Vec(item) => spec_type_error(*item, items),
        TypeModel::Mapping(key, value) => {
            let orderable = match *key {
                TypeModel::Primitive(name) => spec_is_map_key_type(name),
                _ => false,
            };
            if !orderable {
                Some("map key must be an orderable primitive type"@)
            } else {
                spec_first(spec_type_error(*key, items), spec_type_error(*value, items))
            }
        },
    }
}

fn validate_type(ty: &Type, schema: &Schema) -> (r: Result<(), ParseError>)
    ensures
        spec_reports(r, spec_type_error(ty@, schema@.items)),
    decreases ty,
{
    match ty {
        Type::Primitive(name) => {
            if is_primitive_name(name) || declares(&schema.items, name) {
                Ok(())
            } else {
                Err(error("unknown type"))
            }
        },
        Type::FixedBytes(length) => {
            if *length > 0 {
                Ok(())
            } else {
                Err(error("fixed byte length must be greater than zero"))
            }
        },
        Type::Optional(item) => validate_type(item, schema),
        Type::Vec(item) => validate_type(item, schema),
        Type::Mapping(key, value) => {
            let orderable = match &**key {
                Type::Primitive(name) => is_map_key_type(name),
                _ => false,
            };
            proof {
                reveal_with_fuel(crate::ast::type_model, 2);
            }
            if !orderable {
                return Err(error("map key must be an orderable primitive type"));
            }
            match validate_type(key, schema) {
                Ok(()) => {},
                Err(e) => return Err(e),
            }
            validate_type(value, schema)
        },
    }
}

// ---------------------------------------------------------------------------
// Fields and guards
// ---------------------------------------------------------------------------

/// `i` is the position of the first `.` of `s`.
pub open spec fn spec_first_dot_at(s: Seq<char>, i: int) -> bool {
    &&& 0 <= i < s.len()
    &&& s[i] == '.'
    &&& forall|j: int| 0 <= j < i ==> s[j] != '.'
}

/// `s` cut at its first `.`: what comes before it and what comes after.
pub open spec fn spec_split_at_dot(s: Seq<char>) -> Option<(Seq<char>, Seq<char>)> {
    if exists|i: int| spec_first_dot_at(s, i) {
        let i = choose|i: int| spec_first_dot_at(s, i);
        Some((s.take(i), s.skip(i + 1)))
    } else {
        None
    }
}

fn split_at_dot(s: &String) -> (r: Option<(String, String)>)
    ensures
        match spec_split_at_dot(s@) {
            None => r is None,
            Some((a, b)) => r matches Some((x, y)) && x@ == a && y@ == b,
        },
{
    let t = s.as_str();
    let len = t.unicode_len();
    let mut i: usize = 0;
    while i < len
        invariant
            i <= len == t@.len(),
            t@ == s@,
            forall|j: int| 0 <= j < i ==> s@[j] != '.',
        decreases len - i,
    {
        if t.get_char(i) == '.' {
            proof {
                assert(spec_first_dot_at(s@, i as int));
                let k = choose|k: int| spec_first_dot_at(s@, k);
                if k < i {
                    assert(s@[k] != '.');
                } else if k > i {
                    assert(s@[i as int] != '.');
                }
                assert(k == i);
            }
            let owner = t.substring_char(0, i).to_owned();
            let bit = t.substring_char(i + 1, len).to_owned();
            return Some((owner, bit));
        }
        i = i + 1;
    }
    None
}

/// The first field of `fields` named `name`.
pub open spec fn spec_find_field(fields: Seq<FieldModel>, name: Seq<char>) -> Option<FieldModel>
    decreases fields.len(),
{
    if fields.len() == 0 {
        None
    } else if fields[0].name == name {
        Some(fields[0])
    } else {
        spec_find_field(fields.drop_first(), name)
    }
}

pub(crate) fn find_field<'a>(fields: &'a Vec<Field>, count: usize, name: &String) -> (r: Option<&'a Field>)
    requires
        count <= fields@.len(),
    ensures
        match spec_find_field(fields_model(fields@).take(count as int), name@) {
            Some(f) => r matches Some(x) && x@ == f,
            None => r is None,
        },
{
    let ghost model = fields_model(fields@).take(count as int);
    let mut i: usize = 0;
    assert(model.skip(0) =~= model);
    while i < count
        invariant
            i <= count <= fields@.len(),
            model == fields_model(fields@).take(count as int),
            spec_find_field(model, name@) == spec_find_field(model.skip(i as int), name@),
        decreases count - i,
    {
        proof {
            assert(model.skip(i as int).drop_first() =~= model.skip(i + 1));
            assert(model.skip(i as int)[0] == fields@[i as int]@);
        }
        if fields[i].name == *name {
            return Some(&fields[i]);
        }
        i = i + 1;
    }
    None
}

/// The flags type `f` has a bit whose normalized name is that of `bit`.
pub open spec fn spec_flags_have_bit(f: FlagsModel, bit: Seq<char>) -> bool {
    exists|k: int|
        0 <= k < f.bits.len() && spec_normalize_name(#[trigger] f.bits[k].name)
            == spec_normalize_name(bit)
}

/// Some flags item of `items` named `flag_type` has the bit `bit`.
pub open spec fn spec_flag_bit_declared(
    items: Seq<ItemModel>,
    flag_type: Seq<char>,
    bit: Seq<char>,
) -> bool {
    exists|i: int|
        0 <= i < items.len() && (#[trigger] items[i] matches ItemModel::Flags(f) && f.name
            == flag_type && spec_flags_have_bit(f, bit))
}

fn flags_have_bit(f: &Flags, bit: &String) -> (r: bool)
    ensures
        r == spec_flags_have_bit(f@, bit@),
{
    let wanted = normalize_name(bit);
    let mut k: usize = 0;
    while k < f.bits.len()
        invariant
            k <= f.bits@.len(),
            wanted@ == spec_normalize_name(bit@),
            forall|j: int|
                0 <= j < k ==> spec_normalize_name(#[trigger] f@.bits[j].name) != wanted@,
        decreases f.bits@.len() - k,
    {
        assert(f@.bits[k as int] == f.bits@[k as int]@);
        let name = normalize_name(&f.bits[k].name);
        if name == wanted {
            assert(spec_normalize_name(f@.bits[k as int].name) == spec_normalize_name(bit@));
            return true;
        }
        k = k + 1;
    }
    false
}

fn flag_bit_declared(items: &Vec<Item>, flag_type: &String, bit: &String) -> (r: bool)
    ensures
        r == spec_flag_bit_declared(items_model(items@), flag_type@, bit@),
{
    let ghost model = items_model(items@);
    let mut i: usize = 0;
    while i < items.len()
        invariant
            i <= items@.len() == model.len(),
            model == items_model(items@),
            forall|j: int|
                0 <= j < i ==> !(#[trigger] model[j] matches ItemModel::Flags(f) && f.name
                    == flag_type@ && spec_flags_have_bit(f, bit@)),
        decreases items@.len() - i,
    {
        assert(model[i as int] == items@[i as int]@);
        match &items[i] {
            Item::Flags(f) => {
                if f.name == *flag_type && flags_have_bit(f, bit) {
                    return true;
                }
            },
            _ => {},
        }
        i = i + 1;
    }
    false
}

/// What is wrong with a guard `owner.bit`, given the fields before the
/// guarded one: it must name an earlier field whose type is a flags type with
/// that bit.
pub open spec fn spec_guard_error(
    guard: Seq<char>,
    earlier: Seq<FieldModel>,
    items: Seq<ItemModel>,
) -> Option<Seq<char>> {
    match spec_split_at_dot(guard) {
        None => Some("malformed guard"@),
        Some((owner, bit)) => match spec_find_field(earlier, owner) {
            None => Some("guard must reference an earlier field"@),
            Some(f) => match f.ty {
                TypeModel::Primitive(flag_type) => if spec_flag_bit_declared(items, flag_type, bit) {
                    None
                } else {
                    Some("guard references an unknown flag bit"@)
                },
                _ => Some("guard owner must be a flags type"@),
            },
        },
    }
}

fn check_guard(guard: &String, fields: &Vec<Field>, index: usize, schema: &Schema) -> (r: Result<
    (),
    ParseError,
>)
    requires
        index <= fields@.len(),
    ensures
        spec_reports(
            r,
            spec_guard_error(guard@, fields_model(fields@).take(index as int), schema@.items),
        ),
{
    let (owner, bit) = match split_at_dot(guard) {
        Some(parts) => parts,
        None => return Err(error("malformed guard")),
    };
    let flag_field = match find_field(fields, index, &owner) {
        Some(f) => f,
        None => return Err(error("guard must reference an earlier field")),
    };
    let flag_type = match &flag_field.ty {
        Type::Primitive(name) => name,
        _ => return Err(error("guard owner must be a flags type")),
    };
    if !flag_bit_declared(&schema.items, flag_type, &bit) {
        return Err(error("guard references an unknown flag bit"));
    }
    Ok(())
}

/// What is wrong with the field at `k`, given the fields before it: a name
/// used before, its type, an exact length on anything but `Vec<u8>`, its
/// guard.
pub open spec fn spec_field_error(fields: Seq<FieldModel>, k: int, items: Seq<ItemModel>) -> Option<
    Seq<char>,
> {
    let f = fields[k];
    if exists|j: int| 0 <= j < k && #[trigger] fields[j].name == f.name {
        Some("duplicate field name"@)
    } else if spec_type_error(f.ty, items) is Some {
        spec_type_error(f.ty, items)
    } else if f.exact_len is Some && !spec_is_bytes_vec(f.ty) {
        Some("exact_len is only valid for Vec<u8>"@)
    } else {
        match f.guard {
            None => None,
            Some(g) => spec_guard_error(g, fields.take(k), items),
        }
    }
}

/// The first error among the first `n` fields.
pub open spec fn spec_fields_error(fields: Seq<FieldModel>, n: int, items: Seq<ItemModel>) -> Option<
    Seq<char>,
>
    decreases n,
{
    if n <= 0 {
        None
    } else {
        spec_first(spec_fields_error(fields, n - 1, items), spec_field_error(fields, n - 1, items))
    }
}

/// The first error among the first `n` fields is the first error among all
/// later prefixes too.
pub proof fn lemma_fields_error_stable(
    fields: Seq<FieldModel>,
    m: int,
    n: int,
    items: Seq<ItemModel>,
)
    requires
        0 <= m <= n,
        spec_fields_error(fields, m, items) is Some,
    ensures
        spec_fields_error(fields, n, items) == spec_fields_error(fields, m, items),
    decreases n - m,
{
    if n > m {
        lemma_fields_error_stable(fields, m, n - 1, items);
    }
}

fn check_field(fields: &Vec<Field>, index: usize, schema: &Schema) -> (r: Result<(), ParseError>)
    requires
        index < fields@.len(),
    ensures
        spec_reports(r, spec_field_error(fields_model(fields@), index as int, schema@.items)),
{
    let ghost model = fields_model(fields@);
    let field = &fields[index];
    assert(model[index as int] == field@);
    let mut j: usize = 0;
    while j < index
        invariant
            j <= index < fields@.len() == model.len(),
            model == fields_model(fields@),
            *field == fields@[index as int],
            forall|m: int| 0 <= m < j ==> #[trigger] model[m].name != field.name@,
        decreases index - j,
    {
        assert(model[j as int] == fields@[j as int]@);
        if fields[j].name == field.name {
            assert(model[j as int].name == model[index as int].name);
            return Err(error("duplicate field name"));
        }
        j = j + 1;
    }
    match validate_type(&field.ty, schema) {
        Ok(()) => {},
        Err(e) => return Err(e),
    }
    if field.exact_len.is_some() && !is_bytes_vec(&field.ty) {
        return Err(error("exact_len is only valid for Vec<u8>"));
    }
    match &field.guard {
        Some(guard) => check_guard(guard, fields, index, schema),
        None => Ok(()),
    }
}

fn validate_fields(fields: &Vec<Field>, schema: &Schema) -> (r: Result<(), ParseError>)
    ensures
        spec_reports(r, spec_fields_error(fields_model(fields@), fields@.len() as int, schema@.items)),
{
    let mut index: usize = 0;
    while index < fields.len()
        invariant
            index <= fields@.len(),
            spec_fields_error(fields_model(fields@), index as int, schema@.items) is None,
        decreases fields@.len() - index,
    {
        let r = check_field(fields, index, schema);
        if r.is_err() {
            proof {
                lemma_fields_error_stable(
                    fields_model(fields@),
                    index + 1,
                    fields@.len() as int,
                    schema@.items,
                );
            }
            return r;
        }
        index = index + 1;
    }
    Ok(())
}

// ---------------------------------------------------------------------------
// Items
// ---------------------------------------------------------------------------

/// The Constructor ID text of a struct.
pub open spec fn spec_struct_cid(x: StructModel) -> Seq<char> {
    spec_cid_of_digest(blake3_digest(encode_utf8(spec_canonical_form(x))))
}

/// The Constructor ID text of an enum variant.
pub open spec fn spec_variant_cid(x: EnumModel, v: VariantModel) -> Seq<char> {
    spec_cid_of_digest(blake3_digest(encode_utf8(spec_variant_canonical_form(x, v))))
}

/// No variant of the enum has fields: an integer enum.
pub open spec fn spec_unit_enum(x: EnumModel) -> bool {
    forall|k: int| 0 <= k < x.variants.len() ==> (#[trigger] x.variants[k]).fields.len() == 0
}

/// What is wrong with the variant at `k`, given the variants before it.
pub open spec fn spec_variant_error(x: EnumModel, k: int, items: Seq<ItemModel>) -> Option<Seq<char>> {
    let v = x.variants[k];
    if exists|j: int| 0 <= j < k && #[trigger] x.variants[j].name == v.name {
        Some("duplicate enum variant name"@)
    } else if spec_fields_error(v.fields, v.fields.len() as int, items) is Some {
        spec_fields_error(v.fields, v.fields.len() as int, items)
    } else if spec_unit_enum(x) {
        if v.cid is Some {
            Some("unit enum variant cannot have a C-ID"@)
        } else if v.value is None {
            Some("unit enum variant must have an integer value"@)
        } else if exists|j: int| 0 <= j < k && #[trigger] x.variants[j].value == v.value {
            Some("duplicate enum variant value"@)
        } else {
            None
        }
    } else if v.fields.len() > 0 && (v.cid matches Some(c) && c != spec_variant_cid(x, v)) {
        Some("enum variant C-ID does not match its canonical form"@)
    } else {
        None
    }
}

/// The first error among the first `n` variants.
pub open spec fn spec_variants_error(x: EnumModel, n: int, items: Seq<ItemModel>) -> Option<Seq<char>>
    decreases n,
{
    if n <= 0 {
        None
    } else {
        spec_first(spec_variants_error(x, n - 1, items), spec_variant_error(x, n - 1, items))
    }
}

fn is_unit_enum(x: &Enum) -> (r: bool)
    ensures
        r == spec_unit_enum(x@),
{
    let mut k: usize = 0;
    while k < x.variants.len()
        invariant
            k <= x.variants@.len(),
            forall|j: int| 0 <= j < k ==> (#[trigger] x@.variants[j]).fields.len() == 0,
        decreases x.variants@.len() - k,
    {
        assert(x@.variants[k as int] == x.variants@[k as int]@);
        if x.variants[k].fields.len() != 0 {
            return false;
        }
        k = k + 1;
    }
    true
}

/// The first error among the first `n` variants is the first error among all
/// later prefixes too.
pub proof fn lemma_variants_error_stable(x: EnumModel, m: int, n: int, items: Seq<ItemModel>)
    requires
        0 <= m <= n,
        spec_variants_error(x, m, items) is Some,
    ensures
        spec_variants_error(x, n, items) == spec_variants_error(x, m, items),
    decreases n - m,
{
    if n > m {
        lemma_variants_error_stable(x, m, n - 1, items);
    }
}

fn check_variant(x: &Enum, index: usize, unit_enum: bool, schema: &Schema) -> (r: Result<
    (),
    ParseError,
>)
    requires
        index < x.variants@.len(),
        unit_enum == spec_unit_enum(x@),
    ensures
        spec_reports(r, spec_variant_error(x@, index as int, schema@.items)),
{
    let ghost model = x@;
    let variant = &x.variants[index];
    assert(model.variants[index as int] == variant@);
    let mut j: usize = 0;
    while j < index
        invariant
            j <= index < x.variants@.len(),
            model == x@,
            *variant == x.variants@[index as int],
            forall|m: int| 0 <= m < j ==> #[trigger] model.variants[m].name != variant.name@,
        decreases index - j,
    {
        assert(model.variants[j as int] == x.variants@[j as int]@);
        if x.variants[j].name == variant.name {
            assert(model.variants[j as int].name == model.variants[index as int].name);
            return Err(error("duplicate enum variant name"));
        }
        j = j + 1;
    }
    match validate_fields(&variant.fields, schema) {
        Ok(()) => {},
        Err(e) => return Err(e),
    }
    if unit_enum {
        if variant.cid.is_some() {
            return Err(error("unit enum variant cannot have a C-ID"));
        }
        let value = match variant.value {
            Some(value) => value,
            None => return Err(error("unit enum variant must have an integer value")),
        };
        let mut j: usize = 0;
        while j < index
            invariant
                j <= index < x.variants@.len(),
                model == x@,
                *variant == x.variants@[index as int],
                variant.value == Some(value),
                variant.cid is None,
                spec_unit_enum(model),
                spec_fields_error(variant@.fields, variant@.fields.len() as int, schema@.items)
                    is None,
                forall|m: int| 0 <= m < index ==> #[trigger] model.variants[m].name != variant.name@,
                forall|m: int| 0 <= m < j ==> #[trigger] model.variants[m].value != variant.value,
            decreases index - j,
        {
            assert(model.variants[j as int] == x.variants@[j as int]@);
            match x.variants[j].value {
                Some(earlier) => {
                    if earlier == value {
                        assert(model.variants[j as int].value == variant.value);
                        return Err(error("duplicate enum variant value"));
                    }
                },
                None => {},
            }
            j = j + 1;
        }
    } else if variant.fields.len() > 0 {
        match &variant.cid {
            Some(cid) => {
                let expected = variant_cid(x, variant);
                if *cid != expected {
                    return Err(error("enum variant C-ID does not match its canonical form"));
                }
            },
            None => {},
        }
    }
    Ok(())
}

fn validate_enum(x: &Enum, schema: &Schema) -> (r: Result<(), ParseError>)
    ensures
        spec_reports(r, spec_variants_error(x@, x.variants@.len() as int, schema@.items)),
{
    let unit_enum = is_unit_enum(x);
    let mut index: usize = 0;
    while index < x.variants.len()
        invariant
            index <= x.variants@.len(),
            unit_enum == spec_unit_enum(x@),
            spec_variants_error(x@, index as int, schema@.items) is None,
        decreases x.variants@.len() - index,
    {
        let r = check_variant(x, index, unit_enum, schema);
        if r.is_err() {
            proof {
                lemma_variants_error_stable(x@, index + 1, x.variants@.len() as int, schema@.items);
            }
            return r;
        }
        index = index + 1;
    }
    Ok(())
}

/// The bit width of a flags type's underlying integer, zero when it is not
/// an unsigned integer type.
pub open spec fn spec_flags_width(underlying: Seq<char>) -> u64 {
    if underlying == "u8"@ {
        8
    } else if underlying == "u16"@ {
        16
    } else if underlying == "u32"@ {
        32
    } else if underlying == "u64"@ {
        64
    } else if underlying == "u128"@ {
        128
    } else {
        0
    }
}

/// A flags type is valid: an unsigned underlying type, every bit inside its
/// width, no two bits with the same normalized name or the same position.
pub open spec fn spec_flags_valid(x: FlagsModel) -> bool {
    let width = spec_flags_width(x.underlying);
    &&& width != 0
    &&& forall|k: int| 0 <= k < x.bits.len() ==> (#[trigger] x.bits[k]).value < width
    &&& forall|i: int, j: int|
        0 <= i < j < x.bits.len() ==> spec_normalize_name(#[trigger] x.bits[i].name)
            != spec_normalize_name(#[trigger] x.bits[j].name)
    &&& forall|i: int, j: int|
        0 <= i < j < x.bits.len() ==> (#[trigger] x.bits[i]).value != (#[trigger] x.bits[j]).value
}

fn flags_width(underlying: &String) -> (r: u64)
    ensures
        r == spec_flags_width(underlying@),
{
    if text_is(underlying, "u8") {
        8
    } else if text_is(underlying, "u16") {
        16
    } else if text_is(underlying, "u32") {
        32
    } else if text_is(underlying, "u64") {
        64
    } else if text_is(underlying, "u128") {
        128
    } else {
        0
    }
}

fn flags_valid(x: &Flags) -> (r: bool)
    ensures
        r == spec_flags_valid(x@),
{
    let width = flags_width(&x.underlying);
    if width == 0 {
        return false;
    }
    let n = x.bits.len();
    let mut names: Vec<String> = Vec::new();
    let mut k: usize = 0;
    while k < n
        invariant
            k <= n == x.bits@.len(),
            width == spec_flags_width(x@.underlying),
            names@.len() == k,
            forall|m: int| 0 <= m < k ==> (#[trigger] x@.bits[m]).value < width,
            forall|m: int|
                0 <= m < k ==> #[trigger] names@[m]@ == spec_normalize_name(x@.bits[m].name),
        decreases n - k,
    {
        assert(x@.bits[k as int] == x.bits@[k as int]@);
        if x.bits[k].value >= width {
            return false;
        }
        names.push(normalize_name(&x.bits[k].name));
        k = k + 1;
    }
    let mut i: usize = 0;
    while i < n
        invariant
            i <= n == x.bits@.len() == names@.len(),
            forall|m: int|
                0 <= m < n ==> #[trigger] names@[m]@ == spec_normalize_name(x@.bits[m].name),
            forall|a: int, b: int|
                0 <= a < i && a < b < n ==> spec_normalize_name(#[trigger] x@.bits[a].name)
                    != spec_normalize_name(#[trigger] x@.bits[b].name),
            forall|a: int, b: int|
                0 <= a < i && a < b < n ==> (#[trigger] x@.bits[a]).value
                    != (#[trigger] x@.bits[b]).value,
        decreases n - i,
    {
        let mut j: usize = i + 1;
        while j < n
            invariant
                i < n,
                i + 1 <= j <= n == x.bits@.len() == names@.len(),
                forall|m: int|
                    0 <= m < n ==> #[trigger] names@[m]@ == spec_normalize_name(x@.bits[m].name),
                forall|b: int|
                    i < b < j ==> spec_normalize_name(x@.bits[i as int].name)
                        != spec_normalize_name(#[trigger] x@.bits[b].name),
                forall|b: int| i < b < j ==> x@.bits[i as int].value != (#[trigger] x@.bits[b]).value,
            decreases n - j,
        {
            assert(x@.bits[i as int] == x.bits@[i as int]@);
            assert(x@.bits[j as int] == x.bits@[j as int]@);
            if names[i] == names[j] {
                assert(names@[i as int]@ == spec_normalize_name(x@.bits[i as int].name));
                assert(names@[j as int]@ == spec_normalize_name(x@.bits[j as int].name));
                return false;
            }
            if x.bits[i].value == x.bits[j].value {
                return false;
            }
            j = j + 1;
        }
        i = i + 1;
    }
    true
}

/// What is wrong with an item, in the context of all the schema's items.
pub open spec fn spec_item_error(item: ItemModel, items: Seq<ItemModel>) -> Option<Seq<char>> {
    match item {
        ItemModel::Alias(x) => if spec_type_error(x.ty, items) is Some {
            spec_type_error(x.ty, items)
        } else if x.exact_len is Some && !spec_is_bytes_vec(x.ty) {
            Some("exact_len is only valid for Vec<u8>"@)
        } else {
            None
        },
        ItemModel::Struct(x) => if spec_fields_error(x.fields, x.fields.len() as int, items) is Some {
            spec_fields_error(x.fields, x.fields.len() as int, items)
        } else if x.cid matches Some(c) && c != spec_struct_cid(x) {
            Some("struct C-ID does not match its canonical form"@)
        } else {
            None
        },
        ItemModel::Enum(x) => spec_variants_error(x, x.variants.len() as int, items),
        ItemModel::Flags(x) => if spec_flags_valid(x) {
            None
        } else {
            Some("invalid flags underlying type or bit"@)
        },
    }
}

/// The first error among the first `n` items.
pub open spec fn spec_items_error(items: Seq<ItemModel>, n: int) -> Option<Seq<char>>
    decreases n,
{
    if n <= 0 {
        None
    } else {
        spec_first(spec_items_error(items, n - 1), spec_item_error(items[n - 1], items))
    }
}

/// No two items share a name.
pub open spec fn spec_item_names_distinct(items: Seq<ItemModel>) -> bool {
    forall|i: int, j: int|
        0 <= i < j < items.len() ==> (#[trigger] items[i]).name() != (#[trigger] items[j]).name()
}

/// What validation finds wrong with a schema: `None` for a valid schema,
/// else the message of the first error.
pub open spec fn spec_validate(schema: SchemaModel) -> Option<Seq<char>> {
    if !spec_item_names_distinct(schema.items) {
        Some("duplicate item name"@)
    } else {
        spec_items_error(schema.items, schema.items.len() as int)
    }
}

/// The first error among the first `n` items is the first error among all
/// later prefixes too.
pub proof fn lemma_items_error_stable(items: Seq<ItemModel>, m: int, n: int)
    requires
        0 <= m <= n,
        spec_items_error(items, m) is Some,
    ensures
        spec_items_error(items, n) == spec_items_error(items, m),
    decreases n - m,
{
    if n > m {
        lemma_items_error_stable(items, m, n - 1);
    }
}

fn item_names_distinct(items: &Vec<Item>) -> (r: bool)
    ensures
        r == spec_item_names_distinct(items_model(items@)),
{
    let ghost model = items_model(items@);
    let n = items.len();
    let mut j: usize = 0;
    while j < n
        invariant
            j <= n == items@.len() == model.len(),
            model == items_model(items@),
            forall|a: int, b: int|
                0 <= a < b < j ==> (#[trigger] model[a]).name() != (#[trigger] model[b]).name(),
        decreases n - j,
    {
        let mut i: usize = 0;
        while i < j
            invariant
                i <= j < n == items@.len() == model.len(),
                model == items_model(items@),
                forall|a: int, b: int|
                    0 <= a < b < j ==> (#[trigger] model[a]).name() != (#[trigger] model[b]).name(),
                forall|a: int| 0 <= a < i ==> (#[trigger] model[a]).name() != model[j as int].name(),
            decreases j - i,
        {
            assert(model[i as int] == items@[i as int]@);
            assert(model[j as int] == items@[j as int]@);
            if *items[i].name() == *items[j].name() {
                return false;
            }
            i = i + 1;
        }
        j = j + 1;
    }
    true
}

fn validate_item(item: &Item, schema: &Schema) -> (r: Result<(), ParseError>)
    ensures
        spec_reports(r, spec_item_error(item@, schema@.items)),
{
    match item {
        Item::Alias(x) => {
            match validate_type(&x.ty, schema) {
                Ok(()) => {},
                Err(e) => return Err(e),
            }
            if x.exact_len.is_some() && !is_bytes_vec(&x.ty) {
                return Err(error("exact_len is only valid for Vec<u8>"));
            }
            Ok(())
        },
        Item::Struct(x) => {
            match validate_fields(&x.fields, schema) {
                Ok(()) => {},
                Err(e) => return Err(e),
            }
            match &x.cid {
                Some(cid) => {
                    let expected = constructor_cid(x);
                    if *cid != expected {
                        return Err(error("struct C-ID does not match its canonical form"));
                    }
                },
                None => {},
            }
            Ok(())
        },
        Item::Enum(x) => validate_enum(x, schema),
        Item::Flags(x) => {
            if !flags_valid(x) {
                return Err(error("invalid flags underlying type or bit"));
            }
            Ok(())
        },
    }
}

/// Checks what the grammar cannot: unique item, field and variant names,
/// known types, orderable map keys, guards that name an earlier flags field
/// and one of its bits, exact lengths only on `Vec<u8>`, integer enums with
/// unique values and no C-IDs, valid flags, and declared C-IDs that match
/// the canonical form.
pub fn validate(schema: &Schema) -> (r: Result<(), ParseError>)
    ensures
        spec_reports(r, spec_validate(schema@)),
{
    if !item_names_distinct(&schema.items) {
        return Err(error("duplicate item name"));
    }
    let ghost model = schema@.items;
    let mut i: usize = 0;
    while i < schema.items.len()
        invariant
            i <= schema.items@.len() == model.len(),
            model == schema@.items,
            spec_item_names_distinct(model),
            spec_items_error(model, i as int) is None,
        decreases schema.items@.len() - i,
    {
        assert(model[i as int] == schema.items@[i as int]@);
        let r = validate_item(&schema.items[i], schema);
        if r.is_err() {
            proof {
                lemma_items_error_stable(model, i + 1, model.len() as int);
            }
            return r;
        }
        i = i + 1;
    }
    Ok(())
}

proof fn lemma_no_item_error_at(items: Seq<ItemModel>, n: int, i: int)
    requires
        0 <= i < n,
        spec_items_error(items, n) is None,
    ensures
        spec_item_error(items[i], items) is None,
    decreases n,
{
    if i < n - 1 {
        lemma_no_item_error_at(items, n - 1, i);
    }
}

proof fn lemma_no_variant_error_at(x: EnumModel, n: int, k: int, items: Seq<ItemModel>)
    requires
        0 <= k < n,
        spec_variants_error(x, n, items) is None,
    ensures
        spec_variant_error(x, k, items) is None,
    decreases n,
{
    if k < n - 1 {
        lemma_no_variant_error_at(x, n - 1, k, items);
    }
}

/// In a schema that validation accepts, an enum variant with fields that
/// declares a Constructor ID declares the one hashed from its canonical
/// form: the first sixteen hex digits of the BLAKE3 digest of
/// `Enum|Variant|fields`.
pub proof fn lemma_valid_variant_cids_match(schema: SchemaModel, i: int, k: int)
    requires
        spec_validate(schema) is None,
        0 <= i < schema.items.len(),
        schema.items[i] is Enum,
        0 <= k < schema.items[i]->Enum_0.variants.len(),
        schema.items[i]->Enum_0.variants[k].fields.len() > 0,
        schema.items[i]->Enum_0.variants[k].cid is Some,
    ensures
        ({
            let x = schema.items[i]->Enum_0;
            let v = x.variants[k];
            v.cid->Some_0 == spec_cid_of_digest(
                blake3_digest(
                    encode_utf8(
                        x.name + "|"@ + v.name + "|"@ + crate::fingerprint::spec_fields_canonical(
                            v.fields,
                        ),
                    ),
                ),
            )
        }),
{
    let x = schema.items[i]->Enum_0;
    let v = x.variants[k];
    lemma_no_item_error_at(schema.items, schema.items.len() as int, i);
    lemma_no_variant_error_at(x, x.variants.len() as int, k, schema.items);
    reveal_strlit("|");
    assert(x.name + "|"@ + v.name + "|"@ + crate::fingerprint::spec_fields_canonical(v.fields)
        =~= crate::fingerprint::spec_variant_canonical_form(x, v));
}

/// In a schema that validation accepts, a struct that declares a
/// Constructor ID declares the one hashed from its canonical form: the
/// first sixteen hex digits of the BLAKE3 digest of `Struct|fields`.
pub proof fn lemma_valid_struct_cids_match(schema: SchemaModel, i: int)
    requires
        spec_validate(schema) is None,
        0 <= i < schema.items.len(),
        schema.items[i] is Struct,
        schema.items[i]->Struct_0.cid is Some,
    ensures
        ({
            let x = schema.items[i]->Struct_0;
            x.cid->Some_0 == spec_cid_of_digest(
                blake3_digest(
                    encode_utf8(x.name + "|"@ + crate::fingerprint::spec_fields_canonical(x.fields)),
                ),
            )
        }),
{
    let x = schema.items[i]->Struct_0;
    lemma_no_item_error_at(schema.items, schema.items.len() as int, i);
    reveal_strlit("|");
    assert(x.name + "|"@ + crate::fingerprint::spec_fields_canonical(x.fields)
        =~= spec_canonical_form(x));
}

/// In a schema that validation accepts, the variants of an enum have
/// distinct names; in an enum none of whose variants has fields, no variant
/// declares a Constructor ID, every variant has an integer value, and no two
/// share one.
pub proof fn lemma_valid_enum_variants(schema: SchemaModel, i: int, j: int, k: int)
    requires
        spec_validate(schema) is None,
        0 <= i < schema.items.len(),
        schema.items[i] is Enum,
        0 <= j < k < schema.items[i]->Enum_0.variants.len(),
    ensures
        ({
            let x = schema.items[i]->Enum_0;
            &&& x.variants[j].name != x.variants[k].name
            &&& (forall|t: int| 0 <= t < x.variants.len() ==> (#[trigger] x.variants[t]).fields.len()
                == 0) ==> {
                &&& x.variants[j].cid is None && x.variants[k].cid is None
                &&& x.variants[j].value is Some && x.variants[k].value is Some
                &&& x.variants[j].value != x.variants[k].value
            }
        }),
{
    let x = schema.items[i]->Enum_0;
    lemma_no_item_error_at(schema.items, schema.items.len() as int, i);
    lemma_no_variant_error_at(x, x.variants.len() as int, j, schema.items);
    lemma_no_variant_error_at(x, x.variants.len() as int, k, schema.items);
}

proof fn lemma_no_field_error_at(fields: Seq<FieldModel>, n: int, k: int, items: Seq<ItemModel>)
    requires
        0 <= k < n,
        spec_fields_error(fields, n, items) is None,
    ensures
        spec_field_error(fields, k, items) is None,
    decreases n,
{
    if k < n - 1 {
        lemma_no_field_error_at(fields, n - 1, k, items);
    }
}

/// In a schema that validation accepts, the fields of a struct have
/// distinct names, and a field with an exact length is a `Vec<u8>`.
pub proof fn lemma_valid_struct_fields(schema: SchemaModel, i: int, j: int, k: int)
    requires
        spec_validate(schema) is None,
        0 <= i < schema.items.len(),
        schema.items[i] is Struct,
        0 <= j < k < schema.items[i]->Struct_0.fields.len(),
    ensures
        ({
            let fields = schema.items[i]->Struct_0.fields;
            &&& fields[j].name != fields[k].name
            &&& fields[k].exact_len is Some ==> (fields[k].ty matches TypeModel::Vec(item)
                && *item == TypeModel::Primitive("u8"@))
            &&& fields[j].exact_len is Some ==> (fields[j].ty matches TypeModel::Vec(item)
                && *item == TypeModel::Primitive("u8"@))
        }),
{
    let x = schema.items[i]->Struct_0;
    lemma_no_item_error_at(schema.items, schema.items.len() as int, i);
    lemma_no_field_error_at(x.fields, x.fields.len() as int, j, schema.items);
    lemma_no_field_error_at(x.fields, x.fields.len() as int, k, schema.items);
    match x.fields[k].ty {
        TypeModel::Vec(item) => match *item {
            TypeModel::Primitive(_) => {},
            _ => {},
        },
        _ => {},
    }
}

} // verus!
