//! Schema migration audit: can a new schema receive what an old one sent?

use vstd::prelude::*;
use vstd::string::StringExecFns;

use crate::ast::{
    fields_model, items_model, text_model, Type, EnumModel, Enum, EnumVariant, Field, FieldModel, Flags,
    FlagsModel, Item, ItemModel, Schema, SchemaModel, Struct, VariantModel,
};
use crate::fingerprint::{push_literal, spec_number, spec_type_canonical, type_canonical};
use crate::text::decimal;
use crate::validate::{
    spec_item_error, spec_item_names_distinct, spec_items_error, spec_normalize_name,
    spec_validate, spec_variant_error, spec_variants_error,
};

verus! {

/// Why a new schema cannot receive what an old one sent.
#[derive(Debug, Clone, PartialEq, Eq)]
pub enum CompatibilityError {
    ItemKindChanged { name: String },
    ExistingItemChanged { name: String },
    ExistingEnumVariantChanged { enum_name: String, variant: String },
    ExistingFlagChanged { flags_name: String, bit: String },
}

/// The value of a [`CompatibilityError`].
pub enum CompatibilityIssue {
    ItemKindChanged { name: Seq<char> },
    ExistingItemChanged { name: Seq<char> },
    ExistingEnumVariantChanged { enum_name: Seq<char>, variant: Seq<char> },
    ExistingFlagChanged { flags_name: Seq<char>, bit: Seq<char> },
}

impl View for CompatibilityError {
    type V = CompatibilityIssue;

    open spec fn view(&self) -> CompatibilityIssue {
        match self {
            CompatibilityError::ItemKindChanged { name } => CompatibilityIssue::ItemKindChanged {
                name: name@,
            },
            CompatibilityError::ExistingItemChanged { name } =>
                CompatibilityIssue::ExistingItemChanged { name: name@ },
            CompatibilityError::ExistingEnumVariantChanged { enum_name, variant } =>
                CompatibilityIssue::ExistingEnumVariantChanged {
                enum_name: enum_name@,
                variant: variant@,
            },
            CompatibilityError::ExistingFlagChanged { flags_name, bit } =>
                CompatibilityIssue::ExistingFlagChanged { flags_name: flags_name@, bit: bit@ },
        }
    }
}

// ---------------------------------------------------------------------------
// Signatures
// ---------------------------------------------------------------------------

/// What an exact length reads as: `None` or `Some(n)`.
pub open spec fn spec_exact_len_text(exact_len: Option<usize>) -> Seq<char> {
    match exact_len {
        None => "None"@,
        Some(n) => "Some("@ + spec_number(n as nat) + ")"@,
    }
}

/// The wire signature of a field: `name:guard:type:exact_len`.
pub open spec fn spec_field_signature(f: FieldModel) -> Seq<char> {
    f.name + ":"@ + match f.guard {
        Some(g) => g,
        None => Seq::<char>::empty(),
    } + ":"@ + spec_type_canonical(f.ty) + ":"@ + spec_exact_len_text(f.exact_len)
}

/// The signatures of a list of fields.
pub open spec fn spec_fields_signature(fields: Seq<FieldModel>) -> Seq<Seq<char>> {
    fields.map_values(|f: FieldModel| spec_field_signature(f))
}

/// A variant's signature: its value, its C-ID and its fields' signatures.
pub open spec fn spec_variant_signature(v: VariantModel) -> (
    Option<u64>,
    Option<Seq<char>>,
    Seq<Seq<char>>,
) {
    (v.value, v.cid, spec_fields_signature(v.fields))
}

fn exact_len_text(exact_len: Option<usize>) -> (r: String)
    ensures
        r@ == spec_exact_len_text(exact_len),
{
    match exact_len {
        None => "None".to_owned(),
        Some(n) => {
            let mut out = "Some(".to_owned();
            let digits = decimal(n as u64);
            out.append(digits.as_str());
            push_literal(&mut out, ")");
            out
        },
    }
}

fn field_signature(f: &Field) -> (r: String)
    ensures
        r@ == spec_field_signature(f@),
{
    let mut out = f.name.clone();
    push_literal(&mut out, ":");
    match &f.guard {
        Some(g) => out.append(g.as_str()),
        None => {},
    }
    push_literal(&mut out, ":");
    let ty = type_canonical(&f.ty);
    out.append(ty.as_str());
    push_literal(&mut out, ":");
    let exact = exact_len_text(f.exact_len);
    out.append(exact.as_str());
    assert(out@ =~= spec_field_signature(f@));
    out
}

/// Whether two optional texts are the same.
fn same_text(a: &Option<String>, b: &Option<String>) -> (r: bool)
    ensures
        r == (text_model(*a) == text_model(*b)),
{
    match (a, b) {
        (Some(x), Some(y)) => *x == *y,
        (None, None) => true,
        _ => false,
    }
}

/// Whether two types are the same.
fn same_type(a: &Type, b: &Type) -> (r: bool)
    ensures
        r == (a@ == b@),
    decreases a,
{
    match (a, b) {
        (Type::Primitive(x), Type::Primitive(y)) => *x == *y,
        (Type::FixedBytes(x), Type::FixedBytes(y)) => *x == *y,
        (Type::Optional(x), Type::Optional(y)) => same_type(x, y),
        (Type::Vec(x), Type::Vec(y)) => same_type(x, y),
        (Type::Mapping(xk, xv), Type::Mapping(yk, yv)) => same_type(xk, yk) && same_type(xv, yv),
        _ => false,
    }
}

/// Whether two lists of fields have the same signatures.
fn same_fields(a: &Vec<Field>, b: &Vec<Field>) -> (r: bool)
    ensures
        r == (spec_fields_signature(fields_model(a@)) == spec_fields_signature(fields_model(b@))),
{
    let ghost sa = spec_fields_signature(fields_model(a@));
    let ghost sb = spec_fields_signature(fields_model(b@));
    if a.len() != b.len() {
        assert(sa.len() != sb.len());
        return false;
    }
    let mut i: usize = 0;
    while i < a.len()
        invariant
            i <= a@.len() == b@.len(),
            sa == spec_fields_signature(fields_model(a@)),
            sb == spec_fields_signature(fields_model(b@)),
            forall|j: int| 0 <= j < i ==> sa[j] == sb[j],
        decreases a@.len() - i,
    {
        let x = field_signature(&a[i]);
        let y = field_signature(&b[i]);
        assert(sa[i as int] == x@);
        assert(sb[i as int] == y@);
        if x != y {
            return false;
        }
        i = i + 1;
    }
    assert(sa =~= sb);
    true
}

// ---------------------------------------------------------------------------
// The audit
// ---------------------------------------------------------------------------

/// The first variant of `variants` named `name`.
pub open spec fn spec_find_variant(variants: Seq<VariantModel>, name: Seq<char>) -> Option<
    VariantModel,
>
    decreases variants.len(),
{
    if variants.len() == 0 {
        None
    } else if variants[0].name == name {
        Some(variants[0])
    } else {
        spec_find_variant(variants.drop_first(), name)
    }
}

/// What is wrong with the old variant at `k`: missing from the new enum, or
/// changed there.
pub open spec fn spec_variant_issue(old: EnumModel, new: EnumModel, k: int) -> Option<
    CompatibilityIssue,
> {
    let v = old.variants[k];
    let issue = CompatibilityIssue::ExistingEnumVariantChanged { enum_name: old.name, variant: v.name };
    match spec_find_variant(new.variants, v.name) {
        None => Some(issue),
        Some(w) => if spec_variant_signature(v) != spec_variant_signature(w) {
            Some(issue)
        } else {
            None
        },
    }
}

/// The first issue among the first `n` old variants.
pub open spec fn spec_enum_issue(old: EnumModel, new: EnumModel, n: int) -> Option<
    CompatibilityIssue,
>
    decreases n,
{
    if n <= 0 {
        None
    } else {
        match spec_enum_issue(old, new, n - 1) {
            Some(i) => Some(i),
            None => spec_variant_issue(old, new, n - 1),
        }
    }
}

/// The first bit of `bits` named `name`.
pub open spec fn spec_find_bit(bits: Seq<crate::ast::BitModel>, name: Seq<char>) -> Option<
    crate::ast::BitModel,
>
    decreases bits.len(),
{
    if bits.len() == 0 {
        None
    } else if bits[0].name == name {
        Some(bits[0])
    } else {
        spec_find_bit(bits.drop_first(), name)
    }
}

/// What is wrong with the old bit at `k`: missing from the new flags, or at
/// another position.
pub open spec fn spec_bit_issue(old: FlagsModel, new: FlagsModel, k: int) -> Option<
    CompatibilityIssue,
> {
    let b = old.bits[k];
    let issue = CompatibilityIssue::ExistingFlagChanged { flags_name: old.name, bit: b.name };
    match spec_find_bit(new.bits, b.name) {
        None => Some(issue),
        Some(c) => if b.value != c.value {
            Some(issue)
        } else {
            None
        },
    }
}

/// The first issue among the first `n` old bits.
pub open spec fn spec_bits_issue(old: FlagsModel, new: FlagsModel, n: int) -> Option<
    CompatibilityIssue,
>
    decreases n,
{
    if n <= 0 {
        None
    } else {
        match spec_bits_issue(old, new, n - 1) {
            Some(i) => Some(i),
            None => spec_bit_issue(old, new, n - 1),
        }
    }
}

/// What is wrong between an old flags type and the new one of its name.
pub open spec fn spec_flags_issue(old: FlagsModel, new: FlagsModel) -> Option<CompatibilityIssue> {
    if old.underlying != new.underlying {
        Some(CompatibilityIssue::ExistingItemChanged { name: old.name })
    } else {
        spec_bits_issue(old, new, old.bits.len() as int)
    }
}

/// The first item of `items` named `name`.
pub open spec fn spec_find_item(items: Seq<ItemModel>, name: Seq<char>) -> Option<ItemModel>
    decreases items.len(),
{
    if items.len() == 0 {
        None
    } else if items[0].name() == name {
        Some(items[0])
    } else {
        spec_find_item(items.drop_first(), name)
    }
}

/// What is wrong between an old item and the new item of its name; nothing
/// when the new schema has dropped it.
pub open spec fn spec_item_issue(old: ItemModel, new_items: Seq<ItemModel>) -> Option<
    CompatibilityIssue,
> {
    let name = old.name();
    match spec_find_item(new_items, name) {
        None => None,
        Some(new) => match (old, new) {
            (ItemModel::Struct(a), ItemModel::Struct(b)) => if spec_fields_signature(a.fields)
                != spec_fields_signature(b.fields) {
                Some(CompatibilityIssue::ExistingItemChanged { name })
            } else {
                None
            },
            (ItemModel::Enum(a), ItemModel::Enum(b)) => spec_enum_issue(
                a,
                b,
                a.variants.len() as int,
            ),
            (ItemModel::Flags(a), ItemModel::Flags(b)) => spec_flags_issue(a, b),
            (ItemModel::Alias(a), ItemModel::Alias(b)) => if a.ty == b.ty {
                None
            } else {
                Some(CompatibilityIssue::ItemKindChanged { name })
            },
            _ => Some(CompatibilityIssue::ItemKindChanged { name }),
        },
    }
}

/// The first issue among the first `n` old items.
pub open spec fn spec_items_issue(old: Seq<ItemModel>, new: Seq<ItemModel>, n: int) -> Option<
    CompatibilityIssue,
>
    decreases n,
{
    if n <= 0 {
        None
    } else {
        match spec_items_issue(old, new, n - 1) {
            Some(i) => Some(i),
            None => spec_item_issue(old[n - 1], new),
        }
    }
}

/// What keeps `new` from receiving what `old` sent: the first old item, in
/// order, that the new schema changed.
pub open spec fn spec_compatibility(old: SchemaModel, new: SchemaModel) -> Option<
    CompatibilityIssue,
> {
    spec_items_issue(old.items, new.items, old.items.len() as int)
}

pub proof fn lemma_enum_issue_stable(old: EnumModel, new: EnumModel, m: int, n: int)
    requires
        0 <= m <= n,
        spec_enum_issue(old, new, m) is Some,
    ensures
        spec_enum_issue(old, new, n) == spec_enum_issue(old, new, m),
    decreases n - m,
{
    if n > m {
        lemma_enum_issue_stable(old, new, m, n - 1);
    }
}

pub proof fn lemma_bits_issue_stable(old: FlagsModel, new: FlagsModel, m: int, n: int)
    requires
        0 <= m <= n,
        spec_bits_issue(old, new, m) is Some,
    ensures
        spec_bits_issue(old, new, n) == spec_bits_issue(old, new, m),
    decreases n - m,
{
    if n > m {
        lemma_bits_issue_stable(old, new, m, n - 1);
    }
}

pub proof fn lemma_items_issue_stable(old: Seq<ItemModel>, new: Seq<ItemModel>, m: int, n: int)
    requires
        0 <= m <= n,
        spec_items_issue(old, new, m) is Some,
    ensures
        spec_items_issue(old, new, n) == spec_items_issue(old, new, m),
    decreases n - m,
{
    if n > m {
        lemma_items_issue_stable(old, new, m, n - 1);
    }
}

fn find_variant<'a>(variants: &'a Vec<EnumVariant>, name: &String) -> (r: Option<&'a EnumVariant>)
    ensures
        match spec_find_variant(variants@.map_values(|v: EnumVariant| v@), name@) {
            Some(v) => r matches Some(x) && x@ == v,
            None => r is None,
        },
{
    let ghost model = variants@.map_values(|v: EnumVariant| v@);
    let mut i: usize = 0;
    assert(model.skip(0) =~= model);
    while i < variants.len()
        invariant
            i <= variants@.len() == model.len(),
            model == variants@.map_values(|v: EnumVariant| v@),
            spec_find_variant(model, name@) == spec_find_variant(model.skip(i as int), name@),
        decreases variants@.len() - i,
    {
        proof {
            assert(model.skip(i as int).drop_first() =~= model.skip(i + 1));
            assert(model.skip(i as int)[0] == variants@[i as int]@);
        }
        if variants[i].name == *name {
            return Some(&variants[i]);
        }
        i = i + 1;
    }
    None
}

fn check_enum(old: &Enum, new: &Enum) -> (r: Result<(), CompatibilityError>)
    ensures
        match spec_enum_issue(old@, new@, old@.variants.len() as int) {
            None => r is Ok,
            Some(i) => r matches Err(e) && e@ == i,
        },
{
    let mut k: usize = 0;
    while k < old.variants.len()
        invariant
            k <= old.variants@.len() == old@.variants.len(),
            spec_enum_issue(old@, new@, k as int) is None,
        decreases old.variants@.len() - k,
    {
        let v = &old.variants[k];
        assert(old@.variants[k as int] == v@);
        let changed = match find_variant(&new.variants, &v.name) {
            None => true,
            Some(w) => {
                let same = v.value == w.value && same_text(&v.cid, &w.cid) && same_fields(
                    &v.fields,
                    &w.fields,
                );
                proof {
                    if same {
                        assert(spec_variant_signature(v@) == spec_variant_signature(w@));
                    }
                }
                !same
            },
        };
        if changed {
            proof {
                lemma_enum_issue_stable(old@, new@, k + 1, old@.variants.len() as int);
            }
            return Err(
                CompatibilityError::ExistingEnumVariantChanged {
                    enum_name: old.name.clone(),
                    variant: v.name.clone(),
                },
            );
        }
        k = k + 1;
    }
    Ok(())
}

pub(crate) fn find_bit<'a>(bits: &'a Vec<crate::ast::FlagsBit>, name: &String) -> (r: Option<
    &'a crate::ast::FlagsBit,
>)
    ensures
        match spec_find_bit(bits@.map_values(|b: crate::ast::FlagsBit| b@), name@) {
            Some(b) => r matches Some(x) && x@ == b,
            None => r is None,
        },
{
    let ghost model = bits@.map_values(|b: crate::ast::FlagsBit| b@);
    let mut i: usize = 0;
    assert(model.skip(0) =~= model);
    while i < bits.len()
        invariant
            i <= bits@.len() == model.len(),
            model == bits@.map_values(|b: crate::ast::FlagsBit| b@),
            spec_find_bit(model, name@) == spec_find_bit(model.skip(i as int), name@),
        decreases bits@.len() - i,
    {
        proof {
            assert(model.skip(i as int).drop_first() =~= model.skip(i + 1));
            assert(model.skip(i as int)[0] == bits@[i as int]@);
        }
        if bits[i].name == *name {
            return Some(&bits[i]);
        }
        i = i + 1;
    }
    None
}

fn check_flags(old: &Flags, new: &Flags) -> (r: Result<(), CompatibilityError>)
    ensures
        match spec_flags_issue(old@, new@) {
            None => r is Ok,
            Some(i) => r matches Err(e) && e@ == i,
        },
{
    if old.underlying != new.underlying {
        return Err(CompatibilityError::ExistingItemChanged { name: old.name.clone() });
    }
    let mut k: usize = 0;
    while k < old.bits.len()
        invariant
            k <= old.bits@.len() == old@.bits.len(),
            spec_flags_issue(old@, new@) == spec_bits_issue(old@, new@, old@.bits.len() as int),
            spec_bits_issue(old@, new@, k as int) is None,
        decreases old.bits@.len() - k,
    {
        let b = &old.bits[k];
        assert(old@.bits[k as int] == b@);
        let changed = match find_bit(&new.bits, &b.name) {
            None => true,
            Some(c) => b.value != c.value,
        };
        if changed {
            proof {
                lemma_bits_issue_stable(old@, new@, k + 1, old@.bits.len() as int);
            }
            return Err(
                CompatibilityError::ExistingFlagChanged {
                    flags_name: old.name.clone(),
                    bit: b.name.clone(),
                },
            );
        }
        k = k + 1;
    }
    Ok(())
}

pub(crate) fn find_item<'a>(items: &'a Vec<Item>, name: &String) -> (r: Option<&'a Item>)
    ensures
        match spec_find_item(items_model(items@), name@) {
            Some(i) => r matches Some(x) && x@ == i,
            None => r is None,
        },
{
    let ghost model = items_model(items@);
    let mut i: usize = 0;
    assert(model.skip(0) =~= model);
    while i < items.len()
        invariant
            i <= items@.len() == model.len(),
            model == items_model(items@),
            spec_find_item(model, name@) == spec_find_item(model.skip(i as int), name@),
        decreases items@.len() - i,
    {
        proof {
            assert(model.skip(i as int).drop_first() =~= model.skip(i + 1));
            assert(model.skip(i as int)[0] == items@[i as int]@);
        }
        if *items[i].name() == *name {
            return Some(&items[i]);
        }
        i = i + 1;
    }
    None
}

fn check_item(old: &Item, new: &Schema) -> (r: Result<(), CompatibilityError>)
    ensures
        match spec_item_issue(old@, new@.items) {
            None => r is Ok,
            Some(i) => r matches Err(e) && e@ == i,
        },
{
    let name = old.name();
    let new_item = match find_item(&new.items, name) {
        Some(item) => item,
        None => return Ok(()),
    };
    match (old, new_item) {
        (Item::Struct(a), Item::Struct(b)) => {
            if !same_fields(&a.fields, &b.fields) {
                return Err(CompatibilityError::ExistingItemChanged { name: name.clone() });
            }
            Ok(())
        },
        (Item::Enum(a), Item::Enum(b)) => check_enum(a, b),
        (Item::Flags(a), Item::Flags(b)) => check_flags(a, b),
        (Item::Alias(a), Item::Alias(b)) => {
            if same_type(&a.ty, &b.ty) {
                Ok(())
            } else {
                Err(CompatibilityError::ItemKindChanged { name: name.clone() })
            }
        },
        _ => Err(CompatibilityError::ItemKindChanged { name: name.clone() }),
    }
}

/// Checks whether `new` can receive packets produced against `old`.
///
/// Existing constructors and fields stay positional and their Constructor
/// IDs are part of the wire contract, so changing them is refused. New
/// top-level items, enum variants and flag bits are safe for an old-to-new
/// transition. Layers stay independent: this audit is opt-in and never
/// chains them.
pub fn is_backward_compatible(old: &Schema, new: &Schema) -> (r: Result<(), CompatibilityError>)
    ensures
        match spec_compatibility(old@, new@) {
            None => r is Ok,
            Some(i) => r matches Err(e) && e@ == i,
        },
{
    let ghost model = old@.items;
    let mut k: usize = 0;
    while k < old.items.len()
        invariant
            k <= old.items@.len() == model.len(),
            model == old@.items,
            spec_items_issue(model, new@.items, k as int) is None,
        decreases old.items@.len() - k,
    {
        assert(model[k as int] == old.items@[k as int]@);
        let r = check_item(&old.items[k], new);
        if r.is_err() {
            proof {
                lemma_items_issue_stable(model, new@.items, k + 1, model.len() as int);
            }
            return r;
        }
        k = k + 1;
    }
    Ok(())
}

// ---------------------------------------------------------------------------
// Laws
// ---------------------------------------------------------------------------

/// In a list whose names are distinct, looking up the name of the item at
/// `k` finds that item, also after more items are appended.
pub proof fn lemma_find_item_distinct(items: Seq<ItemModel>, extra: Seq<ItemModel>, k: int)
    requires
        0 <= k < items.len(),
        spec_item_names_distinct(items),
    ensures
        spec_find_item(items + extra, items[k].name()) == Some(items[k]),
    decreases k,
{
    let all = items + extra;
    if k > 0 {
        assert(items[0].name() != items[k].name());
        assert(all.drop_first() =~= items.drop_first() + extra);
        assert forall|i: int, j: int|
            0 <= i < j < items.drop_first().len() implies (#[trigger] items.drop_first()[i]).name()
            != (#[trigger] items.drop_first()[j]).name() by {
            assert(items[i + 1].name() != items[j + 1].name());
        }
        lemma_find_item_distinct(items.drop_first(), extra, k - 1);
    }
}

/// In a list whose variant names are distinct, looking up the name of the
/// variant at `k` finds that variant.
pub proof fn lemma_find_variant_distinct(variants: Seq<VariantModel>, k: int)
    requires
        0 <= k < variants.len(),
        forall|i: int, j: int|
            0 <= i < j < variants.len() ==> (#[trigger] variants[i]).name != (
            #[trigger] variants[j]).name,
    ensures
        spec_find_variant(variants, variants[k].name) == Some(variants[k]),
    decreases k,
{
    if k > 0 {
        assert(variants[0].name != variants[k].name);
        let rest = variants.drop_first();
        assert forall|i: int, j: int|
            0 <= i < j < rest.len() implies (#[trigger] rest[i]).name != (
            #[trigger] rest[j]).name by {
            assert(variants[i + 1].name != variants[j + 1].name);
        }
        lemma_find_variant_distinct(rest, k - 1);
    }
}

/// In a list whose bit names are distinct, looking up the name of the bit
/// at `k` finds that bit.
pub proof fn lemma_find_bit_distinct(bits: Seq<crate::ast::BitModel>, k: int)
    requires
        0 <= k < bits.len(),
        forall|i: int, j: int|
            0 <= i < j < bits.len() ==> (#[trigger] bits[i]).name != (#[trigger] bits[j]).name,
    ensures
        spec_find_bit(bits, bits[k].name) == Some(bits[k]),
    decreases k,
{
    if k > 0 {
        assert(bits[0].name != bits[k].name);
        let rest = bits.drop_first();
        assert forall|i: int, j: int|
            0 <= i < j < rest.len() implies (#[trigger] rest[i]).name != (
            #[trigger] rest[j]).name by {
            assert(bits[i + 1].name != bits[j + 1].name);
        }
        lemma_find_bit_distinct(rest, k - 1);
    }
}

proof fn lemma_items_error_each(items: Seq<ItemModel>, n: int, k: int)
    requires
        0 <= k < n <= items.len(),
        spec_items_error(items, n) is None,
    ensures
        spec_item_error(items[k], items) is None,
    decreases n,
{
    if k < n - 1 {
        lemma_items_error_each(items, n - 1, k);
    }
}

proof fn lemma_variants_error_each(x: EnumModel, items: Seq<ItemModel>, n: int, k: int)
    requires
        0 <= k < n <= x.variants.len(),
        spec_variants_error(x, n, items) is None,
    ensures
        spec_variant_error(x, k, items) is None,
    decreases n,
{
    if k < n - 1 {
        lemma_variants_error_each(x, items, n - 1, k);
    }
}

/// An enum compared with itself has no issue, when its variant names are
/// distinct.
proof fn lemma_enum_unchanged(x: EnumModel, n: int)
    requires
        0 <= n <= x.variants.len(),
        forall|i: int, j: int|
            0 <= i < j < x.variants.len() ==> (#[trigger] x.variants[i]).name != (
            #[trigger] x.variants[j]).name,
    ensures
        spec_enum_issue(x, x, n) is None,
    decreases n,
{
    if n > 0 {
        lemma_enum_unchanged(x, n - 1);
        lemma_find_variant_distinct(x.variants, n - 1);
    }
}

/// A flags type compared with itself has no issue, when its bit names are
/// distinct.
proof fn lemma_bits_unchanged(x: FlagsModel, n: int)
    requires
        0 <= n <= x.bits.len(),
        forall|i: int, j: int|
            0 <= i < j < x.bits.len() ==> (#[trigger] x.bits[i]).name != (#[trigger] x.bits[j]).name,
    ensures
        spec_bits_issue(x, x, n) is None,
    decreases n,
{
    if n > 0 {
        lemma_bits_unchanged(x, n - 1);
        lemma_find_bit_distinct(x.bits, n - 1);
    }
}

/// A valid item, found again unchanged, has no issue.
proof fn lemma_item_unchanged(item: ItemModel, items: Seq<ItemModel>)
    requires
        spec_item_error(item, items) is None,
    ensures
        match item {
            ItemModel::Struct(a) => spec_fields_signature(a.fields) == spec_fields_signature(
                a.fields,
            ),
            ItemModel::Enum(a) => spec_enum_issue(a, a, a.variants.len() as int) is None,
            ItemModel::Flags(a) => spec_flags_issue(a, a) is None,
            ItemModel::Alias(a) => a.ty == a.ty,
        },
{
    match item {
        ItemModel::Enum(a) => {
            assert forall|i: int, j: int|
                0 <= i < j < a.variants.len() implies (#[trigger] a.variants[i]).name != (
                #[trigger] a.variants[j]).name by {
                lemma_variants_error_each(a, items, a.variants.len() as int, j);
            }
            lemma_enum_unchanged(a, a.variants.len() as int);
        },
        ItemModel::Flags(a) => {
            assert forall|i: int, j: int|
                0 <= i < j < a.bits.len() implies (#[trigger] a.bits[i]).name != (
                #[trigger] a.bits[j]).name by {
                assert(spec_normalize_name(a.bits[i].name) != spec_normalize_name(
                    a.bits[j].name,
                ));
            }
            lemma_bits_unchanged(a, a.bits.len() as int);
        },
        _ => {},
    }
}

/// A new schema that keeps every item of a valid old schema and appends new
/// items can receive everything the old one sent; in particular a valid
/// schema is compatible with itself.
pub proof fn lemma_appended_items_compatible(
    old: SchemaModel,
    new: SchemaModel,
    extra: Seq<ItemModel>,
)
    requires
        spec_validate(old) is None,
        new.items == old.items + extra,
    ensures
        spec_compatibility(old, new) is None,
{
    let items = old.items;
    assert forall|k: int| 0 <= k <= items.len() implies spec_items_issue(
        items,
        new.items,
        k,
    ) is None by {
        lemma_prefix_unchanged(items, extra, k);
    }
}

proof fn lemma_prefix_unchanged(items: Seq<ItemModel>, extra: Seq<ItemModel>, k: int)
    requires
        0 <= k <= items.len(),
        spec_item_names_distinct(items),
        spec_items_error(items, items.len() as int) is None,
    ensures
        spec_items_issue(items, items + extra, k) is None,
    decreases k,
{
    if k > 0 {
        lemma_prefix_unchanged(items, extra, k - 1);
        lemma_find_item_distinct(items, extra, k - 1);
        lemma_items_error_each(items, items.len() as int, k - 1);
        lemma_item_unchanged(items[k - 1], items);
    }
}

/// `new` is `old`, where an enum may have gained variants after its own and
/// a flags type bits after its own.
pub open spec fn spec_item_extends(old: ItemModel, new: ItemModel) -> bool {
    match (old, new) {
        (ItemModel::Struct(a), ItemModel::Struct(b)) => a == b,
        (ItemModel::Alias(a), ItemModel::Alias(b)) => a == b,
        (ItemModel::Enum(a), ItemModel::Enum(b)) => {
            &&& b.name == a.name
            &&& a.variants.len() <= b.variants.len()
            &&& b.variants.take(a.variants.len() as int) == a.variants
        },
        (ItemModel::Flags(a), ItemModel::Flags(b)) => {
            &&& b.name == a.name
            &&& b.underlying == a.underlying
            &&& a.bits.len() <= b.bits.len()
            &&& b.bits.take(a.bits.len() as int) == a.bits
        },
        _ => false,
    }
}

/// Looking up the name of the old item at `k` among new items that keep the
/// old names in order finds the new item at `k`.
proof fn lemma_find_item_kept(old: Seq<ItemModel>, new: Seq<ItemModel>, k: int)
    requires
        0 <= k < old.len() <= new.len(),
        spec_item_names_distinct(old),
        forall|j: int| 0 <= j < old.len() ==> (#[trigger] new[j]).name() == old[j].name(),
    ensures
        spec_find_item(new, old[k].name()) == Some(new[k]),
    decreases k,
{
    if k > 0 {
        assert(new[0].name() == old[0].name());
        assert(old[0].name() != old[k].name());
        let o = old.drop_first();
        let n = new.drop_first();
        assert forall|i: int, j: int| 0 <= i < j < o.len() implies (#[trigger] o[i]).name() != (
        #[trigger] o[j]).name() by {
            assert(old[i + 1].name() != old[j + 1].name());
        }
        assert forall|j: int| 0 <= j < o.len() implies (#[trigger] n[j]).name() == o[j].name() by {
            assert(new[j + 1].name() == old[j + 1].name());
        }
        lemma_find_item_kept(o, n, k - 1);
    } else {
        assert(new[0].name() == old[0].name());
    }
}

/// Looking up the name of the variant at `k` among variants whose first `n`
/// names are distinct finds that variant.
proof fn lemma_find_variant_kept(variants: Seq<VariantModel>, n: int, k: int)
    requires
        0 <= k < n <= variants.len(),
        forall|i: int, j: int|
            0 <= i < j < n ==> (#[trigger] variants[i]).name != (#[trigger] variants[j]).name,
    ensures
        spec_find_variant(variants, variants[k].name) == Some(variants[k]),
    decreases k,
{
    if k > 0 {
        assert(variants[0].name != variants[k].name);
        let rest = variants.drop_first();
        assert forall|i: int, j: int| 0 <= i < j < n - 1 implies (#[trigger] rest[i]).name != (
        #[trigger] rest[j]).name by {
            assert(variants[i + 1].name != variants[j + 1].name);
        }
        lemma_find_variant_kept(rest, n - 1, k - 1);
    }
}

/// Looking up the name of the bit at `k` among bits whose first `n` names
/// are distinct finds that bit.
proof fn lemma_find_bit_kept(bits: Seq<crate::ast::BitModel>, n: int, k: int)
    requires
        0 <= k < n <= bits.len(),
        forall|i: int, j: int| 0 <= i < j < n ==> (#[trigger] bits[i]).name != (#[trigger] bits[j]).name,
    ensures
        spec_find_bit(bits, bits[k].name) == Some(bits[k]),
    decreases k,
{
    if k > 0 {
        assert(bits[0].name != bits[k].name);
        let rest = bits.drop_first();
        assert forall|i: int, j: int| 0 <= i < j < n - 1 implies (#[trigger] rest[i]).name != (
        #[trigger] rest[j]).name by {
            assert(bits[i + 1].name != bits[j + 1].name);
        }
        lemma_find_bit_kept(rest, n - 1, k - 1);
    }
}

/// An enum that keeps its variants and gains more after them has no issue.
proof fn lemma_enum_extended(a: EnumModel, b: EnumModel, n: int)
    requires
        0 <= n <= a.variants.len() <= b.variants.len(),
        b.variants.take(a.variants.len() as int) == a.variants,
        forall|i: int, j: int|
            0 <= i < j < a.variants.len() ==> (#[trigger] a.variants[i]).name != (
            #[trigger] a.variants[j]).name,
    ensures
        spec_enum_issue(a, b, n) is None,
    decreases n,
{
    if n > 0 {
        lemma_enum_extended(a, b, n - 1);
        let len = a.variants.len() as int;
        assert(b.variants[n - 1] == a.variants[n - 1]);
        assert forall|i: int, j: int| 0 <= i < j < len implies (#[trigger] b.variants[i]).name != (
        #[trigger] b.variants[j]).name by {
            assert(b.variants[i] == a.variants[i]);
            assert(b.variants[j] == a.variants[j]);
        }
        lemma_find_variant_kept(b.variants, len, n - 1);
    }
}

/// A flags type that keeps its bits and gains more after them has no issue.
proof fn lemma_bits_extended(a: FlagsModel, b: FlagsModel, n: int)
    requires
        0 <= n <= a.bits.len() <= b.bits.len(),
        b.bits.take(a.bits.len() as int) == a.bits,
        forall|i: int, j: int|
            0 <= i < j < a.bits.len() ==> (#[trigger] a.bits[i]).name != (#[trigger] a.bits[j]).name,
    ensures
        spec_bits_issue(a, b, n) is None,
    decreases n,
{
    if n > 0 {
        lemma_bits_extended(a, b, n - 1);
        let len = a.bits.len() as int;
        assert(b.bits[n - 1] == a.bits[n - 1]);
        assert forall|i: int, j: int| 0 <= i < j < len implies (#[trigger] b.bits[i]).name != (
        #[trigger] b.bits[j]).name by {
            assert(b.bits[i] == a.bits[i]);
            assert(b.bits[j] == a.bits[j]);
        }
        lemma_find_bit_kept(b.bits, len, n - 1);
    }
}

proof fn lemma_extended_prefix(old: Seq<ItemModel>, new: Seq<ItemModel>, k: int)
    requires
        0 <= k <= old.len() <= new.len(),
        spec_item_names_distinct(old),
        spec_items_error(old, old.len() as int) is None,
        forall|j: int| 0 <= j < old.len() ==> spec_item_extends(#[trigger] old[j], new[j]),
    ensures
        spec_items_issue(old, new, k) is None,
    decreases k,
{
    if k > 0 {
        lemma_extended_prefix(old, new, k - 1);
        assert forall|j: int| 0 <= j < old.len() implies (#[trigger] new[j]).name() == old[j].name() by {
            assert(spec_item_extends(old[j], new[j]));
        }
        lemma_find_item_kept(old, new, k - 1);
        lemma_items_error_each(old, old.len() as int, k - 1);
        let a = old[k - 1];
        let b = new[k - 1];
        assert(spec_item_extends(a, b));
        match (a, b) {
            (ItemModel::Enum(x), ItemModel::Enum(y)) => {
                assert forall|i: int, j: int|
                    0 <= i < j < x.variants.len() implies (#[trigger] x.variants[i]).name != (
                    #[trigger] x.variants[j]).name by {
                    lemma_variants_error_each(x, old, x.variants.len() as int, j);
                }
                lemma_enum_extended(x, y, x.variants.len() as int);
            },
            (ItemModel::Flags(x), ItemModel::Flags(y)) => {
                assert forall|i: int, j: int|
                    0 <= i < j < x.bits.len() implies (#[trigger] x.bits[i]).name != (
                    #[trigger] x.bits[j]).name by {
                    assert(spec_normalize_name(x.bits[i].name) != spec_normalize_name(
                        x.bits[j].name,
                    ));
                }
                lemma_bits_extended(x, y, x.bits.len() as int);
            },
            _ => {},
        }
    }
}

/// New top-level items, enum variants and flag bits are safe: a new schema
/// that keeps the items of a valid old schema in order, where an enum may
/// gain variants after its own and a flags type bits after its own, and that
/// may add items after them, can receive everything the old one sent.
pub proof fn lemma_extended_schema_compatible(old: SchemaModel, new: SchemaModel)
    requires
        spec_validate(old) is None,
        old.items.len() <= new.items.len(),
        forall|k: int| 0 <= k < old.items.len() ==> spec_item_extends(#[trigger] old.items[k], new.items[k]),
    ensures
        spec_compatibility(old, new) is None,
{
    lemma_extended_prefix(old.items, new.items, old.items.len() as int);
}

proof fn lemma_no_issue_at(old: Seq<ItemModel>, new: Seq<ItemModel>, n: int, i: int)
    requires
        0 <= i < n,
        spec_items_issue(old, new, n) is None,
    ensures
        spec_item_issue(old[i], new) is None,
    decreases n,
{
    if i < n - 1 {
        lemma_no_issue_at(old, new, n - 1, i);
    }
}

/// A new schema that can receive what an old one sent keeps every old item
/// that it still declares as an item of the same kind, and keeps the wire
/// type of every alias: an alias whose type changed, or an item whose kind
/// changed, makes the schemas incompatible.
pub proof fn lemma_compatible_items_keep_their_kind(
    old: SchemaModel,
    new: SchemaModel,
    i: int,
    j: int,
)
    requires
        spec_item_names_distinct(new.items),
        0 <= i < old.items.len(),
        0 <= j < new.items.len(),
        old.items[i].name() == new.items[j].name(),
        spec_compatibility(old, new) is None,
    ensures
        old.items[i] is Struct ==> new.items[j] is Struct,
        old.items[i] is Enum ==> new.items[j] is Enum,
        old.items[i] is Flags ==> new.items[j] is Flags,
        old.items[i] matches ItemModel::Alias(a) ==> (new.items[j] matches ItemModel::Alias(b)
            && b.ty == a.ty),
{
    lemma_no_issue_at(old.items, new.items, old.items.len() as int, i);
    lemma_find_item_distinct(new.items, Seq::<ItemModel>::empty(), j);
    assert(new.items + Seq::<ItemModel>::empty() =~= new.items);
}

proof fn lemma_found_bit_is_there(bits: Seq<crate::ast::BitModel>, name: Seq<char>)
    ensures
        spec_find_bit(bits, name) matches Some(c) ==> exists|m: int|
            0 <= m < bits.len() && #[trigger] bits[m] == c && c.name == name,
    decreases bits.len(),
{
    if bits.len() > 0 && bits[0].name != name {
        lemma_found_bit_is_there(bits.drop_first(), name);
        if let Some(c) = spec_find_bit(bits, name) {
            let m = choose|m: int|
                0 <= m < bits.drop_first().len() && #[trigger] bits.drop_first()[m] == c && c.name
                    == name;
            assert(bits[m + 1] == bits.drop_first()[m]);
        }
    }
}

proof fn lemma_found_variant_is_there(variants: Seq<VariantModel>, name: Seq<char>)
    ensures
        spec_find_variant(variants, name) matches Some(w) ==> exists|m: int|
            0 <= m < variants.len() && #[trigger] variants[m] == w && w.name == name,
    decreases variants.len(),
{
    if variants.len() > 0 && variants[0].name != name {
        lemma_found_variant_is_there(variants.drop_first(), name);
        if let Some(w) = spec_find_variant(variants, name) {
            let m = choose|m: int|
                0 <= m < variants.drop_first().len() && #[trigger] variants.drop_first()[m] == w
                    && w.name == name;
            assert(variants[m + 1] == variants.drop_first()[m]);
        }
    }
}

proof fn lemma_no_bit_issue_at(old: FlagsModel, new: FlagsModel, n: int, k: int)
    requires
        0 <= k < n,
        spec_bits_issue(old, new, n) is None,
    ensures
        spec_bit_issue(old, new, k) is None,
    decreases n,
{
    if k < n - 1 {
        lemma_no_bit_issue_at(old, new, n - 1, k);
    }
}

proof fn lemma_no_variant_issue_at(old: EnumModel, new: EnumModel, n: int, k: int)
    requires
        0 <= k < n,
        spec_enum_issue(old, new, n) is None,
    ensures
        spec_variant_issue(old, new, k) is None,
    decreases n,
{
    if k < n - 1 {
        lemma_no_variant_issue_at(old, new, n - 1, k);
    }
}

/// A new schema that can receive what an old one sent keeps, in a flags
/// type it still declares, the underlying type and every old bit with its
/// value, and in an enum it still declares, every old variant with its
/// value and its declared Constructor ID.
pub proof fn lemma_compatible_keeps_bits_and_variants(
    old: SchemaModel,
    new: SchemaModel,
    i: int,
    j: int,
    k: int,
)
    requires
        spec_item_names_distinct(new.items),
        0 <= i < old.items.len(),
        0 <= j < new.items.len(),
        old.items[i].name() == new.items[j].name(),
        spec_compatibility(old, new) is None,
    ensures
        old.items[i] matches ItemModel::Flags(a) ==> (new.items[j] matches ItemModel::Flags(b)
            && b.underlying == a.underlying && (0 <= k < a.bits.len() ==> exists|m: int|
            0 <= m < b.bits.len() && #[trigger] b.bits[m].name == a.bits[k].name && b.bits[m].value
                == a.bits[k].value)),
        old.items[i] matches ItemModel::Enum(a) ==> (new.items[j] matches ItemModel::Enum(b) && (0
            <= k < a.variants.len() ==> exists|m: int|
            0 <= m < b.variants.len() && #[trigger] b.variants[m].name == a.variants[k].name
                && b.variants[m].value == a.variants[k].value && b.variants[m].cid
                == a.variants[k].cid)),
{
    lemma_no_issue_at(old.items, new.items, old.items.len() as int, i);
    lemma_find_item_distinct(new.items, Seq::<ItemModel>::empty(), j);
    assert(new.items + Seq::<ItemModel>::empty() =~= new.items);
    match (old.items[i], new.items[j]) {
        (ItemModel::Flags(a), ItemModel::Flags(b)) => {
            if 0 <= k < a.bits.len() {
                lemma_no_bit_issue_at(a, b, a.bits.len() as int, k);
                lemma_found_bit_is_there(b.bits, a.bits[k].name);
                let c = spec_find_bit(b.bits, a.bits[k].name)->Some_0;
                let m = choose|m: int| 0 <= m < b.bits.len() && #[trigger] b.bits[m] == c && c.name
                    == a.bits[k].name;
                assert(b.bits[m].name == a.bits[k].name);
            }
        },
        (ItemModel::Enum(a), ItemModel::Enum(b)) => {
            if 0 <= k < a.variants.len() {
                lemma_no_variant_issue_at(a, b, a.variants.len() as int, k);
                lemma_found_variant_is_there(b.variants, a.variants[k].name);
                let w = spec_find_variant(b.variants, a.variants[k].name)->Some_0;
                let m = choose|m: int|
                    0 <= m < b.variants.len() && #[trigger] b.variants[m] == w && w.name
                        == a.variants[k].name;
                assert(b.variants[m].name == a.variants[k].name);
            }
        },
        _ => {},
    }
}

/// The rest of a field's signature after its name and the first `:`.
spec fn spec_signature_rest(f: FieldModel) -> Seq<char> {
    let guard = match f.guard {
        Some(g) => g,
        None => Seq::<char>::empty(),
    };
    guard + ":"@ + spec_type_canonical(f.ty) + ":"@ + spec_exact_len_text(f.exact_len)
}

/// A new schema that can receive what an old one sent keeps every struct
/// it still declares with as many fields, and each field under its old
/// name (field names being identifiers, which hold no `:`).
pub proof fn lemma_compatible_structs_keep_fields(
    old: SchemaModel,
    new: SchemaModel,
    i: int,
    j: int,
    k: int,
)
    requires
        spec_item_names_distinct(new.items),
        0 <= i < old.items.len(),
        0 <= j < new.items.len(),
        old.items[i].name() == new.items[j].name(),
        spec_compatibility(old, new) is None,
    ensures
        old.items[i] matches ItemModel::Struct(a) ==> (new.items[j] matches ItemModel::Struct(b)
            && b.fields.len() == a.fields.len() && (0 <= k < a.fields.len()
            && !a.fields[k].name.contains(':') && !b.fields[k].name.contains(':')
            ==> b.fields[k].name == a.fields[k].name)),
{
    lemma_no_issue_at(old.items, new.items, old.items.len() as int, i);
    lemma_find_item_distinct(new.items, Seq::<ItemModel>::empty(), j);
    assert(new.items + Seq::<ItemModel>::empty() =~= new.items);
    match (old.items[i], new.items[j]) {
        (ItemModel::Struct(a), ItemModel::Struct(b)) => {
            assert(spec_fields_signature(a.fields).len() == a.fields.len());
            assert(spec_fields_signature(b.fields).len() == b.fields.len());
            if 0 <= k < a.fields.len() && !a.fields[k].name.contains(':')
                && !b.fields[k].name.contains(':') {
                reveal_strlit(":");
                let fa = a.fields[k];
                let fb = b.fields[k];
                assert(spec_fields_signature(a.fields)[k] == spec_fields_signature(b.fields)[k]);
                let e = Seq::<char>::empty();
                assert(spec_field_signature(fa) =~= e + fa.name + seq![':'] + spec_signature_rest(fa));
                assert(spec_field_signature(fb) =~= e + fb.name + seq![':'] + spec_signature_rest(fb));
                crate::fingerprint::lemma_names_before_separator(
                    e,
                    fa.name,
                    fb.name,
                    ':',
                    spec_signature_rest(fa),
                    spec_signature_rest(fb),
                );
            }
        },
        _ => {},
    }
}

} // verus!
