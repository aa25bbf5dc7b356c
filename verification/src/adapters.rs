//! What the language adapters share: each one gives every item of a schema
//! the functions that hand its packets to the native core at the schema's
//! Layer.

use vstd::prelude::*;

use crate::ast::{ItemModel, SchemaModel};
use crate::go_binding::{spec_go_declarations, spec_go_item, spec_go_item_codec, spec_go_view_item};
use crate::go_items::spec_go_packet_functions;
use crate::python::{spec_python_binding, spec_python_functions};
use crate::typescript::{
    spec_binary_functions, spec_binding_head, spec_binding_item, spec_concat, spec_typed_item,
    spec_typescript_binding,
};

verus! {

/// `part` stands somewhere in `text`, its characters one after another.
pub open spec fn spec_occurs(text: Seq<char>, part: Seq<char>) -> bool {
    exists|i: int|
        0 <= i && i + part.len() <= text.len() && #[trigger] text.subrange(i, i + part.len()) == part
}

/// A text stands in itself.
pub proof fn lemma_occurs_itself(part: Seq<char>)
    ensures
        spec_occurs(part, part),
{
    let i: int = 0;
    assert(part.subrange(i, i + part.len()) =~= part);
}

/// What stands in a text stands in the text with more before and after it.
pub proof fn lemma_occurs_within(a: Seq<char>, b: Seq<char>, c: Seq<char>, part: Seq<char>)
    requires
        spec_occurs(b, part),
    ensures
        spec_occurs(a + b + c, part),
{
    let i = choose|i: int|
        0 <= i && i + part.len() <= b.len() && #[trigger] b.subrange(i, i + part.len()) == part;
    let j = a.len() + i;
    assert((a + b + c).subrange(j, j + part.len()) =~= b.subrange(i, i + part.len()));
}

/// What stands in a text stands in the text with more before it.
pub proof fn lemma_occurs_after(a: Seq<char>, b: Seq<char>, part: Seq<char>)
    requires
        spec_occurs(b, part),
    ensures
        spec_occurs(a + b, part),
{
    lemma_occurs_within(a, b, Seq::<char>::empty(), part);
    assert(a + b + Seq::<char>::empty() =~= a + b);
}

/// What stands in a text stands in the text with more after it.
pub proof fn lemma_occurs_before(a: Seq<char>, b: Seq<char>, part: Seq<char>)
    requires
        spec_occurs(a, part),
    ensures
        spec_occurs(a + b, part),
{
    lemma_occurs_within(Seq::<char>::empty(), a, b, part);
    assert(Seq::<char>::empty() + a + b =~= a + b);
}

/// The pieces of two lists one after another are the pieces of each.
pub proof fn lemma_concat_append(first: Seq<Seq<char>>, second: Seq<Seq<char>>)
    ensures
        spec_concat(first + second) == spec_concat(first) + spec_concat(second),
    decreases second.len(),
{
    if second.len() == 0 {
        assert(first + second =~= first);
        assert(spec_concat(second) =~= Seq::<char>::empty());
        assert(spec_concat(first) + spec_concat(second) =~= spec_concat(first));
    } else {
        lemma_concat_append(first, second.drop_last());
        assert((first + second).drop_last() =~= first + second.drop_last());
        assert((first + second).last() == second.last());
        assert(spec_concat(first) + spec_concat(second) =~= spec_concat(first) + spec_concat(
            second.drop_last(),
        ) + second.last());
    }
}

/// The pieces of a list: those before the `k`th, the `k`th, and those
/// after it.
pub proof fn lemma_concat_around(parts: Seq<Seq<char>>, k: int)
    requires
        0 <= k < parts.len(),
    ensures
        spec_concat(parts) == spec_concat(parts.take(k)) + parts[k] + spec_concat(parts.skip(k + 1)),
{
    let rest = parts.skip(k);
    assert(parts =~= parts.take(k) + rest);
    lemma_concat_append(parts.take(k), rest);
    assert(rest =~= seq![parts[k]] + parts.skip(k + 1));
    lemma_concat_append(seq![parts[k]], parts.skip(k + 1));
    let one = seq![parts[k]];
    assert(one.drop_last() =~= Seq::<Seq<char>>::empty());
    assert(spec_concat(one.drop_last()) =~= Seq::<char>::empty());
    assert(one.last() == parts[k]);
    assert(spec_concat(one) =~= parts[k]);
}

proof fn lemma_go_covers_item(schema: SchemaModel, k: int)
    requires
        0 <= k < schema.items.len(),
    ensures
        spec_occurs(
            spec_go_declarations(schema),
            spec_go_packet_functions(schema.items[k].name(), schema.version),
        ),
{
    let item = schema.items[k];
    let parts = schema.items.map_values(
        |item: ItemModel| spec_go_item(item, schema, schema.items.len()),
    );
    let packet = spec_go_packet_functions(item.name(), schema.version);
    lemma_concat_around(parts, k);
    reveal(spec_go_item);
    lemma_occurs_itself(packet);
    lemma_occurs_within(
        spec_go_item_codec(item, schema, schema.items.len()),
        packet,
        spec_go_view_item(item, schema),
        packet,
    );
    lemma_occurs_within(spec_concat(parts.take(k)), parts[k], spec_concat(parts.skip(k + 1)), packet);
    lemma_occurs_after(crate::go_binding::spec_go_bytes_compare(), spec_concat(parts), packet);
}

proof fn lemma_typescript_covers_item(schema: SchemaModel, k: int)
    requires
        0 <= k < schema.items.len(),
    ensures
        spec_occurs(
            spec_typescript_binding(schema),
            spec_binary_functions(schema.items[k].name(), schema.version),
        ),
{
    let item = schema.items[k];
    let parts = schema.items.map_values(|item: ItemModel| spec_binding_item(item, schema));
    let binary = spec_binary_functions(item.name(), schema.version);
    lemma_concat_around(parts, k);
    reveal(spec_binding_item);
    lemma_occurs_itself(binary);
    lemma_occurs_within(
        spec_binding_head(item, schema.items),
        binary,
        spec_typed_item(item, schema, schema.items.len()),
        binary,
    );
    lemma_occurs_within(spec_concat(parts.take(k)), parts[k], spec_concat(parts.skip(k + 1)), binary);
    lemma_occurs_after(crate::typescript_runtime::TS_PREAMBLE@, spec_concat(parts), binary);
}

proof fn lemma_python_covers_item(schema: SchemaModel, k: int)
    requires
        0 <= k < schema.items.len(),
    ensures
        spec_occurs(spec_python_binding(schema), spec_python_functions(schema.items[k].name())),
{
    let names = schema.items.map_values(|item: ItemModel| item.name());
    let parts = names.map_values(|n: Seq<char>| spec_python_functions(n));
    let functions = spec_python_functions(schema.items[k].name());
    lemma_concat_around(parts, k);
    lemma_occurs_itself(functions);
    lemma_occurs_within(spec_concat(parts.take(k)), parts[k], spec_concat(parts.skip(k + 1)), functions);
    let head = "from __future__ import annotations\n\nfrom typing import Any\n\nfrom typikon_python import "@
        + crate::typescript::spec_join(
        names.map_values(|n: Seq<char>| crate::python::spec_native_import(n)),
        ", "@,
    ) + "\n\nLAYER = "@ + crate::fingerprint::spec_number(schema.version as nat)
        + crate::python::spec_borrowed_packet_class();
    let exports = spec_concat(names.map_values(|n: Seq<char>| crate::python::spec_python_exports(n)));
    lemma_occurs_after(head, spec_concat(parts), functions);
    lemma_occurs_before(head + spec_concat(parts), "__all__ = [\"LAYER\""@, functions);
    lemma_occurs_before(head + spec_concat(parts) + "__all__ = [\"LAYER\""@, exports, functions);
    lemma_occurs_before(
        head + spec_concat(parts) + "__all__ = [\"LAYER\""@ + exports,
        "]\n"@,
        functions,
    );
}

/// Every item of a schema has, in the Go declarations, the functions that
/// encode and decode its packets and validate them through the native
/// symbol of the schema's Layer; in the TypeScript binding, the functions
/// that hand its packets to the native binding at that Layer; and in the
/// Python facade, the functions that wrap its native ones.
pub proof fn lemma_adapters_cover_every_item(schema: SchemaModel, k: int)
    requires
        0 <= k < schema.items.len(),
    ensures
        spec_occurs(
            spec_go_declarations(schema),
            spec_go_packet_functions(schema.items[k].name(), schema.version),
        ),
        spec_occurs(
            spec_typescript_binding(schema),
            spec_binary_functions(schema.items[k].name(), schema.version),
        ),
        spec_occurs(spec_python_binding(schema), spec_python_functions(schema.items[k].name())),
{
    lemma_go_covers_item(schema, k);
    lemma_typescript_covers_item(schema, k);
    lemma_python_covers_item(schema, k);
}

} // verus!
