//! The Python facade over a schema's native extension module, and the names
//! of the native bridge sources.

use vstd::prelude::*;
use vstd::string::StringExecFns;

use crate::ast::{ItemModel, Schema, SchemaModel};
use crate::fingerprint::{push_literal, spec_number};
use crate::go_names::{snake_case, spec_snake_case};
use crate::typescript::{lemma_concat_step, lemma_join_step, spec_concat, spec_join};
use crate::typescript_types::number_text;

verus! {

/// The language a native bridge serves.
#[derive(Debug, Clone, Copy, PartialEq, Eq, Structural)]
pub enum BridgeKind {
    Python,
    Go,
    TypeScript,
}

impl BridgeKind {
    /// Every kind of bridge.
    pub const ALL: [BridgeKind; 3] = [BridgeKind::Python, BridgeKind::Go, BridgeKind::TypeScript];

    /// The word for the bridge's language in its file name.
    pub open spec fn spec_language(self) -> Seq<char> {
        match self {
            BridgeKind::Python => "python"@,
            BridgeKind::Go => "golang"@,
            BridgeKind::TypeScript => "typescript"@,
        }
    }

    /// The file name of the bridge source for schema `schema_name` at
    /// `layer`: `language.schema_name-layer.rs`.
    pub fn file_name(self, schema_name: &str, layer: u16) -> (r: String)
        ensures
            r@ == self.spec_language() + "."@ + schema_name@ + "-"@ + spec_number(layer as nat)
                + ".rs"@,
    {
        let mut out = match self {
            BridgeKind::Python => "python".to_owned(),
            BridgeKind::Go => "golang".to_owned(),
            BridgeKind::TypeScript => "typescript".to_owned(),
        };
        push_literal(&mut out, ".");
        out.append(schema_name);
        push_literal(&mut out, "-");
        let digits = number_text(layer as u64);
        out.append(digits.as_str());
        push_literal(&mut out, ".rs");
        out
    }
}

/// The import of an item's three native functions under private names.
pub open spec fn spec_native_import(name: Seq<char>) -> Seq<char> {
    let f = spec_snake_case(name);
    "encode_"@ + f + " as _native_encode_"@ + f + ", decode_"@ + f + " as _native_decode_"@ + f
        + ", validate_borrowed_"@ + f + " as _native_validate_borrowed_"@ + f
}

/// An item's Python functions: encoding, decoding and validating through
/// the native module, and borrowing a validated packet.
pub open spec fn spec_python_functions(name: Seq<char>) -> Seq<char> {
    let f = spec_snake_case(name);
    "def encode_"@ + f + "(value: Any) -> bytes:\n    return _native_encode_"@ + f
        + "(value)\n\ndef decode_"@ + f + "(wire: bytes) -> Any:\n    return _native_decode_"@ + f
        + "(wire)\n\ndef validate_borrowed_"@ + f
        + "(wire: bytes) -> None:\n    _native_validate_borrowed_"@ + f
        + "(wire)\n\ndef borrowed_"@ + f
        + "(wire: bytes) -> memoryview:\n    \"\"\"Validate and retain the caller-owned packet without copying it.\"\"\"\n    validate_borrowed_"@
        + f + "(wire)\n    return memoryview(wire)\n\ndef borrowed_packet_"@ + f
        + "(wire: bytes) -> BorrowedPacket:\n    \"\"\"Return an owner object that keeps the packet backing storage alive.\"\"\"\n    validate_borrowed_"@
        + f + "(wire)\n    return BorrowedPacket(wire, \""@ + name + "\")\n\n"@
}

/// An item's names in the module's exports.
pub open spec fn spec_python_exports(name: Seq<char>) -> Seq<char> {
    let f = spec_snake_case(name);
    ", \""@ + name + "\", \"encode_"@ + f + "\", \"decode_"@ + f + "\", \"validate_borrowed_"@ + f
        + "\", \"borrowed_"@ + f + "\", \"borrowed_packet_"@ + f + "\""@
}

/// The packet holder class that every facade defines.
pub open spec fn spec_borrowed_packet_class() -> Seq<char> {
    "\n\nclass BorrowedPacket:\n    __slots__ = (\"_wire\", \"type_name\")\n\n    def __init__(self, wire: bytes, type_name: str) -> None:\n        self._wire = memoryview(wire)\n        self.type_name = type_name\n\n    @property\n    def wire(self) -> memoryview:\n        return self._wire\n\n"@
}

/// The Python facade of a schema.
pub open spec fn spec_python_binding(schema: SchemaModel) -> Seq<char> {
    let names = schema.items.map_values(|item: ItemModel| item.name());
    "from __future__ import annotations\n\nfrom typing import Any\n\nfrom typikon_python import "@
        + spec_join(names.map_values(|n: Seq<char>| spec_native_import(n)), ", "@) + "\n\nLAYER = "@
        + spec_number(schema.version as nat) + spec_borrowed_packet_class() + spec_concat(
        names.map_values(|n: Seq<char>| spec_python_functions(n)),
    ) + "__all__ = [\"LAYER\""@ + spec_concat(names.map_values(|n: Seq<char>| spec_python_exports(n)))
        + "]\n"@
}

fn native_import(name: &String) -> (r: String)
    ensures
        r@ == spec_native_import(name@),
{
    let f = snake_case(name.as_str());
    let mut out = "encode_".to_owned();
    out.append(f.as_str());
    push_literal(&mut out, " as _native_encode_");
    out.append(f.as_str());
    push_literal(&mut out, ", decode_");
    out.append(f.as_str());
    push_literal(&mut out, " as _native_decode_");
    out.append(f.as_str());
    push_literal(&mut out, ", validate_borrowed_");
    out.append(f.as_str());
    push_literal(&mut out, " as _native_validate_borrowed_");
    out.append(f.as_str());
    out
}

fn python_functions(name: &String) -> (r: String)
    ensures
        r@ == spec_python_functions(name@),
{
    let f = snake_case(name.as_str());
    let mut out = "def encode_".to_owned();
    out.append(f.as_str());
    push_literal(&mut out, "(value: Any) -> bytes:\n    return _native_encode_");
    out.append(f.as_str());
    push_literal(&mut out, "(value)\n\ndef decode_");
    out.append(f.as_str());
    push_literal(&mut out, "(wire: bytes) -> Any:\n    return _native_decode_");
    out.append(f.as_str());
    push_literal(&mut out, "(wire)\n\ndef validate_borrowed_");
    out.append(f.as_str());
    push_literal(&mut out, "(wire: bytes) -> None:\n    _native_validate_borrowed_");
    out.append(f.as_str());
    push_literal(&mut out, "(wire)\n\ndef borrowed_");
    out.append(f.as_str());
    push_literal(
        &mut out,
        "(wire: bytes) -> memoryview:\n    \"\"\"Validate and retain the caller-owned packet without copying it.\"\"\"\n    validate_borrowed_",
    );
    out.append(f.as_str());
    push_literal(&mut out, "(wire)\n    return memoryview(wire)\n\ndef borrowed_packet_");
    out.append(f.as_str());
    push_literal(
        &mut out,
        "(wire: bytes) -> BorrowedPacket:\n    \"\"\"Return an owner object that keeps the packet backing storage alive.\"\"\"\n    validate_borrowed_",
    );
    out.append(f.as_str());
    push_literal(&mut out, "(wire)\n    return BorrowedPacket(wire, \"");
    out.append(name.as_str());
    push_literal(&mut out, "\")\n\n");
    out
}

fn python_exports(name: &String) -> (r: String)
    ensures
        r@ == spec_python_exports(name@),
{
    let f = snake_case(name.as_str());
    let mut out = ", \"".to_owned();
    out.append(name.as_str());
    push_literal(&mut out, "\", \"encode_");
    out.append(f.as_str());
    push_literal(&mut out, "\", \"decode_");
    out.append(f.as_str());
    push_literal(&mut out, "\", \"validate_borrowed_");
    out.append(f.as_str());
    push_literal(&mut out, "\", \"borrowed_");
    out.append(f.as_str());
    push_literal(&mut out, "\", \"borrowed_packet_");
    out.append(f.as_str());
    push_literal(&mut out, "\"");
    out
}

fn push_imports(out: &mut String, schema: &Schema)
    ensures
        final(out)@ == old(out)@ + spec_join(schema@.items.map_values(|item: ItemModel| item.name()).map_values(|n: Seq<char>| spec_native_import(n)), ", "@),
{
    let ghost names = schema@.items.map_values(|item: ItemModel| item.name());
    let ghost parts = names.map_values(|n: Seq<char>| spec_native_import(n));
    let ghost head = out@;
    let mut i: usize = 0;
    while i < schema.items.len()
        invariant
            i <= schema.items@.len() == names.len() == parts.len(),
            names == schema@.items.map_values(|item: ItemModel| item.name()),
            parts == names.map_values(|n: Seq<char>| spec_native_import(n)),
            out@ == head + spec_join(parts.take(i as int), ", "@),
        decreases schema.items@.len() - i,
    {
        proof {
            lemma_join_step(parts, ", "@, i as int);
            assert(schema@.items[i as int] == schema.items@[i as int]@);
        }
        if i > 0 {
            push_literal(out, ", ");
        }
        let text = native_import(schema.items[i].name());
        out.append(text.as_str());
        assert(out@ =~= head + spec_join(parts.take(i + 1), ", "@));
        i = i + 1;
    }
    assert(parts.take(names.len() as int) =~= parts);
}

fn push_functions(out: &mut String, schema: &Schema)
    ensures
        final(out)@ == old(out)@ + spec_concat(schema@.items.map_values(|item: ItemModel| item.name()).map_values(|n: Seq<char>| spec_python_functions(n))),
{
    let ghost names = schema@.items.map_values(|item: ItemModel| item.name());
    let ghost parts = names.map_values(|n: Seq<char>| spec_python_functions(n));
    let ghost head = out@;
    let mut i: usize = 0;
    while i < schema.items.len()
        invariant
            i <= schema.items@.len() == names.len() == parts.len(),
            names == schema@.items.map_values(|item: ItemModel| item.name()),
            parts == names.map_values(|n: Seq<char>| spec_python_functions(n)),
            out@ == head + spec_concat(parts.take(i as int)),
        decreases schema.items@.len() - i,
    {
        proof {
            lemma_concat_step(parts, i as int);
            assert(schema@.items[i as int] == schema.items@[i as int]@);
        }
        let text = python_functions(schema.items[i].name());
        out.append(text.as_str());
        assert(out@ =~= head + spec_concat(parts.take(i + 1)));
        i = i + 1;
    }
    assert(parts.take(names.len() as int) =~= parts);
}

fn push_exports(out: &mut String, schema: &Schema)
    ensures
        final(out)@ == old(out)@ + spec_concat(schema@.items.map_values(|item: ItemModel| item.name()).map_values(|n: Seq<char>| spec_python_exports(n))),
{
    let ghost names = schema@.items.map_values(|item: ItemModel| item.name());
    let ghost parts = names.map_values(|n: Seq<char>| spec_python_exports(n));
    let ghost head = out@;
    let mut i: usize = 0;
    while i < schema.items.len()
        invariant
            i <= schema.items@.len() == names.len() == parts.len(),
            names == schema@.items.map_values(|item: ItemModel| item.name()),
            parts == names.map_values(|n: Seq<char>| spec_python_exports(n)),
            out@ == head + spec_concat(parts.take(i as int)),
        decreases schema.items@.len() - i,
    {
        proof {
            lemma_concat_step(parts, i as int);
            assert(schema@.items[i as int] == schema.items@[i as int]@);
        }
        let text = python_exports(schema.items[i].name());
        out.append(text.as_str());
        assert(out@ =~= head + spec_concat(parts.take(i + 1)));
        i = i + 1;
    }
    assert(parts.take(names.len() as int) =~= parts);
}

/// The Python facade of `schema`: it imports each item's native functions
/// from the `typikon_python` extension under private names, states the
/// Layer, defines the packet holder class, wraps each item's functions
/// (with the borrowing ones validating the packet first), and lists the
/// exports.
pub fn generate_python_binding(schema: &Schema) -> (r: String)
    ensures
        r@ == spec_python_binding(schema@),
{
    let mut out = "from __future__ import annotations\n\nfrom typing import Any\n\nfrom typikon_python import ".to_owned();
    push_imports(&mut out, schema);
    push_literal(&mut out, "\n\nLAYER = ");
    let digits = number_text(schema.version as u64);
    out.append(digits.as_str());
    push_literal(
        &mut out,
        "\n\nclass BorrowedPacket:\n    __slots__ = (\"_wire\", \"type_name\")\n\n    def __init__(self, wire: bytes, type_name: str) -> None:\n        self._wire = memoryview(wire)\n        self.type_name = type_name\n\n    @property\n    def wire(self) -> memoryview:\n        return self._wire\n\n",
    );
    push_functions(&mut out, schema);
    push_literal(&mut out, "__all__ = [\"LAYER\"");
    push_exports(&mut out, schema);
    push_literal(&mut out, "]\n");
    assert(out@ =~= spec_python_binding(schema@));
    out
}

} // verus!
