//! How schema names and types read in Go: function and field names, the Go
//! type of a value and of its views, and Constructor IDs as byte literals.

use vstd::prelude::*;
use vstd::string::StringExecFns;
use vstd::utf8::{decode_utf8, encode_utf8, valid_utf8};

use crate::ast::{Schema, Struct, Type, TypeModel, ItemModel, FieldModel};
use crate::fingerprint::{push_literal, spec_number};
use crate::grammar::spec_ascii_lower;
use crate::parser::ascii_lower;
use crate::text::{chars_of, push_char, text_is};
use crate::typescript::spec_join;
use crate::typescript_types::{
    is_bytes_type, is_named, number_text, spec_has_lazy_view, spec_is_bytes, spec_named,
    spec_named_view, typescript_has_lazy_view, typescript_named_view,
};

verus! {

// ---------------------------------------------------------------------------
// Names
// ---------------------------------------------------------------------------

/// The part of a snake-case name that the character at `i` gives: a capital
/// after the first character starts a new word.
pub open spec fn spec_snake_piece(c: char, i: int) -> Seq<char> {
    if 'A' <= c && c <= 'Z' && i > 0 {
        seq!['_', spec_ascii_lower(c)]
    } else {
        seq![spec_ascii_lower(c)]
    }
}

/// `name` in snake case: each ASCII capital after the first character is
/// preceded by an underscore, and every ASCII capital is made small.
pub open spec fn spec_snake_case(name: Seq<char>) -> Seq<char>
    decreases name.len(),
{
    if name.len() == 0 {
        seq![]
    } else {
        spec_snake_case(name.drop_last()) + spec_snake_piece(name.last(), name.len() - 1)
    }
}

pub(crate) fn snake_case(name: &str) -> (r: String)
    ensures
        r@ == spec_snake_case(name@),
{
    let chars = chars_of(name);
    let mut out = String::new();
    let mut i: usize = 0;
    while i < chars.len()
        invariant
            i <= chars@.len(),
            chars@ == name@,
            out@ == spec_snake_case(name@.take(i as int)),
        decreases chars@.len() - i,
    {
        let c = chars[i];
        assert(name@.take(i + 1).drop_last() =~= name@.take(i as int));
        if 'A' <= c && c <= 'Z' && i > 0 {
            push_char(&mut out, '_');
        }
        push_char(&mut out, ascii_lower(c));
        assert(out@ =~= spec_snake_case(name@.take(i + 1)));
        i = i + 1;
    }
    assert(name@.take(chars@.len() as int) =~= name@);
    out
}

/// The uppercase mapping of a character.
pub uninterp spec fn uppercase_mapping(c: char) -> Seq<char>;

/// `char::to_uppercase`, collected into a string. Claimed: the result depends
/// on `c` alone, an ASCII small letter maps to its capital and any other
/// ASCII character to itself. What it gives for other characters (the
/// Unicode tables) is not stated.
#[verifier::external_body]
fn char_to_uppercase(c: char) -> (r: String)
    ensures
        r@ == uppercase_mapping(c),
        97 <= (c as u32) <= 122 ==> r@ == seq![((c as u32) - 32) as char],
        (c as u32) < 128 && !(97 <= (c as u32) <= 122) ==> r@ == seq![c],
{
    c.to_uppercase().collect()
}

/// The part of a Pascal-case name that the character at `i` gives:
/// underscores go, and the first character of each word is capitalised.
pub open spec fn spec_pascal_piece(name: Seq<char>, i: int) -> Seq<char> {
    if name[i] == '_' {
        seq![]
    } else if i == 0 || name[i - 1] == '_' {
        uppercase_mapping(name[i])
    } else {
        seq![name[i]]
    }
}

/// `name` in Pascal case: its words, split at underscores, each with its
/// first character in upper case.
pub open spec fn spec_pascal_case(name: Seq<char>) -> Seq<char>
    decreases name.len(),
{
    if name.len() == 0 {
        seq![]
    } else {
        spec_pascal_case(name.drop_last()) + spec_pascal_piece(name, name.len() - 1)
    }
}

/// The Pascal-case name depends on the characters before each one only.
proof fn lemma_pascal_prefix(name: Seq<char>, i: int)
    requires
        0 <= i < name.len(),
    ensures
        spec_pascal_case(name.take(i + 1)) == spec_pascal_case(name.take(i)) + spec_pascal_piece(
            name,
            i,
        ),
{
    let t = name.take(i + 1);
    assert(t.drop_last() =~= name.take(i));
    assert(t[i] == name[i]);
    if i > 0 {
        assert(t[i - 1] == name[i - 1]);
    }
    assert(spec_pascal_piece(t, i) == spec_pascal_piece(name, i));
}

pub(crate) fn pascal_case(name: &str) -> (r: String)
    ensures
        r@ == spec_pascal_case(name@),
{
    let chars = chars_of(name);
    let mut out = String::new();
    let mut i: usize = 0;
    while i < chars.len()
        invariant
            i <= chars@.len(),
            chars@ == name@,
            out@ == spec_pascal_case(name@.take(i as int)),
        decreases chars@.len() - i,
    {
        proof {
            lemma_pascal_prefix(name@, i as int);
        }
        let c = chars[i];
        if c == '_' {
        } else if i == 0 || chars[i - 1] == '_' {
            let upper = char_to_uppercase(c);
            out.append(upper.as_str());
        } else {
            push_char(&mut out, c);
        }
        assert(out@ =~= spec_pascal_case(name@.take(i + 1)));
        i = i + 1;
    }
    assert(name@.take(chars@.len() as int) =~= name@);
    out
}

// ---------------------------------------------------------------------------
// Primitives
// ---------------------------------------------------------------------------

/// The name of the Go encoder and decoder method for a primitive.
pub open spec fn spec_go_wire_method(name: Seq<char>) -> Seq<char> {
    if name == "String"@ {
        "string"@
    } else if name == "bool"@ {
        "bool"@
    } else if name == "f32"@ {
        "f32"@
    } else if name == "f64"@ {
        "f64"@
    } else if name == "u8"@ {
        "u8"@
    } else if name == "u16"@ {
        "u16"@
    } else if name == "u32"@ {
        "u32"@
    } else if name == "u64"@ {
        "u64"@
    } else if name == "i8"@ {
        "i8"@
    } else if name == "i16"@ {
        "i16"@
    } else if name == "i32"@ {
        "i32"@
    } else if name == "i64"@ {
        "i64"@
    } else {
        "bytes"@
    }
}

/// The Go encoder and decoder method for each wire primitive is the one
/// named after it (`string` for `String`); for an integer it agrees with the
/// field's Go type: `u` methods for `uint` types and `i` methods for `int`
/// types, of the same width.
pub proof fn lemma_go_wire_method_is_the_primitive(name: Seq<char>)
    requires
        name == "String"@
            || name == "bool"@
            || name == "f32"@
            || name == "f64"@
            || name == "u8"@
            || name == "u16"@
            || name == "u32"@
            || name == "u64"@
            || name == "i8"@
            || name == "i16"@
            || name == "i32"@
            || name == "i64"@,
    ensures
        spec_go_wire_method(name) == if name == "String"@ {
            "string"@
        } else {
            name
        },
        name[0] == 'u' ==> spec_go_primitive(name) == "uint"@ + name.skip(1),
        name[0] == 'i' ==> spec_go_primitive(name) == "int"@ + name.skip(1),
{
    reveal_strlit("String");
    reveal_strlit("bool");
    reveal_strlit("f32");
    reveal_strlit("f64");
    reveal_strlit("u8");
    reveal_strlit("u16");
    reveal_strlit("u32");
    reveal_strlit("u64");
    reveal_strlit("i8");
    reveal_strlit("i16");
    reveal_strlit("i32");
    reveal_strlit("i64");
    reveal_strlit("string");
    reveal_strlit("uint8");
    reveal_strlit("uint16");
    reveal_strlit("uint32");
    reveal_strlit("uint64");
    reveal_strlit("int8");
    reveal_strlit("int16");
    reveal_strlit("int32");
    reveal_strlit("int64");
    reveal_strlit("u128");
    reveal_strlit("i128");
    reveal_strlit("float32");
    reveal_strlit("float64");
    reveal_strlit("uint");
    reveal_strlit("int");
    assert(name[0] == 'u' ==> spec_go_primitive(name) =~= "uint"@ + name.skip(1));
    assert(name[0] == 'i' ==> spec_go_primitive(name) =~= "int"@ + name.skip(1));
}

pub(crate) fn go_wire_method(name: &String) -> (r: &'static str)
    ensures
        r@ == spec_go_wire_method(name@),
{
    if text_is(name, "String") {
        "string"
    } else if text_is(name, "bool") {
        "bool"
    } else if text_is(name, "f32") {
        "f32"
    } else if text_is(name, "f64") {
        "f64"
    } else if text_is(name, "u8") {
        "u8"
    } else if text_is(name, "u16") {
        "u16"
    } else if text_is(name, "u32") {
        "u32"
    } else if text_is(name, "u64") {
        "u64"
    } else if text_is(name, "i8") {
        "i8"
    } else if text_is(name, "i16") {
        "i16"
    } else if text_is(name, "i32") {
        "i32"
    } else if text_is(name, "i64") {
        "i64"
    } else {
        "bytes"
    }
}

/// The Go type of a primitive; a name that is no primitive is a byte
/// string.
pub open spec fn spec_go_primitive(name: Seq<char>) -> Seq<char> {
    if name == "u8"@ {
        "uint8"@
    } else if name == "u16"@ {
        "uint16"@
    } else if name == "u32"@ {
        "uint32"@
    } else if name == "u64"@ {
        "uint64"@
    } else if name == "u128"@ {
        "string"@
    } else if name == "i8"@ {
        "int8"@
    } else if name == "i16"@ {
        "int16"@
    } else if name == "i32"@ {
        "int32"@
    } else if name == "i64"@ {
        "int64"@
    } else if name == "i128"@ {
        "string"@
    } else if name == "bool"@ {
        "bool"@
    } else if name == "f32"@ {
        "float32"@
    } else if name == "f64"@ {
        "float64"@
    } else if name == "String"@ {
        "string"@
    } else {
        "[]byte"@
    }
}

/// `name` is one of the primitives that Go has a type for.
pub open spec fn spec_go_scalar(name: Seq<char>) -> bool {
    spec_go_primitive(name) != "[]byte"@
}

pub(crate) fn go_primitive(name: &String) -> (r: &'static str)
    ensures
        r@ == spec_go_primitive(name@),
{
    proof {
        reveal_strlit("[]byte");
    }
    if text_is(name, "u8") {
        "uint8"
    } else if text_is(name, "u16") {
        "uint16"
    } else if text_is(name, "u32") {
        "uint32"
    } else if text_is(name, "u64") {
        "uint64"
    } else if text_is(name, "u128") {
        "string"
    } else if text_is(name, "i8") {
        "int8"
    } else if text_is(name, "i16") {
        "int16"
    } else if text_is(name, "i32") {
        "int32"
    } else if text_is(name, "i64") {
        "int64"
    } else if text_is(name, "i128") {
        "string"
    } else if text_is(name, "bool") {
        "bool"
    } else if text_is(name, "f32") {
        "float32"
    } else if text_is(name, "f64") {
        "float64"
    } else if text_is(name, "String") {
        "string"
    } else {
        "[]byte"
    }
}

// ---------------------------------------------------------------------------
// Types
// ---------------------------------------------------------------------------

/// The Go type of a value.
pub open spec fn spec_go_type(ty: TypeModel, items: Seq<ItemModel>) -> Seq<char>
    decreases ty,
{
    match ty {
        TypeModel::FixedBytes(n) => "["@ + spec_number(n) + "]byte"@,
        TypeModel::Optional(item) => "*"@ + spec_go_type(*item, items),
        TypeModel::Primitive(name) => if spec_go_scalar(name) {
            spec_go_primitive(name)
        } else if spec_named(items, name) {
            name
        } else {
            "[]byte"@
        },
        TypeModel::Vec(item) => if spec_is_bytes(ty) {
            "[]byte"@
        } else {
            "[]"@ + spec_go_type(*item, items)
        },
        TypeModel::Mapping(_, value) => "map[string]"@ + spec_go_type(*value, items),
    }
}

pub(crate) fn go_type(ty: &Type, schema: &Schema) -> (r: String)
    ensures
        r@ == spec_go_type(ty@, schema@.items),
    decreases ty,
{
    match ty {
        Type::FixedBytes(n) => {
            let mut out = "[".to_owned();
            let digits = number_text(*n as u64);
            out.append(digits.as_str());
            push_literal(&mut out, "]byte");
            out
        },
        Type::Optional(item) => {
            let mut out = "*".to_owned();
            let inner = go_type(item, schema);
            out.append(inner.as_str());
            out
        },
        Type::Primitive(name) => {
            let primitive = go_primitive(name).to_owned();
            if !text_is(&primitive, "[]byte") {
                primitive
            } else if is_named(schema, name) {
                name.clone()
            } else {
                "[]byte".to_owned()
            }
        },
        Type::Vec(item) => {
            if is_bytes_type(ty) {
                "[]byte".to_owned()
            } else {
                let mut out = "[]".to_owned();
                let inner = go_type(item, schema);
                out.append(inner.as_str());
                out
            }
        },
        Type::Mapping(_, value) => {
            let mut out = "map[string]".to_owned();
            let inner = go_type(value, schema);
            out.append(inner.as_str());
            out
        },
    }
}

/// The type of a value in a view of the packet: byte strings and strings
/// stay bytes, named types with a view of their own are read into it, and a
/// map is a list of entries.
pub open spec fn spec_go_view_type(ty: TypeModel, items: Seq<ItemModel>) -> Seq<char>
    decreases ty,
{
    match ty {
        TypeModel::Optional(item) => "*"@ + spec_go_view_type(*item, items),
        TypeModel::FixedBytes(_) => "[]byte"@,
        TypeModel::Primitive(name) => if name == "String"@ {
            "[]byte"@
        } else if spec_named(items, name) && spec_named_view(items, name) {
            name + "View"@
        } else {
            spec_go_type(ty, items)
        },
        TypeModel::Vec(item) => if spec_is_bytes(ty) {
            "[]byte"@
        } else {
            "[]"@ + spec_go_view_type(*item, items)
        },
        TypeModel::Mapping(key, value) => "[]struct { Key "@ + spec_go_view_type(*key, items)
            + "; Value "@ + spec_go_view_type(*value, items) + " }"@,
    }
}

pub(crate) fn go_view_type(ty: &Type, schema: &Schema) -> (r: String)
    ensures
        r@ == spec_go_view_type(ty@, schema@.items),
    decreases ty,
{
    match ty {
        Type::Optional(item) => {
            let mut out = "*".to_owned();
            let inner = go_view_type(item, schema);
            out.append(inner.as_str());
            out
        },
        Type::FixedBytes(_) => "[]byte".to_owned(),
        Type::Primitive(name) => {
            if text_is(name, "String") {
                "[]byte".to_owned()
            } else if is_named(schema, name) && typescript_named_view(name, schema) {
                let mut out = name.clone();
                push_literal(&mut out, "View");
                out
            } else {
                go_type(ty, schema)
            }
        },
        Type::Vec(item) => {
            if is_bytes_type(ty) {
                "[]byte".to_owned()
            } else {
                let mut out = "[]".to_owned();
                let inner = go_view_type(item, schema);
                out.append(inner.as_str());
                out
            }
        },
        Type::Mapping(key, value) => {
            let mut out = "[]struct { Key ".to_owned();
            let k = go_view_type(key, schema);
            out.append(k.as_str());
            push_literal(&mut out, "; Value ");
            let v = go_view_type(value, schema);
            out.append(v.as_str());
            push_literal(&mut out, " }");
            out
        },
    }
}

/// The type of a value in a lazy view: as in a view, but a struct with
/// collections is read into its lazy view.
pub open spec fn spec_go_lazy_view_type(ty: TypeModel, items: Seq<ItemModel>) -> Seq<char>
    decreases ty,
{
    match ty {
        TypeModel::FixedBytes(_) => "[]byte"@,
        TypeModel::Primitive(name) => if spec_named(items, name) && spec_has_lazy_view(items, name) {
            name + "LazyView"@
        } else {
            spec_go_view_type(ty, items)
        },
        TypeModel::Vec(item) => "[]"@ + spec_go_lazy_view_type(*item, items),
        TypeModel::Mapping(key, value) => "[]struct { Key "@ + spec_go_lazy_view_type(*key, items)
            + "; Value "@ + spec_go_lazy_view_type(*value, items) + " }"@,
        _ => spec_go_view_type(ty, items),
    }
}

pub(crate) fn go_lazy_view_type(ty: &Type, schema: &Schema) -> (r: String)
    ensures
        r@ == spec_go_lazy_view_type(ty@, schema@.items),
    decreases ty,
{
    match ty {
        Type::FixedBytes(_) => "[]byte".to_owned(),
        Type::Primitive(name) => {
            if is_named(schema, name) && typescript_has_lazy_view(name, schema) {
                let mut out = name.clone();
                push_literal(&mut out, "LazyView");
                out
            } else {
                go_view_type(ty, schema)
            }
        },
        Type::Vec(item) => {
            let mut out = "[]".to_owned();
            let inner = go_lazy_view_type(item, schema);
            out.append(inner.as_str());
            out
        },
        Type::Mapping(key, value) => {
            let mut out = "[]struct { Key ".to_owned();
            let k = go_lazy_view_type(key, schema);
            out.append(k.as_str());
            push_literal(&mut out, "; Value ");
            let v = go_lazy_view_type(value, schema);
            out.append(v.as_str());
            push_literal(&mut out, " }");
            out
        },
        _ => go_view_type(ty, schema),
    }
}

// ---------------------------------------------------------------------------
// Constructor IDs and guard bits
// ---------------------------------------------------------------------------

/// The text of a byte string read as UTF-8, with each invalid sequence
/// replaced.
pub uninterp spec fn utf8_lossy(bytes: Seq<u8>) -> Seq<char>;

/// `String::from_utf8_lossy`, made an owned string. Claimed: the result
/// depends on the bytes alone, and valid UTF-8 reads as the characters it
/// encodes. What replaces invalid sequences is not stated.
#[verifier::external_body]
fn lossy_text(bytes: &[u8]) -> (r: String)
    ensures
        r@ == utf8_lossy(bytes@),
        valid_utf8(bytes@) ==> r@ == decode_utf8(bytes@),
{
    String::from_utf8_lossy(bytes).into_owned()
}

/// The `k`th two-byte chunk of `bytes` (the last may hold one byte).
pub open spec fn spec_chunk(bytes: Seq<u8>, k: int) -> Seq<u8> {
    let end = if 2 * k + 2 <= bytes.len() {
        2 * k + 2
    } else {
        bytes.len() as int
    };
    bytes.subrange(2 * k, end)
}

/// A Constructor ID as the elements of a Go byte literal: each two bytes of
/// its text after `0x`, separated by commas.
pub open spec fn spec_cid_bytes(cid: Seq<char>) -> Seq<char> {
    let bytes = encode_utf8(cid);
    spec_join(
        Seq::new(
            ((bytes.len() + 1) / 2) as nat,
            |k: int| "0x"@ + utf8_lossy(spec_chunk(bytes, k)),
        ),
        ","@,
    )
}

pub(crate) fn cid_bytes(cid: &String) -> (r: String)
    ensures
        r@ == spec_cid_bytes(cid@),
{
    let bytes = cid.as_str().as_bytes();
    let ghost b = encode_utf8(cid@);
    assert(bytes@ == b);
    let count = bytes.len() / 2 + bytes.len() % 2;
    let ghost parts = Seq::new(
        ((b.len() + 1) / 2) as nat,
        |k: int| "0x"@ + utf8_lossy(spec_chunk(b, k)),
    );
    assert(count == parts.len());
    let mut out = String::new();
    let mut k: usize = 0;
    while k < count
        invariant
            k <= count == parts.len(),
            bytes@ == b,
            b.len() <= usize::MAX,
            count * 2 <= b.len() + 1,
            parts == Seq::new(
                ((b.len() + 1) / 2) as nat,
                |k: int| "0x"@ + utf8_lossy(spec_chunk(b, k)),
            ),
            out@ == spec_join(parts.take(k as int), ","@),
        decreases count - k,
    {
        proof {
            crate::typescript::lemma_join_step(parts, ","@, k as int);
        }
        let start = 2 * k;
        let mut chunk: Vec<u8> = Vec::new();
        chunk.push(bytes[start]);
        if start + 1 < bytes.len() {
            chunk.push(bytes[start + 1]);
        }
        assert(chunk@ =~= spec_chunk(b, k as int));
        let text = lossy_text(chunk.as_slice());
        if k > 0 {
            push_literal(&mut out, ",");
        }
        push_literal(&mut out, "0x");
        out.append(text.as_str());
        assert(out@ =~= spec_join(parts.take(k + 1), ","@));
        k = k + 1;
    }
    assert(parts.take(count as int) =~= parts);
    out
}

} // verus!
