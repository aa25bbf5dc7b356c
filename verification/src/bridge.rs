//! The per-item parts of a schema's native bridge sources: the name of the
//! generated module that a bridge reaches, the TypeScript bridge's binary
//! encode and decode functions with the arms that dispatch to them by type
//! name, and the Python bridge's registration lines. The parts that check a
//! packet through an item's borrowed view depend on those views, which this
//! crate does not describe.

use vstd::prelude::*;
use vstd::string::StringExecFns;

use crate::ast::{Item, ItemModel, Schema, SchemaModel};
use crate::fingerprint::{push_literal, spec_number};
use crate::go_names::{snake_case, spec_snake_case};
use crate::text::{chars_of, push_char};
use crate::typescript::{lemma_concat_step, spec_concat};
use crate::typescript_types::number_text;

verus! {

/// `s` without each `.rs` at its end.
pub open spec fn spec_trim_rs(s: Seq<char>) -> Seq<char>
    decreases s.len(),
{
    if 3 <= s.len() && s.subrange(s.len() - 3, s.len() as int) == ".rs"@ {
        spec_trim_rs(s.take(s.len() - 3))
    } else {
        s
    }
}

/// A character of a module name: `-` and `.` become `_`.
pub open spec fn spec_module_char(c: char) -> char {
    if c == '-' || c == '.' {
        '_'
    } else {
        c
    }
}

/// The name of the module that a bridge gives the generated source
/// `native_file`: the file name without its `.rs`, with `_` for `-` and `.`.
pub open spec fn spec_bridge_module(native_file: Seq<char>) -> Seq<char> {
    spec_trim_rs(native_file).map_values(|c: char| spec_module_char(c))
}

/// The name of the module that a bridge gives the generated source
/// `native_file`.
pub fn bridge_module(native_file: &str) -> (r: String)
    ensures
        r@ == spec_bridge_module(native_file@),
{
    proof {
        reveal_strlit(".rs");
    }
    let chars = chars_of(native_file);
    let mut end: usize = chars.len();
    assert(native_file@.take(end as int) =~= native_file@);
    while end >= 3 && chars[end - 3] == '.' && chars[end - 2] == 'r' && chars[end - 1] == 's'
        invariant
            chars@ == native_file@,
            end <= chars@.len(),
            spec_trim_rs(native_file@) == spec_trim_rs(native_file@.take(end as int)),
        decreases end,
    {
        proof {
            reveal_strlit(".rs");
        }
        let ghost s = native_file@.take(end as int);
        assert(s[end - 3] == '.' && s[end - 2] == 'r' && s[end - 1] == 's');
        assert(s.subrange(s.len() - 3, s.len() as int) =~= ".rs"@);
        assert(s.take(s.len() - 3) =~= native_file@.take(end - 3));
        end = end - 3;
    }
    proof {
        let s = native_file@.take(end as int);
        if 3 <= s.len() && s.subrange(s.len() - 3, s.len() as int) == ".rs"@ {
            assert(s.subrange(s.len() - 3, s.len() as int)[0] == '.');
            assert(s.subrange(s.len() - 3, s.len() as int)[1] == 'r');
            assert(s.subrange(s.len() - 3, s.len() as int)[2] == 's');
        }
    }
    let mut out = String::new();
    let mut i: usize = 0;
    while i < end
        invariant
            chars@ == native_file@,
            end <= chars@.len(),
            i <= end,
            out@ == native_file@.take(i as int).map_values(|c: char| spec_module_char(c)),
        decreases end - i,
    {
        let c = if chars[i] == '-' || chars[i] == '.' {
            '_'
        } else {
            chars[i]
        };
        push_char(&mut out, c);
        assert(native_file@.take(i + 1).map_values(|c: char| spec_module_char(c)) =~= native_file@.take(
            i as int,
        ).map_values(|c: char| spec_module_char(c)).push(c));
        i = i + 1;
    }
    assert(native_file@.take(end as int).take(end as int) =~= native_file@.take(end as int));
    out
}

/// The check that an alias with an exact length adds after decoding.
pub open spec fn spec_exact_check(item: ItemModel) -> Seq<char> {
    match item {
        ItemModel::Alias(a) => match a.exact_len {
            Some(n) => " if value.len() != "@ + spec_number(n as nat)
                + " { return Err(\"invalid exact length\".into()); }"@,
            None => seq![],
        },
        _ => seq![],
    }
}

/// The TypeScript bridge's function `{direction}_binary_{f}`: it decodes
/// the packet as the item's native type, checks it and hands the packet
/// back.
pub open spec fn spec_binary_function(direction: Seq<char>, item: ItemModel, module: Seq<char>) -> Seq<char> {
    let f = spec_snake_case(item.name());
    let head = "pub fn "@ + direction + "_binary_"@ + f
        + "(input: &[u8]) -> Result<Vec<u8>, String> { let mut decoder = typikon::Decoder::new(input, typikon::DEFAULT_MAX_PACKET_SIZE).map_err(|error| format!(\"{error:?}\"))?; let "@;
    let tail = " if !decoder.is_finished() { return Err(\"trailing bytes\".into()); } Ok(input.to_vec()) }\n"@;
    let decode = " = typikon::WireCodec::decode(&mut decoder).map_err(|error| format!(\"{error:?}\"))?;"@;
    if item is Flags {
        head + "_: "@ + module + "::"@ + item.name() + decode + tail
    } else {
        head + "value: "@ + module + "::"@ + item.name() + decode + spec_exact_check(item) + tail
    }
}

/// The TypeScript bridge's encode and decode functions for one item.
pub open spec fn spec_binary_functions(item: ItemModel, module: Seq<char>) -> Seq<char> {
    spec_binary_function("encode"@, item, module) + spec_binary_function("decode"@, item, module)
}

/// The TypeScript bridge's encode and decode functions for every item of
/// `schema`, in order, for the generated source `native_file`.
pub open spec fn spec_bridge_items(schema: SchemaModel, native_file: Seq<char>) -> Seq<char> {
    spec_concat(
        schema.items.map_values(
            |item: ItemModel| spec_binary_functions(item, spec_bridge_module(native_file)),
        ),
    )
}

fn binary_function(direction: &str, item: &Item, module: &String) -> (r: String)
    ensures
        r@ == spec_binary_function(direction@, item@, module@),
{
    let f = snake_case(item.name().as_str());
    let mut out = "pub fn ".to_owned();
    out.append(direction);
    push_literal(&mut out, "_binary_");
    out.append(f.as_str());
    push_literal(
        &mut out,
        "(input: &[u8]) -> Result<Vec<u8>, String> { let mut decoder = typikon::Decoder::new(input, typikon::DEFAULT_MAX_PACKET_SIZE).map_err(|error| format!(\"{error:?}\"))?; let ",
    );
    match item {
        Item::Flags(_) => push_literal(&mut out, "_: "),
        _ => push_literal(&mut out, "value: "),
    }
    out.append(module.as_str());
    push_literal(&mut out, "::");
    out.append(item.name().as_str());
    push_literal(
        &mut out,
        " = typikon::WireCodec::decode(&mut decoder).map_err(|error| format!(\"{error:?}\"))?;",
    );
    match item {
        Item::Alias(a) => match a.exact_len {
            Some(n) => {
                push_literal(&mut out, " if value.len() != ");
                let digits = number_text(n as u64);
                out.append(digits.as_str());
                push_literal(&mut out, " { return Err(\"invalid exact length\".into()); }");
            },
            None => {},
        },
        _ => {},
    }
    push_literal(
        &mut out,
        " if !decoder.is_finished() { return Err(\"trailing bytes\".into()); } Ok(input.to_vec()) }\n",
    );
    out
}

/// The TypeScript bridge's binary encode and decode functions for every
/// item of `schema`, which reach the item's native type in the module that
/// the bridge gives the generated source `native_file`.
pub fn bridge_items(schema: &Schema, native_file: &str) -> (r: String)
    ensures
        r@ == spec_bridge_items(schema@, native_file@),
{
    let module = bridge_module(native_file);
    let ghost parts = schema@.items.map_values(
        |item: ItemModel| spec_binary_functions(item, spec_bridge_module(native_file@)),
    );
    let mut out = String::new();
    let mut i: usize = 0;
    while i < schema.items.len()
        invariant
            i <= schema.items@.len() == parts.len(),
            module@ == spec_bridge_module(native_file@),
            parts == schema@.items.map_values(
                |item: ItemModel| spec_binary_functions(item, spec_bridge_module(native_file@)),
            ),
            out@ == spec_concat(parts.take(i as int)),
        decreases schema.items@.len() - i,
    {
        proof {
            lemma_concat_step(parts, i as int);
            assert(schema@.items[i as int] == schema.items@[i as int]@);
        }
        let encode = binary_function("encode", &schema.items[i], &module);
        let decode = binary_function("decode", &schema.items[i], &module);
        out.append(encode.as_str());
        out.append(decode.as_str());
        assert(out@ =~= spec_concat(parts.take(i + 1)));
        i = i + 1;
    }
    assert(parts.take(parts.len() as int) =~= parts);
    out
}

/// The operations that the TypeScript bridge dispatches by type name.
#[derive(Debug, Clone, Copy, PartialEq, Eq, Structural)]
pub enum BridgeDispatch {
    Encode,
    Decode,
    Validate,
    Borrow,
}

/// The arm of the dispatch `operation` for the item whose snake-case name
/// is `f`.
pub open spec fn spec_dispatch_arm(operation: BridgeDispatch, f: Seq<char>) -> Seq<char> {
    let head = "        \""@ + f + "\" => "@;
    match operation {
        BridgeDispatch::Encode => head + "encode_binary_"@ + f
            + "(&input).map(Buffer::from).map_err(napi::Error::from_reason),\n"@,
        BridgeDispatch::Decode => head + "decode_binary_"@ + f
            + "(&input).map(Buffer::from).map_err(napi::Error::from_reason),\n"@,
        BridgeDispatch::Validate => head + "validate_borrowed_"@ + f
            + "(&input).map_err(|error| napi::Error::from_reason(format!(\"{error:?}\"))),\n"@,
        BridgeDispatch::Borrow => head + "{ validate_borrowed_"@ + f
            + "(&input).map_err(|error| napi::Error::from_reason(format!(\"{error:?}\")))?; Ok(input) },\n"@,
    }
}

/// The arms of the dispatch `operation`, one for each item of `schema` in
/// order, each matching the item's snake-case name.
pub open spec fn spec_dispatch_arms(schema: SchemaModel, operation: BridgeDispatch) -> Seq<char> {
    spec_concat(
        schema.items.map_values(
            |item: ItemModel| spec_dispatch_arm(operation, spec_snake_case(item.name())),
        ),
    )
}

fn dispatch_arm(operation: BridgeDispatch, f: &String) -> (r: String)
    ensures
        r@ == spec_dispatch_arm(operation, f@),
{
    let mut out = "        \"".to_owned();
    out.append(f.as_str());
    push_literal(&mut out, "\" => ");
    match operation {
        BridgeDispatch::Encode => {
            push_literal(&mut out, "encode_binary_");
            out.append(f.as_str());
            push_literal(&mut out, "(&input).map(Buffer::from).map_err(napi::Error::from_reason),\n");
        },
        BridgeDispatch::Decode => {
            push_literal(&mut out, "decode_binary_");
            out.append(f.as_str());
            push_literal(&mut out, "(&input).map(Buffer::from).map_err(napi::Error::from_reason),\n");
        },
        BridgeDispatch::Validate => {
            push_literal(&mut out, "validate_borrowed_");
            out.append(f.as_str());
            push_literal(
                &mut out,
                "(&input).map_err(|error| napi::Error::from_reason(format!(\"{error:?}\"))),\n",
            );
        },
        BridgeDispatch::Borrow => {
            push_literal(&mut out, "{ validate_borrowed_");
            out.append(f.as_str());
            push_literal(
                &mut out,
                "(&input).map_err(|error| napi::Error::from_reason(format!(\"{error:?}\")))?; Ok(input) },\n",
            );
        },
    }
    out
}

/// The TypeScript bridge's match arms for `operation`: one for each item
/// of `schema`, in order, keyed by the item's snake-case name.
pub fn dispatch_arms(schema: &Schema, operation: BridgeDispatch) -> (r: String)
    ensures
        r@ == spec_dispatch_arms(schema@, operation),
{
    let ghost parts = schema@.items.map_values(
        |item: ItemModel| spec_dispatch_arm(operation, spec_snake_case(item.name())),
    );
    let mut out = String::new();
    let mut i: usize = 0;
    while i < schema.items.len()
        invariant
            i <= schema.items@.len() == parts.len(),
            parts == schema@.items.map_values(
                |item: ItemModel| spec_dispatch_arm(operation, spec_snake_case(item.name())),
            ),
            out@ == spec_concat(parts.take(i as int)),
        decreases schema.items@.len() - i,
    {
        proof {
            lemma_concat_step(parts, i as int);
            assert(schema@.items[i as int] == schema.items@[i as int]@);
        }
        let f = snake_case(schema.items[i].name().as_str());
        let arm = dispatch_arm(operation, &f);
        out.append(arm.as_str());
        assert(out@ =~= spec_concat(parts.take(i + 1)));
        i = i + 1;
    }
    assert(parts.take(parts.len() as int) =~= parts);
    out
}

/// The lines that register an item's three Python functions.
pub open spec fn spec_python_registration(f: Seq<char>) -> Seq<char> {
    "    module.add_function(wrap_pyfunction!(encode_"@ + f
        + ", module)?)?;\n    module.add_function(wrap_pyfunction!(decode_"@ + f
        + ", module)?)?;\n    module.add_function(wrap_pyfunction!(validate_borrowed_"@ + f
        + ", module)?)?;\n"@
}

/// The body of the Python bridge's registration function: the lines for
/// each item of `schema`, in order.
pub open spec fn spec_python_registrations(schema: SchemaModel) -> Seq<char> {
    spec_concat(
        schema.items.map_values(
            |item: ItemModel| spec_python_registration(spec_snake_case(item.name())),
        ),
    )
}

fn python_registration(f: &String) -> (r: String)
    ensures
        r@ == spec_python_registration(f@),
{
    let mut out = "    module.add_function(wrap_pyfunction!(encode_".to_owned();
    out.append(f.as_str());
    push_literal(&mut out, ", module)?)?;\n    module.add_function(wrap_pyfunction!(decode_");
    out.append(f.as_str());
    push_literal(
        &mut out,
        ", module)?)?;\n    module.add_function(wrap_pyfunction!(validate_borrowed_",
    );
    out.append(f.as_str());
    push_literal(&mut out, ", module)?)?;\n");
    out
}

/// The lines of the Python bridge's registration function, one group for
/// each item of `schema`, in order.
pub fn python_registrations(schema: &Schema) -> (r: String)
    ensures
        r@ == spec_python_registrations(schema@),
{
    let ghost parts = schema@.items.map_values(
        |item: ItemModel| spec_python_registration(spec_snake_case(item.name())),
    );
    let mut out = String::new();
    let mut i: usize = 0;
    while i < schema.items.len()
        invariant
            i <= schema.items@.len() == parts.len(),
            parts == schema@.items.map_values(
                |item: ItemModel| spec_python_registration(spec_snake_case(item.name())),
            ),
            out@ == spec_concat(parts.take(i as int)),
        decreases schema.items@.len() - i,
    {
        proof {
            lemma_concat_step(parts, i as int);
            assert(schema@.items[i as int] == schema.items@[i as int]@);
        }
        let f = snake_case(schema.items[i].name().as_str());
        let lines = python_registration(&f);
        out.append(lines.as_str());
        assert(out@ =~= spec_concat(parts.take(i + 1)));
        i = i + 1;
    }
    assert(parts.take(parts.len() as int) =~= parts);
    out
}

} // verus!
