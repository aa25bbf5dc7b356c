//! The names of the files generated for a schema: each carries the schema's
//! name and its Layer.

use vstd::prelude::*;
use vstd::string::StringExecFns;

use crate::fingerprint::{push_literal, spec_number};
use crate::python::BridgeKind;
use crate::text::{chars_of, push_char};
use crate::typescript_types::number_text;

verus! {

/// `s` without `suffix` at its end, when it ends so.
pub open spec fn spec_strip_suffix(s: Seq<char>, suffix: Seq<char>) -> Seq<char> {
    if suffix.len() <= s.len() && s.subrange(s.len() - suffix.len(), s.len() as int) == suffix {
        s.take(s.len() - suffix.len())
    } else {
        s
    }
}

/// The name a schema's files share: its file name without `.typ`, then
/// without the `-{layer}` it may already end with.
pub open spec fn spec_stem(schema_name: Seq<char>, layer: u16) -> Seq<char> {
    spec_strip_suffix(spec_strip_suffix(schema_name, ".typ"@), "-"@ + spec_number(layer as nat))
}

/// `s` with each `-` made `_`.
pub open spec fn spec_dashes_to_underscores(s: Seq<char>) -> Seq<char> {
    s.map_values(|c: char| if c == '-' { '_' } else { c })
}

fn strip_suffix_text(s: &str, suffix: &str) -> (r: String)
    ensures
        r@ == spec_strip_suffix(s@, suffix@),
{
    let chars = chars_of(s);
    let tail = chars_of(suffix);
    let mut ends = tail.len() <= chars.len();
    if ends {
        let start = chars.len() - tail.len();
        let mut k: usize = 0;
        while k < tail.len()
            invariant
                chars@ == s@,
                tail@ == suffix@,
                tail@.len() <= chars@.len(),
                start + tail@.len() == chars@.len(),
                chars@.len() <= usize::MAX,
                k <= tail@.len(),
                ends == (forall|j: int| 0 <= j < k ==> chars@[start + j] == tail@[j]),
            decreases tail@.len() - k,
        {
            if chars[start + k] != tail[k] {
                ends = false;
            }
            k = k + 1;
        }
        proof {
            if ends {
                assert(s@.subrange(start as int, s@.len() as int) =~= suffix@);
            } else {
                let j = choose|j: int| 0 <= j < tail@.len() && chars@[start + j] != tail@[j];
                assert(s@.subrange(start as int, s@.len() as int)[j] != suffix@[j]);
            }
        }
    }
    let keep = if ends {
        chars.len() - tail.len()
    } else {
        chars.len()
    };
    let mut out = String::new();
    let mut i: usize = 0;
    while i < keep
        invariant
            chars@ == s@,
            keep <= chars@.len(),
            i <= keep,
            out@ == s@.take(i as int),
        decreases keep - i,
    {
        push_char(&mut out, chars[i]);
        assert(s@.take(i + 1) =~= s@.take(i as int).push(chars@[i as int]));
        i = i + 1;
    }
    assert(s@.take(keep as int) =~= spec_strip_suffix(s@, suffix@));
    out
}

fn dashes_to_underscores(s: &String) -> (r: String)
    ensures
        r@ == spec_dashes_to_underscores(s@),
{
    let chars = chars_of(s.as_str());
    let mut out = String::new();
    let mut i: usize = 0;
    while i < chars.len()
        invariant
            chars@ == s@,
            i <= chars@.len(),
            out@ == spec_dashes_to_underscores(s@.take(i as int)),
        decreases chars@.len() - i,
    {
        let c = if chars[i] == '-' {
            '_'
        } else {
            chars[i]
        };
        push_char(&mut out, c);
        assert(spec_dashes_to_underscores(s@.take(i + 1)) =~= spec_dashes_to_underscores(
            s@.take(i as int),
        ).push(c));
        i = i + 1;
    }
    assert(s@.take(chars@.len() as int) =~= s@);
    out
}

fn stem(schema_name: &str, layer: u16) -> (r: String)
    ensures
        r@ == spec_stem(schema_name@, layer),
{
    let bare = strip_suffix_text(schema_name, ".typ");
    let mut suffix = "-".to_owned();
    let digits = number_text(layer as u64);
    suffix.append(digits.as_str());
    strip_suffix_text(bare.as_str(), suffix.as_str())
}

/// The names of the files generated for a schema.
pub struct ArtifactNames {
    pub rust_file_name: String,
    pub public_schema_file_name: String,
    pub bridge_file_names: [String; 3],
    pub bridge_header_name: String,
    pub go_file_name: String,
    pub python_file_name: String,
    pub typescript_file_name: String,
}

/// `stem-layer` followed by `extension`.
pub open spec fn spec_layer_file(stem: Seq<char>, layer: u16, extension: Seq<char>) -> Seq<char> {
    stem + "-"@ + spec_number(layer as nat) + extension
}

fn layer_file(stem: &String, layer: u16, extension: &str) -> (r: String)
    ensures
        r@ == spec_layer_file(stem@, layer, extension@),
{
    let mut out = stem.clone();
    push_literal(&mut out, "-");
    let digits = number_text(layer as u64);
    out.append(digits.as_str());
    out.append(extension);
    out
}

/// The names of the files generated for the schema in the file
/// `schema_name` at `layer`: each is the schema's stem (its name without
/// `.typ` and without a `-{layer}` already there) and the Layer, with the
/// extension of its kind; the Python module writes `_` for `-`, which a
/// module name cannot hold, and the bridges are named by their language.
pub fn artifact_names(schema_name: &str, layer: u16) -> (r: ArtifactNames)
    ensures
        r.rust_file_name@ == spec_layer_file(spec_stem(schema_name@, layer), layer, ".rs"@),
        r.public_schema_file_name@ == spec_layer_file(
            spec_stem(schema_name@, layer),
            layer,
            ".public.typ"@,
        ),
        forall|k: int|
            0 <= k < 3 ==> (#[trigger] r.bridge_file_names[k])@ == BridgeKind::ALL[k].spec_language()
                + "."@ + spec_stem(schema_name@, layer) + "-"@ + spec_number(layer as nat) + ".rs"@,
        r.bridge_header_name@ == spec_layer_file(spec_stem(schema_name@, layer), layer, ".h"@),
        r.go_file_name@ == spec_layer_file(spec_stem(schema_name@, layer), layer, ".go"@),
        r.python_file_name@ == spec_dashes_to_underscores(spec_stem(schema_name@, layer)) + "_"@
            + spec_number(layer as nat) + ".py"@,
        r.typescript_file_name@ == spec_layer_file(spec_stem(schema_name@, layer), layer, ".ts"@),
{
    let stem = stem(schema_name, layer);
    let python = BridgeKind::Python.file_name(stem.as_str(), layer);
    let go = BridgeKind::Go.file_name(stem.as_str(), layer);
    let typescript = BridgeKind::TypeScript.file_name(stem.as_str(), layer);
    let mut python_name = dashes_to_underscores(&stem);
    push_literal(&mut python_name, "_");
    let digits = number_text(layer as u64);
    python_name.append(digits.as_str());
    push_literal(&mut python_name, ".py");
    let r = ArtifactNames {
        rust_file_name: layer_file(&stem, layer, ".rs"),
        public_schema_file_name: layer_file(&stem, layer, ".public.typ"),
        bridge_file_names: [python, go, typescript],
        bridge_header_name: layer_file(&stem, layer, ".h"),
        go_file_name: layer_file(&stem, layer, ".go"),
        python_file_name: python_name,
        typescript_file_name: layer_file(&stem, layer, ".ts"),
    };
    assert(r.bridge_file_names@[0] == python);
    r
}

} // verus!
