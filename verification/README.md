# typikon

A schema compiler and runtime for the Typikon binary wire format, written in
Verus. A `.typ` schema declares structs, enums, flags and aliases; the library
parses and validates it, computes each struct's and variant's Constructor ID
(C-ID), checks that one Layer can replace another, encodes and decodes values on
the wire, and writes the Go, TypeScript and Python adapters.

## Layout

- `src/` — the verified library.
  - `grammar.rs`, `parser.rs`, `validate.rs`, `ast.rs`, `error.rs`: the schema
    language, its parser and its semantic rules.
  - `fingerprint.rs`, `constructor.rs`: canonical forms and C-IDs (BLAKE3 of the
    canonical form), and the codec of a C-ID on the wire.
  - `compatibility.rs`, `layer.rs`, `abi.rs`: Layer compatibility and
    negotiation.
  - `wire.rs`, `value.rs`, `sorted_map.rs`, `borrowed.rs`, `codec.rs`,
    `limits.rs`, `vectored.rs`, `rpc.rs`: the wire format, owned and borrowed
    decoding, packets, and the framing of RPC calls.
  - `typescript*.rs`, `go_*.rs`, `python.rs`, `adapters.rs`: the language
    adapters and what they share.
  - `artifacts.rs`, `bridge.rs`: the names of the files generated for a
    schema, and the per-item parts of the native bridge sources.
- `tests/` — tests run against the compiled library.
- `app/` — the `typikon` command, the C ABI, the asynchronous RPC client,
  vectored writes, floating-point fields, and the parts of generated sources
  that are preprocessor lines.

Every function in `src/` carries a contract that Verus proves; the trusted
items (calls into std and into `blake3`) are marked `external_body` and state
in their doc comments what they assume.
