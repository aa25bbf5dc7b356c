//! Typikon: a schema language and a typed binary wire format.
//!
//! The crate holds the verified runtime of the wire format (variable-length
//! integers, fixed-width little-endian numbers, length-delimited bytes,
//! collections and constructor framing), the schema parser, the semantic
//! validator, the canonical form that Constructor IDs are hashed from, and
//! Layer negotiation.

pub mod abi;
pub mod adapters;
pub mod artifacts;
pub mod bridge;
pub mod ast;
pub mod borrowed;
pub mod codec;
pub mod compatibility;
pub mod constructor;
pub mod error;
pub mod fingerprint;
pub mod go_binding;
pub mod go_expr;
pub mod go_items;
pub mod go_lazy_enum;
pub mod go_names;
pub mod go_views;
pub mod grammar;
pub mod layer;
pub mod limits;
pub mod parser;
pub mod python;
pub mod rpc;
pub mod sorted_map;
pub mod text;
pub mod typescript;
pub mod typescript_expr;
pub mod typescript_runtime;
pub mod typescript_types;
pub mod validate;
pub mod vectored;
pub mod value;
pub mod wire;

pub use abi::ffi_abi_version;
pub use artifacts::{artifact_names, ArtifactNames};
pub use bridge::{bridge_items, bridge_module, dispatch_arms, python_registrations, BridgeDispatch};
pub use ast::{Alias, Enum, EnumVariant, Field, Flags, FlagsBit, Function, Item, Schema, Struct, Type};
pub use borrowed::{BorrowedMap, BorrowedMapIter, BorrowedVec, BorrowedVecIter, BorrowedWireCodec};
pub use codec::{
    decode_borrowed_value, decode_borrowed_value_with_limits, decode_value, encode_value,
    TypikonCodec, DEFAULT_MAX_PACKET_SIZE,
};
pub use compatibility::{is_backward_compatible, CompatibilityError};
pub use constructor::{
    cid_bytes, constructor_cid, ConstructorDecoder, ConstructorEncoder, CID_BYTES,
};
pub use error::ParseError;
pub use fingerprint::{canonical_form, constructor_cid as struct_constructor_cid, variant_cid};
pub use parser::parse_schema;
pub use layer::{LayerSupport, LayerVersionNotSupported};
pub use limits::{
    DecodeLimits, MAX_BYTES_FIELD_SIZE, MAX_COLLECTION_ITEMS, MAX_NESTING_DEPTH, MAX_PACKET_SIZE,
};
pub use python::{generate_python_binding, BridgeKind};
pub use rpc::{RpcClient, RpcError};
pub use sorted_map::WireKey;
pub use typescript::{generate_typescript_binding, typescript_binding_ready};
pub use go_binding::{generate_c_prototypes, generate_go_declarations, go_declarations_ready};
pub use validate::validate;
pub use vectored::VectoredWrite;
pub use value::WireCodec;
pub use wire::{varint_len, Decoder, Encoder, WireError};
