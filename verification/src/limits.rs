use vstd::prelude::*;

verus! {

/// Largest packet that the runtime encodes or decodes.
pub const MAX_PACKET_SIZE: usize = 4194304;

/// Largest element count of a decoded collection.
pub const MAX_COLLECTION_ITEMS: usize = 1000000;

/// Largest length-delimited byte or string field.
pub const MAX_BYTES_FIELD_SIZE: usize = 4194304;

/// Deepest type nesting that the schema parser accepts.
pub const MAX_NESTING_DEPTH: usize = 100;

/// Independent limits that a decoder enforces.
#[derive(Debug, Clone, Copy, PartialEq, Eq, Structural)]
pub struct DecodeLimits {
    pub max_packet_size: usize,
    pub max_collection_items: usize,
    pub max_bytes_field_size: usize,
}

impl Default for DecodeLimits {
    fn default() -> (r: Self)
        ensures
            r.max_packet_size == MAX_PACKET_SIZE,
            r.max_collection_items == MAX_COLLECTION_ITEMS,
            r.max_bytes_field_size == MAX_BYTES_FIELD_SIZE,
    {
        DecodeLimits {
            max_packet_size: MAX_PACKET_SIZE,
            max_collection_items: MAX_COLLECTION_ITEMS,
            max_bytes_field_size: MAX_BYTES_FIELD_SIZE,
        }
    }
}

} // verus!
