//! The numbers of the stable C ABI that language bindings build on.

use vstd::prelude::*;

verus! {

/// Stable ABI version exposed to language bindings.
pub const ABI_VERSION: u16 = 1;

/// Returned for a Layer without a compiled backend.
pub const LAYER_UNSUPPORTED: i32 = -1;

/// Returned when the list of Layers is missing.
pub const INVALID_ARGUMENT: i32 = -2;

/// Stable ABI version exposed to language bindings.
pub fn ffi_abi_version() -> (r: u16)
    ensures
        r == ABI_VERSION,
{
    ABI_VERSION
}

/// The C ABI's answer to a request for `requested` when `supported` are the
/// compiled Layers: the Layer itself, or `LAYER_UNSUPPORTED`.
pub fn negotiate_layer(requested: u16, supported: &[u16]) -> (r: i32)
    ensures
        supported@.contains(requested) ==> r == requested as i32,
        !supported@.contains(requested) ==> r == LAYER_UNSUPPORTED,
{
    let mut i: usize = 0;
    while i < supported.len()
        invariant
            i <= supported@.len(),
            forall|j: int| 0 <= j < i ==> supported@[j] != requested,
        decreases supported@.len() - i,
    {
        if supported[i] == requested {
            return requested as i32;
        }
        i = i + 1;
    }
    LAYER_UNSUPPORTED
}

} // verus!
