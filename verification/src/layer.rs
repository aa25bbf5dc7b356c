//! Layer negotiation: a peer may only use a Layer that has a compiled backend.

use vstd::prelude::*;

use std::collections::BTreeSet;

verus! {

/// The Layers that have a compiled backend.
#[derive(Debug, Clone, PartialEq, Eq)]
pub struct LayerSupport {
    supported: BTreeSet<u16>,
}

/// A peer asked for a Layer without a compiled backend.
#[derive(Debug, Clone, PartialEq, Eq, Structural)]
pub struct LayerVersionNotSupported {
    pub requested: u16,
}

impl View for LayerSupport {
    type V = Set<u16>;

    closed spec fn view(&self) -> Set<u16> {
        self.supported@
    }
}

/// The answer to a request for `requested` when the supported Layers are
/// `supported`: the Layer itself, or the refusal naming it.
pub open spec fn spec_negotiate(supported: Set<u16>, requested: u16) -> Result<
    u16,
    LayerVersionNotSupported,
> {
    if supported.contains(requested) {
        Ok(requested)
    } else {
        Err(LayerVersionNotSupported { requested })
    }
}

impl LayerSupport {
    /// Supports exactly the given Layers.
    pub fn new<const N: usize>(layers: [u16; N]) -> (r: Self)
        ensures
            r@ == layers@.to_set(),
    {
        let mut supported: BTreeSet<u16> = BTreeSet::new();
        let mut i: usize = 0;
        while i < N
            invariant
                i <= N,
                supported@ == layers@.take(i as int).to_set(),
            decreases N - i,
        {
            supported.insert(layers[i]);
            proof {
                assert(layers@.take(i + 1) =~= layers@.take(i as int).push(layers@[i as int]));
                layers@.take(i as int).lemma_push_to_set_commute(layers@[i as int]);
            }
            i = i + 1;
        }
        assert(layers@.take(N as int) =~= layers@);
        LayerSupport { supported }
    }

    pub fn supports(&self, layer: u16) -> (r: bool)
        ensures
            r == self@.contains(layer),
    {
        self.supported.contains(&layer)
    }

    /// Accepts the requested Layer when it has a compiled backend; there is no
    /// fallback to another Layer.
    pub fn negotiate(&self, requested: u16) -> (r: Result<u16, LayerVersionNotSupported>)
        ensures
            r == spec_negotiate(self@, requested),
    {
        if self.supports(requested) {
            Ok(requested)
        } else {
            Err(LayerVersionNotSupported { requested })
        }
    }
}

/// A Layer is accepted exactly when it was one of the Layers the support was
/// built from, and an accepted Layer is the one that was asked for.
pub proof fn lemma_negotiate_only_compiled_layers(layers: Seq<u16>, requested: u16)
    ensures
        spec_negotiate(layers.to_set(), requested) is Ok <==> layers.contains(requested),
        spec_negotiate(layers.to_set(), requested) matches Ok(l) ==> l == requested,
{
    assert(layers.to_set().contains(requested) == layers.contains(requested));
}

} // verus!
