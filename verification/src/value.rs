//! Values that know their own wire encoding.

use vstd::prelude::*;

use crate::limits::DecodeLimits;
use crate::wire::{
    lemma_appended_is_encoded, lemma_byte_extends, lemma_count_extends, lemma_fixed_extends,
    lemma_string_field_extends, lemma_take_extends, lemma_le_len, lemma_le_round_trip, lemma_pow256_values,
    lemma_pushed_is_encoded, lemma_varint_round_trip, lemma_varint_shape, pow256, spec_byte,
    spec_encoded, spec_field, spec_fixed, spec_le, spec_count, spec_string_field, spec_take,
    spec_varint, varint_len, Decoder, Encoder, WireError,
};
use vstd::utf8::{encode_utf8};

verus! {

/// `n`, or `usize::MAX` when `n` does not fit.
pub open spec fn spec_saturate(n: nat) -> usize {
    if n > usize::MAX {
        usize::MAX
    } else {
        n as usize
    }
}

/// A value with a wire encoding.
///
/// `spec_wire` is what `encode` appends, `spec_decode` is what `decode`
/// reads (on the value's deep view), and `lemma_round_trip` says that reading
/// the encoding of a value that respects the limits gives the value back.
pub trait WireCodec: Sized + DeepView {
    /// The encoding of the value.
    spec fn spec_wire(&self) -> Seq<u8>;

    /// The length of every encoding, for types whose encodings all have one.
    spec fn spec_fixed_len() -> Option<nat>;

    /// Decoding a value at `pos` of `input` under `limits`: its deep view and
    /// the number of bytes it takes, or the error.
    spec fn spec_decode(input: Seq<u8>, pos: nat, limits: DecodeLimits) -> Result<
        (Self::V, nat),
        WireError,
    >;

    /// The value's length-delimited parts and collections fit `limits`.
    spec fn spec_within(&self, limits: DecodeLimits) -> bool;

    fn fixed_encoded_len() -> (r: Option<usize>)
        ensures
            match Self::spec_fixed_len() {
                Some(n) => r == Some(n as usize) && n <= usize::MAX,
                None => r is None,
            },
    ;

    proof fn lemma_fixed_len(&self)
        ensures
            Self::spec_fixed_len() matches Some(n) ==> self.spec_wire().len() == n,
    ;

    fn encode(&self, encoder: &mut Encoder) -> (r: Result<(), WireError>)
        ensures
            final(encoder).max_size() == old(encoder).max_size(),
            spec_encoded(
                old(encoder)@,
                old(encoder).max_size(),
                self.spec_wire(),
                r,
                final(encoder)@,
            ),
    ;

    fn decode(decoder: &mut Decoder<'_>) -> (r: Result<Self, WireError>)
        requires
            old(decoder).wf(),
        ensures
            final(decoder).same_packet(old(decoder)),
            match Self::spec_decode(old(decoder).input(), old(decoder).pos(), old(decoder).limits()) {
                Ok((v, n)) => (r matches Ok(x) && x.deep_view() == v) && final(decoder).advanced(
                    old(decoder),
                    n,
                ),
                Err(e) => r matches Err(e2) && e2 == e,
            },
    ;

    /// The length of the encoding, or `usize::MAX` when it does not fit.
    fn encoded_len(&self) -> (r: usize)
        ensures
            r == spec_saturate(self.spec_wire().len()),
    ;

    /// Decoding the encoding of a value, wherever it stands in a packet,
    /// gives the value back and consumes exactly the encoding.
    proof fn lemma_round_trip(&self, prefix: Seq<u8>, rest: Seq<u8>, limits: DecodeLimits)
        requires
            self.spec_within(limits),
            prefix.len() + self.spec_wire().len() + rest.len() <= usize::MAX,
        ensures
            Self::spec_decode(prefix + self.spec_wire() + rest, prefix.len(), limits) == Ok::<
                (Self::V, nat),
                WireError,
            >((self.deep_view(), self.spec_wire().len())),
    ;

    /// A value read from `input` reads the same from `input` followed by
    /// anything: reading it looks at no byte past those it takes, and those
    /// lie within `input`.
    proof fn lemma_decode_extends(input: Seq<u8>, more: Seq<u8>, pos: nat, limits: DecodeLimits)
        requires
            pos <= input.len(),
            Self::spec_decode(input, pos, limits) is Ok,
        ensures
            Self::spec_decode(input + more, pos, limits) == Self::spec_decode(input, pos, limits),
            Self::spec_decode(input, pos, limits) matches Ok((_, n)) && pos + n <= input.len(),
    ;
}

/// Reading back `w` bytes of a number below `256^w`, wherever they stand.
pub proof fn lemma_fixed_round_trip(prefix: Seq<u8>, x: nat, w: nat, rest: Seq<u8>)
    requires
        x < pow256(w),
        prefix.len() + w + rest.len() <= usize::MAX,
    ensures
        spec_fixed(prefix + spec_le(x, w) + rest, prefix.len(), w) == Ok::<nat, WireError>(x),
{
    lemma_le_round_trip(x, w);
    let input = prefix + spec_le(x, w) + rest;
    assert(input.subrange(prefix.len() as int, (prefix.len() + w) as int) =~= spec_le(x, w));
}

/// Reading back one byte, wherever it stands.
pub proof fn lemma_byte_round_trip(prefix: Seq<u8>, b: u8, rest: Seq<u8>)
    ensures
        spec_byte(prefix + seq![b] + rest, prefix.len()) == Ok::<u8, WireError>(b),
{
    assert((prefix + seq![b] + rest)[prefix.len() as int] == b);
}

impl WireCodec for u8 {
    open spec fn spec_wire(&self) -> Seq<u8> {
        seq![*self]
    }

    open spec fn spec_fixed_len() -> Option<nat> {
        Some(1)
    }

    open spec fn spec_decode(input: Seq<u8>, pos: nat, limits: DecodeLimits) -> Result<
        (u8, nat),
        WireError,
    > {
        match spec_byte(input, pos) {
            Ok(b) => Ok((b, 1)),
            Err(e) => Err(e),
        }
    }

    open spec fn spec_within(&self, limits: DecodeLimits) -> bool {
        true
    }

    fn fixed_encoded_len() -> (r: Option<usize>) {
        Some(1)
    }

    proof fn lemma_fixed_len(&self) {
    }

    fn encode(&self, encoder: &mut Encoder) -> (r: Result<(), WireError>) {
        let r = encoder.u8(*self);
        proof {
            lemma_pushed_is_encoded(old(encoder)@, old(encoder).max_size(), *self, r, encoder@);
        }
        r
    }

    fn decode(decoder: &mut Decoder<'_>) -> (r: Result<Self, WireError>) {
        decoder.u8()
    }

    fn encoded_len(&self) -> (r: usize) {
        1
    }

    proof fn lemma_decode_extends(input: Seq<u8>, more: Seq<u8>, pos: nat, limits: DecodeLimits) {
        lemma_byte_extends(input, more, pos);
    }

    proof fn lemma_round_trip(&self, prefix: Seq<u8>, rest: Seq<u8>, limits: DecodeLimits) {
        lemma_byte_round_trip(prefix, *self, rest);
    }
}

impl WireCodec for i8 {
    open spec fn spec_wire(&self) -> Seq<u8> {
        seq![*self as u8]
    }

    open spec fn spec_fixed_len() -> Option<nat> {
        Some(1)
    }

    open spec fn spec_decode(input: Seq<u8>, pos: nat, limits: DecodeLimits) -> Result<
        (i8, nat),
        WireError,
    > {
        match spec_byte(input, pos) {
            Ok(b) => Ok((b as i8, 1)),
            Err(e) => Err(e),
        }
    }

    open spec fn spec_within(&self, limits: DecodeLimits) -> bool {
        true
    }

    fn fixed_encoded_len() -> (r: Option<usize>) {
        Some(1)
    }

    proof fn lemma_fixed_len(&self) {
    }

    fn encode(&self, encoder: &mut Encoder) -> (r: Result<(), WireError>) {
        let r = encoder.i8(*self);
        proof {
            lemma_pushed_is_encoded(
                old(encoder)@,
                old(encoder).max_size(),
                *self as u8,
                r,
                encoder@,
            );
        }
        r
    }

    fn decode(decoder: &mut Decoder<'_>) -> (r: Result<Self, WireError>) {
        decoder.i8()
    }

    fn encoded_len(&self) -> (r: usize) {
        1
    }

    proof fn lemma_decode_extends(input: Seq<u8>, more: Seq<u8>, pos: nat, limits: DecodeLimits) {
        lemma_byte_extends(input, more, pos);
    }

    proof fn lemma_round_trip(&self, prefix: Seq<u8>, rest: Seq<u8>, limits: DecodeLimits) {
        let x = *self;
        lemma_byte_round_trip(prefix, x as u8, rest);
        assert(((x as u8) as i8) == x) by (bit_vector);
    }
}

impl WireCodec for bool {
    open spec fn spec_wire(&self) -> Seq<u8> {
        seq![
            if *self {
                1u8
            } else {
                0u8
            },
        ]
    }

    open spec fn spec_fixed_len() -> Option<nat> {
        Some(1)
    }

    open spec fn spec_decode(input: Seq<u8>, pos: nat, limits: DecodeLimits) -> Result<
        (bool, nat),
        WireError,
    > {
        match spec_byte(input, pos) {
            Ok(b) => if b == 0 {
                Ok((false, 1))
            } else if b == 1 {
                Ok((true, 1))
            } else {
                Err(WireError::MalformedConstructor)
            },
            Err(e) => Err(e),
        }
    }

    open spec fn spec_within(&self, limits: DecodeLimits) -> bool {
        true
    }

    fn fixed_encoded_len() -> (r: Option<usize>) {
        Some(1)
    }

    proof fn lemma_fixed_len(&self) {
    }

    fn encode(&self, encoder: &mut Encoder) -> (r: Result<(), WireError>) {
        let r = encoder.bool(*self);
        proof {
            lemma_pushed_is_encoded(
                old(encoder)@,
                old(encoder).max_size(),
                if *self {
                    1u8
                } else {
                    0u8
                },
                r,
                encoder@,
            );
        }
        r
    }

    fn decode(decoder: &mut Decoder<'_>) -> (r: Result<Self, WireError>) {
        decoder.bool()
    }

    fn encoded_len(&self) -> (r: usize) {
        1
    }

    proof fn lemma_decode_extends(input: Seq<u8>, more: Seq<u8>, pos: nat, limits: DecodeLimits) {
        lemma_byte_extends(input, more, pos);
    }

    proof fn lemma_round_trip(&self, prefix: Seq<u8>, rest: Seq<u8>, limits: DecodeLimits) {
        lemma_byte_round_trip(
            prefix,
            if *self {
                1u8
            } else {
                0u8
            },
            rest,
        );
    }
}

impl WireCodec for u16 {
    open spec fn spec_wire(&self) -> Seq<u8> {
        spec_le(*self as nat, 2)
    }

    open spec fn spec_fixed_len() -> Option<nat> {
        Some(2)
    }

    open spec fn spec_decode(input: Seq<u8>, pos: nat, limits: DecodeLimits) -> Result<
        (u16, nat),
        WireError,
    > {
        match spec_fixed(input, pos, 2) {
            Ok(v) => Ok((v as u16, 2)),
            Err(e) => Err(e),
        }
    }

    open spec fn spec_within(&self, limits: DecodeLimits) -> bool {
        true
    }

    fn fixed_encoded_len() -> (r: Option<usize>) {
        Some(2)
    }

    proof fn lemma_fixed_len(&self) {
        lemma_le_len(*self as nat, 2);
    }

    fn encode(&self, encoder: &mut Encoder) -> (r: Result<(), WireError>) {
        let r = encoder.u16(*self);
        proof {
            old(encoder).lemma_max_size_fits();
            lemma_appended_is_encoded(
                old(encoder)@,
                old(encoder).max_size(),
                self.spec_wire(),
                r,
                encoder@,
            );
        }
        r
    }

    fn decode(decoder: &mut Decoder<'_>) -> (r: Result<Self, WireError>) {
        decoder.u16()
    }

    fn encoded_len(&self) -> (r: usize) {
        proof {
            lemma_le_len(*self as nat, 2);
        }
        2
    }

    proof fn lemma_decode_extends(input: Seq<u8>, more: Seq<u8>, pos: nat, limits: DecodeLimits) {
        lemma_fixed_extends(input, more, pos, 2);
    }

    proof fn lemma_round_trip(&self, prefix: Seq<u8>, rest: Seq<u8>, limits: DecodeLimits) {
        lemma_pow256_values();
        lemma_le_len(*self as nat, 2);
        lemma_fixed_round_trip(prefix, *self as nat, 2, rest);
    }
}

impl WireCodec for u32 {
    open spec fn spec_wire(&self) -> Seq<u8> {
        spec_le(*self as nat, 4)
    }

    open spec fn spec_fixed_len() -> Option<nat> {
        Some(4)
    }

    open spec fn spec_decode(input: Seq<u8>, pos: nat, limits: DecodeLimits) -> Result<
        (u32, nat),
        WireError,
    > {
        match spec_fixed(input, pos, 4) {
            Ok(v) => Ok((v as u32, 4)),
            Err(e) => Err(e),
        }
    }

    open spec fn spec_within(&self, limits: DecodeLimits) -> bool {
        true
    }

    fn fixed_encoded_len() -> (r: Option<usize>) {
        Some(4)
    }

    proof fn lemma_fixed_len(&self) {
        lemma_le_len(*self as nat, 4);
    }

    fn encode(&self, encoder: &mut Encoder) -> (r: Result<(), WireError>) {
        let r = encoder.u32(*self);
        proof {
            old(encoder).lemma_max_size_fits();
            lemma_appended_is_encoded(
                old(encoder)@,
                old(encoder).max_size(),
                self.spec_wire(),
                r,
                encoder@,
            );
        }
        r
    }

    fn decode(decoder: &mut Decoder<'_>) -> (r: Result<Self, WireError>) {
        decoder.u32()
    }

    fn encoded_len(&self) -> (r: usize) {
        proof {
            lemma_le_len(*self as nat, 4);
        }
        4
    }

    proof fn lemma_decode_extends(input: Seq<u8>, more: Seq<u8>, pos: nat, limits: DecodeLimits) {
        lemma_fixed_extends(input, more, pos, 4);
    }

    proof fn lemma_round_trip(&self, prefix: Seq<u8>, rest: Seq<u8>, limits: DecodeLimits) {
        lemma_pow256_values();
        lemma_le_len(*self as nat, 4);
        lemma_fixed_round_trip(prefix, *self as nat, 4, rest);
    }
}

impl WireCodec for u64 {
    open spec fn spec_wire(&self) -> Seq<u8> {
        spec_le(*self as nat, 8)
    }

    open spec fn spec_fixed_len() -> Option<nat> {
        Some(8)
    }

    open spec fn spec_decode(input: Seq<u8>, pos: nat, limits: DecodeLimits) -> Result<
        (u64, nat),
        WireError,
    > {
        match spec_fixed(input, pos, 8) {
            Ok(v) => Ok((v as u64, 8)),
            Err(e) => Err(e),
        }
    }

    open spec fn spec_within(&self, limits: DecodeLimits) -> bool {
        true
    }

    fn fixed_encoded_len() -> (r: Option<usize>) {
        Some(8)
    }

    proof fn lemma_fixed_len(&self) {
        lemma_le_len(*self as nat, 8);
    }

    fn encode(&self, encoder: &mut Encoder) -> (r: Result<(), WireError>) {
        let r = encoder.u64(*self);
        proof {
            old(encoder).lemma_max_size_fits();
            lemma_appended_is_encoded(
                old(encoder)@,
                old(encoder).max_size(),
                self.spec_wire(),
                r,
                encoder@,
            );
        }
        r
    }

    fn decode(decoder: &mut Decoder<'_>) -> (r: Result<Self, WireError>) {
        decoder.u64()
    }

    fn encoded_len(&self) -> (r: usize) {
        proof {
            lemma_le_len(*self as nat, 8);
        }
        8
    }

    proof fn lemma_decode_extends(input: Seq<u8>, more: Seq<u8>, pos: nat, limits: DecodeLimits) {
        lemma_fixed_extends(input, more, pos, 8);
    }

    proof fn lemma_round_trip(&self, prefix: Seq<u8>, rest: Seq<u8>, limits: DecodeLimits) {
        lemma_pow256_values();
        lemma_le_len(*self as nat, 8);
        lemma_fixed_round_trip(prefix, *self as nat, 8, rest);
    }
}

impl WireCodec for u128 {
    open spec fn spec_wire(&self) -> Seq<u8> {
        spec_le(*self as nat, 16)
    }

    open spec fn spec_fixed_len() -> Option<nat> {
        Some(16)
    }

    open spec fn spec_decode(input: Seq<u8>, pos: nat, limits: DecodeLimits) -> Result<
        (u128, nat),
        WireError,
    > {
        match spec_fixed(input, pos, 16) {
            Ok(v) => Ok((v as u128, 16)),
            Err(e) => Err(e),
        }
    }

    open spec fn spec_within(&self, limits: DecodeLimits) -> bool {
        true
    }

    fn fixed_encoded_len() -> (r: Option<usize>) {
        Some(16)
    }

    proof fn lemma_fixed_len(&self) {
        lemma_le_len(*self as nat, 16);
    }

    fn encode(&self, encoder: &mut Encoder) -> (r: Result<(), WireError>) {
        let r = encoder.u128(*self);
        proof {
            old(encoder).lemma_max_size_fits();
            lemma_appended_is_encoded(
                old(encoder)@,
                old(encoder).max_size(),
                self.spec_wire(),
                r,
                encoder@,
            );
        }
        r
    }

    fn decode(decoder: &mut Decoder<'_>) -> (r: Result<Self, WireError>) {
        decoder.u128()
    }

    fn encoded_len(&self) -> (r: usize) {
        proof {
            lemma_le_len(*self as nat, 16);
        }
        16
    }

    proof fn lemma_decode_extends(input: Seq<u8>, more: Seq<u8>, pos: nat, limits: DecodeLimits) {
        lemma_fixed_extends(input, more, pos, 16);
    }

    proof fn lemma_round_trip(&self, prefix: Seq<u8>, rest: Seq<u8>, limits: DecodeLimits) {
        lemma_pow256_values();
        lemma_le_len(*self as nat, 16);
        lemma_fixed_round_trip(prefix, *self as nat, 16, rest);
    }
}

impl WireCodec for i16 {
    open spec fn spec_wire(&self) -> Seq<u8> {
        spec_le((*self as u16) as nat, 2)
    }

    open spec fn spec_fixed_len() -> Option<nat> {
        Some(2)
    }

    open spec fn spec_decode(input: Seq<u8>, pos: nat, limits: DecodeLimits) -> Result<
        (i16, nat),
        WireError,
    > {
        match spec_fixed(input, pos, 2) {
            Ok(v) => Ok(((v as u16) as i16, 2)),
            Err(e) => Err(e),
        }
    }

    open spec fn spec_within(&self, limits: DecodeLimits) -> bool {
        true
    }

    fn fixed_encoded_len() -> (r: Option<usize>) {
        Some(2)
    }

    proof fn lemma_fixed_len(&self) {
        lemma_le_len((*self as u16) as nat, 2);
    }

    fn encode(&self, encoder: &mut Encoder) -> (r: Result<(), WireError>) {
        let r = encoder.i16(*self);
        proof {
            old(encoder).lemma_max_size_fits();
            lemma_appended_is_encoded(
                old(encoder)@,
                old(encoder).max_size(),
                self.spec_wire(),
                r,
                encoder@,
            );
        }
        r
    }

    fn decode(decoder: &mut Decoder<'_>) -> (r: Result<Self, WireError>) {
        decoder.i16()
    }

    fn encoded_len(&self) -> (r: usize) {
        proof {
            lemma_le_len((*self as u16) as nat, 2);
        }
        2
    }

    proof fn lemma_decode_extends(input: Seq<u8>, more: Seq<u8>, pos: nat, limits: DecodeLimits) {
        lemma_fixed_extends(input, more, pos, 2);
    }

    proof fn lemma_round_trip(&self, prefix: Seq<u8>, rest: Seq<u8>, limits: DecodeLimits) {
        let x = *self;
        lemma_pow256_values();
        lemma_le_len((x as u16) as nat, 2);
        lemma_fixed_round_trip(prefix, (x as u16) as nat, 2, rest);
        assert(((x as u16) as i16) == x) by (bit_vector);
    }
}

impl WireCodec for i32 {
    open spec fn spec_wire(&self) -> Seq<u8> {
        spec_le((*self as u32) as nat, 4)
    }

    open spec fn spec_fixed_len() -> Option<nat> {
        Some(4)
    }

    open spec fn spec_decode(input: Seq<u8>, pos: nat, limits: DecodeLimits) -> Result<
        (i32, nat),
        WireError,
    > {
        match spec_fixed(input, pos, 4) {
            Ok(v) => Ok(((v as u32) as i32, 4)),
            Err(e) => Err(e),
        }
    }

    open spec fn spec_within(&self, limits: DecodeLimits) -> bool {
        true
    }

    fn fixed_encoded_len() -> (r: Option<usize>) {
        Some(4)
    }

    proof fn lemma_fixed_len(&self) {
        lemma_le_len((*self as u32) as nat, 4);
    }

    fn encode(&self, encoder: &mut Encoder) -> (r: Result<(), WireError>) {
        let r = encoder.i32(*self);
        proof {
            old(encoder).lemma_max_size_fits();
            lemma_appended_is_encoded(
                old(encoder)@,
                old(encoder).max_size(),
                self.spec_wire(),
                r,
                encoder@,
            );
        }
        r
    }

    fn decode(decoder: &mut Decoder<'_>) -> (r: Result<Self, WireError>) {
        decoder.i32()
    }

    fn encoded_len(&self) -> (r: usize) {
        proof {
            lemma_le_len((*self as u32) as nat, 4);
        }
        4
    }

    proof fn lemma_decode_extends(input: Seq<u8>, more: Seq<u8>, pos: nat, limits: DecodeLimits) {
        lemma_fixed_extends(input, more, pos, 4);
    }

    proof fn lemma_round_trip(&self, prefix: Seq<u8>, rest: Seq<u8>, limits: DecodeLimits) {
        let x = *self;
        lemma_pow256_values();
        lemma_le_len((x as u32) as nat, 4);
        lemma_fixed_round_trip(prefix, (x as u32) as nat, 4, rest);
        assert(((x as u32) as i32) == x) by (bit_vector);
    }
}

impl WireCodec for i64 {
    open spec fn spec_wire(&self) -> Seq<u8> {
        spec_le((*self as u64) as nat, 8)
    }

    open spec fn spec_fixed_len() -> Option<nat> {
        Some(8)
    }

    open spec fn spec_decode(input: Seq<u8>, pos: nat, limits: DecodeLimits) -> Result<
        (i64, nat),
        WireError,
    > {
        match spec_fixed(input, pos, 8) {
            Ok(v) => Ok(((v as u64) as i64, 8)),
            Err(e) => Err(e),
        }
    }

    open spec fn spec_within(&self, limits: DecodeLimits) -> bool {
        true
    }

    fn fixed_encoded_len() -> (r: Option<usize>) {
        Some(8)
    }

    proof fn lemma_fixed_len(&self) {
        lemma_le_len((*self as u64) as nat, 8);
    }

    fn encode(&self, encoder: &mut Encoder) -> (r: Result<(), WireError>) {
        let r = encoder.i64(*self);
        proof {
            old(encoder).lemma_max_size_fits();
            lemma_appended_is_encoded(
                old(encoder)@,
                old(encoder).max_size(),
                self.spec_wire(),
                r,
                encoder@,
            );
        }
        r
    }

    fn decode(decoder: &mut Decoder<'_>) -> (r: Result<Self, WireError>) {
        decoder.i64()
    }

    fn encoded_len(&self) -> (r: usize) {
        proof {
            lemma_le_len((*self as u64) as nat, 8);
        }
        8
    }

    proof fn lemma_decode_extends(input: Seq<u8>, more: Seq<u8>, pos: nat, limits: DecodeLimits) {
        lemma_fixed_extends(input, more, pos, 8);
    }

    proof fn lemma_round_trip(&self, prefix: Seq<u8>, rest: Seq<u8>, limits: DecodeLimits) {
        let x = *self;
        lemma_pow256_values();
        lemma_le_len((x as u64) as nat, 8);
        lemma_fixed_round_trip(prefix, (x as u64) as nat, 8, rest);
        assert(((x as u64) as i64) == x) by (bit_vector);
    }
}

impl WireCodec for i128 {
    open spec fn spec_wire(&self) -> Seq<u8> {
        spec_le((*self as u128) as nat, 16)
    }

    open spec fn spec_fixed_len() -> Option<nat> {
        Some(16)
    }

    open spec fn spec_decode(input: Seq<u8>, pos: nat, limits: DecodeLimits) -> Result<
        (i128, nat),
        WireError,
    > {
        match spec_fixed(input, pos, 16) {
            Ok(v) => Ok(((v as u128) as i128, 16)),
            Err(e) => Err(e),
        }
    }

    open spec fn spec_within(&self, limits: DecodeLimits) -> bool {
        true
    }

    fn fixed_encoded_len() -> (r: Option<usize>) {
        Some(16)
    }

    proof fn lemma_fixed_len(&self) {
        lemma_le_len((*self as u128) as nat, 16);
    }

    fn encode(&self, encoder: &mut Encoder) -> (r: Result<(), WireError>) {
        let r = encoder.i128(*self);
        proof {
            old(encoder).lemma_max_size_fits();
            lemma_appended_is_encoded(
                old(encoder)@,
                old(encoder).max_size(),
                self.spec_wire(),
                r,
                encoder@,
            );
        }
        r
    }

    fn decode(decoder: &mut Decoder<'_>) -> (r: Result<Self, WireError>) {
        decoder.i128()
    }

    fn encoded_len(&self) -> (r: usize) {
        proof {
            lemma_le_len((*self as u128) as nat, 16);
        }
        16
    }

    proof fn lemma_decode_extends(input: Seq<u8>, more: Seq<u8>, pos: nat, limits: DecodeLimits) {
        lemma_fixed_extends(input, more, pos, 16);
    }

    proof fn lemma_round_trip(&self, prefix: Seq<u8>, rest: Seq<u8>, limits: DecodeLimits) {
        let x = *self;
        lemma_pow256_values();
        lemma_le_len((x as u128) as nat, 16);
        lemma_fixed_round_trip(prefix, (x as u128) as nat, 16, rest);
        assert(((x as u128) as i128) == x) by (bit_vector);
    }
}

/// Appending `a` and then `b` is appending `a + b`.
pub proof fn lemma_encoded_concat(
    before: Seq<u8>,
    max: nat,
    a: Seq<u8>,
    b: Seq<u8>,
    r: Result<(), WireError>,
    after: Seq<u8>,
)
    requires
        spec_encoded(before + a, max, b, r, after),
    ensures
        spec_encoded(before, max, a + b, r, after),
{
    assert(before + a + b =~= before + (a + b));
}

/// A failed append of `a` is a failed append of anything that starts with `a`.
pub proof fn lemma_encoded_extend(
    before: Seq<u8>,
    max: nat,
    a: Seq<u8>,
    b: Seq<u8>,
    r: Result<(), WireError>,
    after: Seq<u8>,
)
    requires
        spec_encoded(before, max, a, r, after),
        r is Err,
    ensures
        spec_encoded(before, max, a + b, r, after),
{
    assert((before + (a + b)).take(after.len() as int) =~= (before + a).take(after.len() as int));
}

/// Reading back a length-delimited field, wherever it stands.
pub proof fn lemma_field_round_trip(
    prefix: Seq<u8>,
    b: Seq<u8>,
    rest: Seq<u8>,
    limits: DecodeLimits,
)
    requires
        b.len() <= limits.max_bytes_field_size,
        prefix.len() + spec_varint(b.len()).len() + b.len() + rest.len() <= usize::MAX,
    ensures
        spec_field(prefix + (spec_varint(b.len()) + b) + rest, prefix.len(), limits) == Ok::<
            (Seq<u8>, nat),
            WireError,
        >((b, spec_varint(b.len()).len() + b.len())),
{
    let input = prefix + (spec_varint(b.len()) + b) + rest;
    let n = spec_varint(b.len()).len();
    assert(input.skip(prefix.len() as int) =~= spec_varint((b.len() as u64) as nat) + (b + rest));
    lemma_varint_round_trip(b.len() as u64, b + rest);
    assert(input.subrange((prefix.len() + n) as int, (prefix.len() + n + b.len()) as int) =~= b);
}

impl WireCodec for String {
    open spec fn spec_wire(&self) -> Seq<u8> {
        spec_varint(encode_utf8(self@).len()) + encode_utf8(self@)
    }

    open spec fn spec_fixed_len() -> Option<nat> {
        None
    }

    open spec fn spec_decode(input: Seq<u8>, pos: nat, limits: DecodeLimits) -> Result<
        (Seq<char>, nat),
        WireError,
    > {
        spec_string_field(input, pos, limits)
    }

    open spec fn spec_within(&self, limits: DecodeLimits) -> bool {
        encode_utf8(self@).len() <= limits.max_bytes_field_size
    }

    fn fixed_encoded_len() -> (r: Option<usize>) {
        None
    }

    proof fn lemma_fixed_len(&self) {
    }

    fn encode(&self, encoder: &mut Encoder) -> (r: Result<(), WireError>) {
        let bytes = self.as_str().as_bytes();
        let r = encoder.bytes(bytes);
        proof {
            old(encoder).lemma_max_size_fits();
            lemma_appended_is_encoded(
                old(encoder)@,
                old(encoder).max_size(),
                self.spec_wire(),
                r,
                encoder@,
            );
        }
        r
    }

    fn decode(decoder: &mut Decoder<'_>) -> (r: Result<Self, WireError>) {
        decoder.string()
    }

    fn encoded_len(&self) -> (r: usize) {
        let bytes = self.as_str().as_bytes();
        let len = bytes.len();
        proof {
            lemma_varint_shape(len as nat);
        }
        varint_len(len as u64).saturating_add(len)
    }

    proof fn lemma_decode_extends(input: Seq<u8>, more: Seq<u8>, pos: nat, limits: DecodeLimits) {
        lemma_string_field_extends(input, more, pos, limits);
    }

    proof fn lemma_round_trip(&self, prefix: Seq<u8>, rest: Seq<u8>, limits: DecodeLimits) {
        let b = encode_utf8(self@);
        lemma_field_round_trip(prefix, b, rest, limits);
        vstd::utf8::encode_utf8_valid_utf8(self@);
        vstd::utf8::encode_utf8_decode_utf8(self@);
    }
}

impl<T: WireCodec> WireCodec for Option<T> {
    open spec fn spec_wire(&self) -> Seq<u8> {
        match self {
            Some(v) => seq![1u8] + v.spec_wire(),
            None => seq![0u8],
        }
    }

    open spec fn spec_fixed_len() -> Option<nat> {
        None
    }

    /// `0` for none, `1` followed by the value for some, anything else is
    /// malformed.
    open spec fn spec_decode(input: Seq<u8>, pos: nat, limits: DecodeLimits) -> Result<
        (Option<T::V>, nat),
        WireError,
    > {
        match spec_byte(input, pos) {
            Err(e) => Err(e),
            Ok(b) => if b == 0 {
                Ok((None, 1))
            } else if b == 1 {
                match T::spec_decode(input, pos + 1, limits) {
                    Ok((v, n)) => Ok((Some(v), n + 1)),
                    Err(e) => Err(e),
                }
            } else {
                Err(WireError::MalformedConstructor)
            },
        }
    }

    open spec fn spec_within(&self, limits: DecodeLimits) -> bool {
        match self {
            Some(v) => v.spec_within(limits),
            None => true,
        }
    }

    fn fixed_encoded_len() -> (r: Option<usize>) {
        None
    }

    proof fn lemma_fixed_len(&self) {
    }

    fn encode(&self, encoder: &mut Encoder) -> (r: Result<(), WireError>) {
        match self {
            Some(value) => {
                let r1 = encoder.u8(1);
                proof {
                    lemma_pushed_is_encoded(old(encoder)@, old(encoder).max_size(), 1u8, r1, encoder@);
                }
                if r1.is_err() {
                    proof {
                        lemma_encoded_extend(
                            old(encoder)@,
                            old(encoder).max_size(),
                            seq![1u8],
                            value.spec_wire(),
                            r1,
                            encoder@,
                        );
                    }
                    return r1;
                }
                let r2 = value.encode(encoder);
                proof {
                    lemma_encoded_concat(
                        old(encoder)@,
                        old(encoder).max_size(),
                        seq![1u8],
                        value.spec_wire(),
                        r2,
                        encoder@,
                    );
                }
                r2
            },
            None => {
                let r = encoder.u8(0);
                proof {
                    lemma_pushed_is_encoded(old(encoder)@, old(encoder).max_size(), 0u8, r, encoder@);
                }
                r
            },
        }
    }

    fn decode(decoder: &mut Decoder<'_>) -> (r: Result<Self, WireError>) {
        let tag = decoder.u8()?;
        if tag == 0 {
            Ok(None)
        } else if tag == 1 {
            let value = T::decode(decoder)?;
            Ok(Some(value))
        } else {
            Err(WireError::MalformedConstructor)
        }
    }

    fn encoded_len(&self) -> (r: usize) {
        match self {
            Some(value) => {
                let inner = value.encoded_len();
                1usize.saturating_add(inner)
            },
            None => 1,
        }
    }

    proof fn lemma_decode_extends(input: Seq<u8>, more: Seq<u8>, pos: nat, limits: DecodeLimits) {
        lemma_byte_extends(input, more, pos);
        if input[pos as int] == 1 {
            T::lemma_decode_extends(input, more, pos + 1, limits);
        }
    }

    proof fn lemma_round_trip(&self, prefix: Seq<u8>, rest: Seq<u8>, limits: DecodeLimits) {
        match self {
            Some(v) => {
                lemma_byte_round_trip(prefix, 1u8, v.spec_wire() + rest);
                assert(prefix + self.spec_wire() + rest =~= prefix + seq![1u8] + (v.spec_wire()
                    + rest));
                assert(prefix + self.spec_wire() + rest =~= (prefix + seq![1u8]) + v.spec_wire()
                    + rest);
                v.lemma_round_trip(prefix + seq![1u8], rest, limits);
            },
            None => {
                lemma_byte_round_trip(prefix, 0u8, rest);
            },
        }
    }
}

impl<const N: usize> WireCodec for [u8; N] {
    open spec fn spec_wire(&self) -> Seq<u8> {
        self@
    }

    open spec fn spec_fixed_len() -> Option<nat> {
        Some(N as nat)
    }

    open spec fn spec_decode(input: Seq<u8>, pos: nat, limits: DecodeLimits) -> Result<
        (Seq<u8>, nat),
        WireError,
    > {
        match spec_take(input, pos, N as nat) {
            Ok(b) => Ok((b, N as nat)),
            Err(e) => Err(e),
        }
    }

    open spec fn spec_within(&self, limits: DecodeLimits) -> bool {
        true
    }

    fn fixed_encoded_len() -> (r: Option<usize>) {
        Some(N)
    }

    proof fn lemma_fixed_len(&self) {
    }

    fn encode(&self, encoder: &mut Encoder) -> (r: Result<(), WireError>) {
        let r = encoder.fixed_bytes(self);
        proof {
            old(encoder).lemma_max_size_fits();
            lemma_appended_is_encoded(old(encoder)@, old(encoder).max_size(), self@, r, encoder@);
        }
        r
    }

    fn decode(decoder: &mut Decoder<'_>) -> (r: Result<Self, WireError>) {
        let r = decoder.fixed_bytes::<N>();
        proof {
            if r is Ok {
                let a = r->Ok_0;
                assert(a.deep_view() =~= a@);
            }
        }
        r
    }

    fn encoded_len(&self) -> (r: usize) {
        N
    }

    proof fn lemma_decode_extends(input: Seq<u8>, more: Seq<u8>, pos: nat, limits: DecodeLimits) {
        lemma_take_extends(input, more, pos, N as nat);
    }

    proof fn lemma_round_trip(&self, prefix: Seq<u8>, rest: Seq<u8>, limits: DecodeLimits) {
        let input = prefix + self@ + rest;
        assert(input.subrange(prefix.len() as int, (prefix.len() + N) as int) =~= self@);
        assert(self.deep_view() =~= self@);
    }
}

/// The encodings of the values of `s`, one after another.
pub open spec fn spec_wire_seq<T: WireCodec>(s: Seq<T>) -> Seq<u8>
    decreases s.len(),
{
    if s.len() == 0 {
        seq![]
    } else {
        spec_wire_seq(s.drop_last()) + s.last().spec_wire()
    }
}

/// Decoding `count` values one after another from `pos`: their deep views and
/// the bytes they take together.
pub open spec fn spec_decode_seq<T: WireCodec>(
    input: Seq<u8>,
    pos: nat,
    count: nat,
    limits: DecodeLimits,
) -> Result<(Seq<T::V>, nat), WireError>
    decreases count,
{
    if count == 0 {
        Ok((seq![], 0))
    } else {
        match spec_decode_seq::<T>(input, pos, (count - 1) as nat, limits) {
            Err(e) => Err(e),
            Ok((items, m)) => match T::spec_decode(input, pos + m, limits) {
                Ok((v, k)) => Ok((items.push(v), m + k)),
                Err(e) => Err(e),
            },
        }
    }
}

/// The deep views of the values of `s`.
pub open spec fn spec_deep_seq<T: DeepView>(s: Seq<T>) -> Seq<T::V> {
    Seq::new(s.len(), |i: int| s[i].deep_view())
}

pub proof fn lemma_wire_seq_step<T: WireCodec>(s: Seq<T>, i: int)
    requires
        0 <= i < s.len(),
    ensures
        spec_wire_seq(s.take(i + 1)) == spec_wire_seq(s.take(i)) + s[i].spec_wire(),
{
    assert(s.take(i + 1).drop_last() =~= s.take(i));
}

pub proof fn lemma_wire_seq_split<T: WireCodec>(s: Seq<T>, i: int)
    requires
        0 <= i <= s.len(),
    ensures
        spec_wire_seq(s) == spec_wire_seq(s.take(i)) + spec_wire_seq(s.skip(i)),
    decreases s.len(),
{
    if i == s.len() {
        assert(s.take(i) =~= s);
        assert(s.skip(i) =~= Seq::<T>::empty());
        assert(spec_wire_seq(s) + Seq::<u8>::empty() =~= spec_wire_seq(s));
    } else {
        let d = s.drop_last();
        lemma_wire_seq_split(d, i);
        assert(d.take(i) =~= s.take(i));
        assert(s.skip(i).drop_last() =~= d.skip(i));
        assert(s.skip(i).last() == s.last());
        assert(spec_wire_seq(s.take(i)) + spec_wire_seq(d.skip(i)) + s.last().spec_wire()
            =~= spec_wire_seq(s.take(i)) + (spec_wire_seq(d.skip(i)) + s.last().spec_wire()));
    }
}

/// When every value is `size` bytes long, `n` values take `n * size` bytes.
pub proof fn lemma_wire_seq_fixed_len<T: WireCodec>(s: Seq<T>, size: nat)
    requires
        T::spec_fixed_len() == Some(size),
    ensures
        spec_wire_seq(s).len() == s.len() * size,
    decreases s.len(),
{
    if s.len() > 0 {
        lemma_wire_seq_fixed_len(s.drop_last(), size);
        s.last().lemma_fixed_len();
        assert((s.len() - 1) * size + size == s.len() * size) by (nonlinear_arith);
    }
}

proof fn lemma_decode_seq_err<T: WireCodec>(
    input: Seq<u8>,
    pos: nat,
    j: nat,
    k: nat,
    limits: DecodeLimits,
)
    requires
        j <= k,
        spec_decode_seq::<T>(input, pos, j, limits) is Err,
    ensures
        spec_decode_seq::<T>(input, pos, k, limits) == spec_decode_seq::<T>(input, pos, j, limits),
    decreases k,
{
    if k > j {
        lemma_decode_seq_err::<T>(input, pos, j, (k - 1) as nat, limits);
    }
}

proof fn lemma_decode_seq_round_trip<T: WireCodec>(
    s: Seq<T>,
    k: nat,
    head: Seq<u8>,
    tail: Seq<u8>,
    limits: DecodeLimits,
)
    requires
        k <= s.len(),
        forall|i: int| 0 <= i < s.len() ==> #[trigger] s[i].spec_within(limits),
        head.len() + spec_wire_seq(s).len() + tail.len() <= usize::MAX,
    ensures
        spec_decode_seq::<T>(head + spec_wire_seq(s) + tail, head.len(), k, limits) == Ok::<
            (Seq<T::V>, nat),
            WireError,
        >((spec_deep_seq(s.take(k as int)), spec_wire_seq(s.take(k as int)).len())),
    decreases k,
{
    let input = head + spec_wire_seq(s) + tail;
    if k == 0 {
        assert(spec_deep_seq(s.take(0)) =~= Seq::<T::V>::empty());
    } else {
        let j = (k - 1) as int;
        lemma_decode_seq_round_trip(s, (k - 1) as nat, head, tail, limits);
        lemma_wire_seq_split(s, k as int);
        lemma_wire_seq_step(s, j);
        let before = head + spec_wire_seq(s.take(j));
        let after = spec_wire_seq(s.skip(k as int)) + tail;
        assert(input =~= before + s[j].spec_wire() + after);
        s[j].lemma_round_trip(before, after, limits);
        assert(spec_deep_seq(s.take(j)).push(s[j].deep_view()) =~= spec_deep_seq(
            s.take(k as int),
        ));
    }
}

/// Values written one after another read back one after another: each
/// read gives the value written there, and the reads end exactly at the end
/// of what was written.
pub proof fn lemma_read_back_in_order<T: WireCodec>(s: Seq<T>, limits: DecodeLimits)
    requires
        forall|i: int| 0 <= i < s.len() ==> #[trigger] s[i].spec_within(limits),
        spec_wire_seq(s).len() <= usize::MAX,
    ensures
        spec_decode_seq::<T>(spec_wire_seq(s), 0, s.len(), limits) == Ok::<
            (Seq<T::V>, nat),
            WireError,
        >((spec_deep_seq(s), spec_wire_seq(s).len())),
{
    let empty = Seq::<u8>::empty();
    lemma_decode_seq_round_trip(s, s.len(), empty, empty, limits);
    assert(empty + spec_wire_seq(s) + empty =~= spec_wire_seq(s));
    assert(s.take(s.len() as int) =~= s);
}

/// Values read one after another from `input` read the same from `input`
/// followed by anything, and lie within `input`.
pub proof fn lemma_decode_seq_extends<T: WireCodec>(
    input: Seq<u8>,
    more: Seq<u8>,
    pos: nat,
    count: nat,
    limits: DecodeLimits,
)
    requires
        pos <= input.len(),
        spec_decode_seq::<T>(input, pos, count, limits) is Ok,
    ensures
        spec_decode_seq::<T>(input + more, pos, count, limits) == spec_decode_seq::<T>(
            input,
            pos,
            count,
            limits,
        ),
        spec_decode_seq::<T>(input, pos, count, limits) matches Ok((_, m)) && pos + m <= input.len(),
    decreases count,
{
    if count > 0 {
        lemma_decode_seq_extends::<T>(input, more, pos, (count - 1) as nat, limits);
        let (items, m) = spec_decode_seq::<T>(input, pos, (count - 1) as nat, limits)->Ok_0;
        T::lemma_decode_extends(input, more, pos + m, limits);
    }
}

impl<T: WireCodec> WireCodec for Vec<T> {
    open spec fn spec_wire(&self) -> Seq<u8> {
        spec_varint(self@.len()) + spec_wire_seq(self@)
    }

    open spec fn spec_fixed_len() -> Option<nat> {
        None
    }

    /// The element count, then the elements one after another.
    open spec fn spec_decode(input: Seq<u8>, pos: nat, limits: DecodeLimits) -> Result<
        (Seq<T::V>, nat),
        WireError,
    > {
        match spec_count(input, pos, limits, T::spec_fixed_len()) {
            Err(e) => Err(e),
            Ok((count, n)) => match spec_decode_seq::<T>(input, pos + n, count, limits) {
                Ok((items, m)) => Ok((items, n + m)),
                Err(e) => Err(e),
            },
        }
    }

    open spec fn spec_within(&self, limits: DecodeLimits) -> bool {
        &&& self@.len() <= limits.max_collection_items
        &&& forall|i: int| 0 <= i < self@.len() ==> #[trigger] self@[i].spec_within(limits)
    }

    fn fixed_encoded_len() -> (r: Option<usize>) {
        None
    }

    proof fn lemma_fixed_len(&self) {
    }

    fn encode(&self, encoder: &mut Encoder) -> (r: Result<(), WireError>) {
        let len = self.len();
        let r0 = encoder.varint(len as u64);
        if r0.is_err() {
            proof {
                lemma_encoded_extend(
                    old(encoder)@,
                    old(encoder).max_size(),
                    spec_varint(len as nat),
                    spec_wire_seq(self@),
                    r0,
                    encoder@,
                );
            }
            return r0;
        }
        let mut i: usize = 0;
        while i < len
            invariant
                len == self@.len(),
                i <= len,
                encoder.max_size() == old(encoder).max_size(),
                encoder@ == old(encoder)@ + spec_varint(len as nat) + spec_wire_seq(
                    self@.take(i as int),
                ),
                encoder@.len() <= old(encoder).max_size(),
            decreases len - i,
        {
            let ghost mid = encoder@;
            let ri = self[i].encode(encoder);
            proof {
                lemma_wire_seq_step(self@, i as int);
            }
            if ri.is_err() {
                proof {
                    let p = spec_varint(len as nat) + spec_wire_seq(self@.take(i as int));
                    assert(mid =~= old(encoder)@ + p);
                    lemma_encoded_concat(
                        old(encoder)@,
                        old(encoder).max_size(),
                        p,
                        self@[i as int].spec_wire(),
                        ri,
                        encoder@,
                    );
                    lemma_encoded_extend(
                        old(encoder)@,
                        old(encoder).max_size(),
                        p + self@[i as int].spec_wire(),
                        spec_wire_seq(self@.skip(i + 1)),
                        ri,
                        encoder@,
                    );
                    lemma_wire_seq_split(self@, i + 1);
                    assert(p + self@[i as int].spec_wire() + spec_wire_seq(self@.skip(i + 1))
                        =~= self.spec_wire());
                }
                return ri;
            }
            proof {
                assert(encoder@ =~= old(encoder)@ + spec_varint(len as nat) + spec_wire_seq(
                    self@.take(i + 1),
                ));
            }
            i = i + 1;
        }
        proof {
            assert(self@.take(len as int) =~= self@);
            assert(encoder@ =~= old(encoder)@ + self.spec_wire());
        }
        Ok(())
    }

    fn decode(decoder: &mut Decoder<'_>) -> (r: Result<Self, WireError>) {
        let ghost input = decoder.input();
        let ghost pos = decoder.pos();
        let ghost limits = decoder.limits();
        let count = decoder.collection_count()?;
        let fixed = T::fixed_encoded_len();
        let capacity: usize = match fixed {
            Some(item_size) => {
                let required = match count.checked_mul(item_size) {
                    Some(required) => required,
                    None => return Err(WireError::IntegerOverflow),
                };
                let left = decoder.remaining();
                assert(left == input.len() - decoder.pos()) by {
                    decoder.lemma_rest_len();
                }
                if required > left {
                    return Err(WireError::UnexpectedEof);
                }
                assert(T::spec_fixed_len() == Some(item_size as nat));
                assert(count as nat * item_size as nat <= usize::MAX);
                assert(count as nat * item_size as nat <= input.len() - decoder.pos());
                count
            },
            None => if count < 1024 {
                count
            } else {
                1024
            },
        };
        let ghost start = decoder.pos();
        proof {
            assert(spec_count(input, pos, limits, None) == Ok::<(nat, nat), WireError>(
                (count as nat, (start - pos) as nat),
            ));
            assert(spec_count(input, pos, limits, T::spec_fixed_len()) == Ok::<(nat, nat), WireError>(
                (count as nat, (start - pos) as nat),
            ));
        }
        let mut result: Vec<T> = Vec::with_capacity(capacity);
        proof {
            assert(result.deep_view() =~= Seq::<T::V>::empty());
        }
        let mut i: usize = 0;
        while i < count
            invariant
                i <= count,
                decoder.same_packet(old(decoder)),
                input == decoder.input(),
                limits == decoder.limits(),
                input == old(decoder).input(),
                pos == old(decoder).pos(),
                limits == old(decoder).limits(),
                pos <= start <= decoder.pos(),
                spec_count(input, pos, limits, T::spec_fixed_len()) == Ok::<(nat, nat), WireError>(
                    (count as nat, (start - pos) as nat),
                ),
                spec_decode_seq::<T>(input, start, i as nat, limits) == Ok::<
                    (Seq<T::V>, nat),
                    WireError,
                >((result.deep_view(), (decoder.pos() - start) as nat)),
            decreases count - i,
        {
            let ghost before = decoder.pos();
            let item = match T::decode(decoder) {
                Ok(item) => item,
                Err(e) => {
                    proof {
                        assert(T::spec_decode(input, before, limits) is Err);
                        assert(spec_decode_seq::<T>(input, start, (i + 1) as nat, limits)
                            == Err::<(Seq<T::V>, nat), WireError>(e));
                        lemma_decode_seq_err::<T>(
                            input,
                            start,
                            (i + 1) as nat,
                            count as nat,
                            limits,
                        );
                    }
                    return Err(e);
                },
            };
            let ghost items = result.deep_view();
            result.push(item);
            proof {
                assert(result.deep_view() =~= items.push(item.deep_view()));
            }
            i = i + 1;
        }
        Ok(result)
    }

    fn encoded_len(&self) -> (r: usize) {
        let len = self.len();
        let prefix = varint_len(len as u64);
        match T::fixed_encoded_len() {
            Some(size) => {
                proof {
                    lemma_wire_seq_fixed_len(self@, size as nat);
                }
                let body: usize = match len.checked_mul(size) {
                    Some(body) => body,
                    None => usize::MAX,
                };
                prefix.saturating_add(body)
            },
            None => {
                let mut total: usize = prefix;
                let mut i: usize = 0;
                while i < len
                    invariant
                        len == self@.len(),
                        i <= len,
                        total == spec_saturate(
                            spec_varint(len as nat).len() + spec_wire_seq(self@.take(i as int)).len(),
                        ),
                    decreases len - i,
                {
                    proof {
                        lemma_wire_seq_step(self@, i as int);
                    }
                    let item = self[i].encoded_len();
                    total = total.saturating_add(item);
                    i = i + 1;
                }
                proof {
                    assert(self@.take(len as int) =~= self@);
                }
                total
            },
        }
    }

    proof fn lemma_decode_extends(input: Seq<u8>, more: Seq<u8>, pos: nat, limits: DecodeLimits) {
        lemma_count_extends(input, more, pos, limits, T::spec_fixed_len());
        let (count, n) = spec_count(input, pos, limits, T::spec_fixed_len())->Ok_0;
        lemma_decode_seq_extends::<T>(input, more, pos + n, count, limits);
    }

    proof fn lemma_round_trip(&self, prefix: Seq<u8>, rest: Seq<u8>, limits: DecodeLimits) {
        let s = self@;
        let len = s.len();
        let w = spec_wire_seq(s);
        let input = prefix + self.spec_wire() + rest;
        assert(input.skip(prefix.len() as int) =~= spec_varint((len as u64) as nat) + (w + rest));
        lemma_varint_round_trip(len as u64, w + rest);
        let n = spec_varint(len).len();
        match T::spec_fixed_len() {
            Some(size) => {
                lemma_wire_seq_fixed_len(s, size);
            },
            None => {},
        }
        let head = prefix + spec_varint(len);
        assert(input =~= head + w + rest);
        lemma_decode_seq_round_trip(s, len, head, rest, limits);
        assert(s.take(len as int) =~= s);
    }
}

} // verus!
