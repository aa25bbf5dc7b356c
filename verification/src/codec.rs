//! Whole packets: one value, nothing before it and nothing after it.

use vstd::prelude::*;

use crate::limits::{DecodeLimits, MAX_COLLECTION_ITEMS, MAX_PACKET_SIZE};
use crate::borrowed::BorrowedWireCodec;
use crate::value::WireCodec;
use crate::wire::{Decoder, Encoder, WireError};

verus! {

/// The packet limit of `encode_value` and `decode_value`.
pub const DEFAULT_MAX_PACKET_SIZE: usize = MAX_PACKET_SIZE;

/// A message type with its own packet encoding, such as one a schema
/// compiler generates.
pub trait TypikonCodec: Sized {
    fn encode(&self) -> Result<Vec<u8>, WireError>;

    fn decode(bytes: &[u8]) -> Result<Self, WireError>;
}

/// The limits under which a whole packet is decoded.
pub open spec fn spec_packet_limits() -> DecodeLimits {
    DecodeLimits {
        max_packet_size: DEFAULT_MAX_PACKET_SIZE,
        max_collection_items: MAX_COLLECTION_ITEMS,
        max_bytes_field_size: DEFAULT_MAX_PACKET_SIZE,
    }
}

/// Encoding `value` as a whole packet: its encoding, unless that exceeds the
/// packet limit.
pub open spec fn spec_encode_packet<T: WireCodec>(value: T) -> Result<Seq<u8>, WireError> {
    if value.spec_wire().len() > DEFAULT_MAX_PACKET_SIZE {
        Err(WireError::PacketTooLarge)
    } else {
        Ok(value.spec_wire())
    }
}

/// Decoding a whole packet: the packet must fit the limit, hold a value, and
/// hold nothing after it.
pub open spec fn spec_decode_packet<T: WireCodec>(bytes: Seq<u8>) -> Result<T::V, WireError> {
    if bytes.len() > DEFAULT_MAX_PACKET_SIZE {
        Err(WireError::PacketTooLarge)
    } else {
        match T::spec_decode(bytes, 0, spec_packet_limits()) {
            Err(e) => Err(e),
            Ok((v, n)) => if n == bytes.len() {
                Ok(v)
            } else {
                Err(WireError::MalformedConstructor)
            },
        }
    }
}

/// Encodes `value` as a whole packet.
pub fn encode_value<T: WireCodec>(value: &T) -> (r: Result<Vec<u8>, WireError>)
    ensures
        match spec_encode_packet(*value) {
            Ok(bytes) => r matches Ok(v) && v@ == bytes,
            Err(e) => r matches Err(e2) && e2 == e,
        },
{
    let encoded_len = value.encoded_len();
    if encoded_len > DEFAULT_MAX_PACKET_SIZE {
        return Err(WireError::PacketTooLarge);
    }
    let capacity: usize = if encoded_len == 0 {
        128
    } else {
        encoded_len
    };
    let mut encoder = Encoder::with_capacity(DEFAULT_MAX_PACKET_SIZE, capacity);
    value.encode(&mut encoder)?;
    assert(encoder@ =~= value.spec_wire());
    encoder.finish()
}

/// Decodes a whole packet holding one value of type `T`.
pub fn decode_value<T: WireCodec>(bytes: &[u8]) -> (r: Result<T, WireError>)
    ensures
        match spec_decode_packet::<T>(bytes@) {
            Ok(v) => r matches Ok(x) && x.deep_view() == v,
            Err(e) => r matches Err(e2) && e2 == e,
        },
{
    let mut decoder = Decoder::new(bytes, DEFAULT_MAX_PACKET_SIZE)?;
    let value = T::decode(&mut decoder)?;
    if decoder.is_finished() {
        Ok(value)
    } else {
        Err(WireError::MalformedConstructor)
    }
}

/// Decoding a whole packet into views of it under `limits`: the packet
/// must fit the limit, hold a value, and hold nothing after it.
pub open spec fn spec_decode_borrowed_packet<'a, T: BorrowedWireCodec<'a>>(
    bytes: Seq<u8>,
    limits: DecodeLimits,
) -> Result<T::V, WireError> {
    if bytes.len() > limits.max_packet_size {
        Err(WireError::PacketTooLarge)
    } else {
        match T::spec_decode_borrowed(bytes, 0, limits) {
            Err(e) => Err(e),
            Ok((v, n)) => if n == bytes.len() {
                Ok(v)
            } else {
                Err(WireError::MalformedConstructor)
            },
        }
    }
}

/// Decodes a whole packet holding one value of type `T` whose strings,
/// byte fields and lazy collections point into `bytes`.
pub fn decode_borrowed_value<'a, T: BorrowedWireCodec<'a>>(bytes: &'a [u8]) -> (r: Result<
    T,
    WireError,
>)
    ensures
        match spec_decode_borrowed_packet::<T>(bytes@, spec_packet_limits()) {
            Ok(v) => r matches Ok(x) && x.deep_view() == v,
            Err(e) => r matches Err(e2) && e2 == e,
        },
{
    let limits = DecodeLimits {
        max_packet_size: DEFAULT_MAX_PACKET_SIZE,
        max_collection_items: MAX_COLLECTION_ITEMS,
        max_bytes_field_size: DEFAULT_MAX_PACKET_SIZE,
    };
    decode_borrowed_value_with_limits(bytes, limits)
}

/// Decodes a whole packet as `decode_borrowed_value` does, under `limits`.
pub fn decode_borrowed_value_with_limits<'a, T: BorrowedWireCodec<'a>>(
    bytes: &'a [u8],
    limits: DecodeLimits,
) -> (r: Result<T, WireError>)
    ensures
        match spec_decode_borrowed_packet::<T>(bytes@, limits) {
            Ok(v) => r matches Ok(x) && x.deep_view() == v,
            Err(e) => r matches Err(e2) && e2 == e,
        },
{
    let mut decoder = match Decoder::with_limits(bytes, limits) {
        Ok(d) => d,
        Err(e) => return Err(e),
    };
    let value = match T::decode_borrowed(&mut decoder) {
        Ok(v) => v,
        Err(e) => return Err(e),
    };
    if decoder.is_finished() {
        Ok(value)
    } else {
        Err(WireError::MalformedConstructor)
    }
}

/// What `encode_value` writes, `decode_value` reads back: the value, for
/// every value whose encoding fits the packet limit and whose fields and
/// collections fit the decoding limits.
pub proof fn lemma_packet_round_trip<T: WireCodec>(value: T)
    requires
        value.spec_within(spec_packet_limits()),
        value.spec_wire().len() <= DEFAULT_MAX_PACKET_SIZE,
    ensures
        spec_encode_packet(value) == Ok::<Seq<u8>, WireError>(value.spec_wire()),
        spec_decode_packet::<T>(value.spec_wire()) == Ok::<T::V, WireError>(value.deep_view()),
{
    let empty = Seq::<u8>::empty();
    value.lemma_round_trip(empty, empty, spec_packet_limits());
    assert(empty + value.spec_wire() + empty =~= value.spec_wire());
}

/// A packet cut short fails to decode: no proper prefix of what
/// `encode_value` writes for a value is itself a whole packet.
pub proof fn lemma_truncated_packet_fails<T: WireCodec>(value: T, len: nat)
    requires
        value.spec_within(spec_packet_limits()),
        value.spec_wire().len() <= DEFAULT_MAX_PACKET_SIZE,
        len < value.spec_wire().len(),
    ensures
        spec_decode_packet::<T>(value.spec_wire().take(len as int)) is Err,
{
    let wire = value.spec_wire();
    let cut = wire.take(len as int);
    let limits = spec_packet_limits();
    lemma_packet_round_trip(value);
    if T::spec_decode(cut, 0, limits) is Ok {
        T::lemma_decode_extends(cut, wire.skip(len as int), 0, limits);
        assert(cut + wire.skip(len as int) =~= wire);
    }
}

} // verus!
