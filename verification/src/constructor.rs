//! Constructor framing: an 8-byte Constructor ID, then the fields.

use vstd::prelude::*;
use vstd::string::StringSliceAdditionalSpecFns;

use crate::text::{ascii_chars, hex_lower, spec_hex_bytes};
use crate::value::WireCodec;
use crate::wire::{spec_encoded, spec_room, Decoder, Encoder, WireError};

verus! {

/// The number of raw bytes of a Constructor ID on the wire.
pub const CID_BYTES: usize = 8;

/// The value of a hexadecimal digit, either case.
pub open spec fn spec_hex_value(c: u8) -> Option<nat> {
    if 48 <= c <= 57 {
        Some((c - 48) as nat)
    } else if 97 <= c <= 102 {
        Some((c - 87) as nat)
    } else if 65 <= c <= 70 {
        Some((c - 55) as nat)
    } else {
        None
    }
}

/// The bytes that a textual Constructor ID stands for: sixteen hexadecimal
/// digits, two per byte, high digit first.
pub open spec fn spec_parse_cid(text: Seq<u8>) -> Result<Seq<u8>, WireError> {
    if text.len() != 2 * CID_BYTES || exists|i: int|
        0 <= i < text.len() && #[trigger] spec_hex_value(text[i]) is None {
        Err(WireError::InvalidCId)
    } else {
        Ok(
            Seq::new(
                CID_BYTES as nat,
                |i: int|
                    (spec_hex_value(text[2 * i])->0 * 16 + spec_hex_value(text[2 * i + 1])->0) as u8,
            ),
        )
    }
}

/// The value of the hexadecimal digit `byte`.
fn hex(byte: u8) -> (r: Result<u8, WireError>)
    ensures
        match spec_hex_value(byte) {
            Some(v) => r == Ok::<u8, WireError>(v as u8),
            None => r == Err::<u8, WireError>(WireError::InvalidCId),
        },
{
    if 48 <= byte && byte <= 57 {
        Ok(byte - 48)
    } else if 97 <= byte && byte <= 102 {
        Ok(byte - 87)
    } else if 65 <= byte && byte <= 70 {
        Ok(byte - 55)
    } else {
        Err(WireError::InvalidCId)
    }
}

fn parse_cid(cid: &str) -> (r: Result<[u8; CID_BYTES], WireError>)
    ensures
        match spec_parse_cid(cid.spec_bytes()) {
            Ok(b) => r matches Ok(a) && a@ == b,
            Err(e) => r == Err::<[u8; CID_BYTES], WireError>(e),
        },
{
    let text = cid.as_bytes();
    if text.len() != 16 {
        return Err(WireError::InvalidCId);
    }
    let mut i: usize = 0;
    while i < 16
        invariant
            i <= 16,
            text@.len() == 16,
            text@ == cid.spec_bytes(),
            forall|j: int| 0 <= j < i ==> #[trigger] spec_hex_value(text@[j]) is Some,
        decreases 16 - i,
    {
        if hex(text[i]).is_err() {
            assert(spec_hex_value(text@[i as int]) is None);
            return Err(WireError::InvalidCId);
        }
        i = i + 1;
    }
    let mut bytes: [u8; CID_BYTES] = [0u8; 8];
    let mut k: usize = 0;
    while k < 8
        invariant
            k <= 8,
            text@.len() == 16,
            text@ == cid.spec_bytes(),
            forall|j: int| 0 <= j < 16 ==> #[trigger] spec_hex_value(text@[j]) is Some,
            forall|j: int|
                0 <= j < k ==> bytes@[j] == (spec_hex_value(text@[2 * j])->0 * 16 + spec_hex_value(
                    text@[2 * j + 1],
                )->0) as u8,
        decreases 8 - k,
    {
        let high = hex(text[2 * k])?;
        let low = hex(text[2 * k + 1])?;
        assert(spec_hex_value(text@[2 * k as int]) is Some);
        assert(spec_hex_value(text@[2 * k + 1]) is Some);
        bytes[k] = high * 16 + low;
        k = k + 1;
    }
    assert(bytes@ =~= spec_parse_cid(text@)->Ok_0);
    Ok(bytes)
}

/// Parses a textual Constructor ID into its bytes.
pub fn cid_bytes(cid: &str) -> (r: Result<[u8; CID_BYTES], WireError>)
    ensures
        match spec_parse_cid(cid.spec_bytes()) {
            Ok(b) => r matches Ok(a) && a@ == b,
            Err(e) => r == Err::<[u8; CID_BYTES], WireError>(e),
        },
{
    parse_cid(cid)
}

/// The textual Constructor ID of the packet `bytes`: its first eight bytes in
/// lowercase hexadecimal.
pub fn constructor_cid(bytes: &[u8], max_size: usize) -> (r: Result<String, WireError>)
    ensures
        bytes@.len() > max_size ==> r == Err::<String, WireError>(WireError::PacketTooLarge),
        bytes@.len() <= max_size && bytes@.len() < CID_BYTES ==> r == Err::<String, WireError>(
            WireError::UnexpectedEof,
        ),
        bytes@.len() <= max_size && bytes@.len() >= CID_BYTES ==> (r matches Ok(s) && s@
            == ascii_chars(spec_hex_bytes(bytes@.take(CID_BYTES as int)))),
{
    let decoder = Decoder::new(bytes, max_size)?;
    let raw = decoder.peek_raw(CID_BYTES)?;
    Ok(hex_lower(raw))
}

/// Reading back the text of a Constructor ID gives its bytes.
pub proof fn lemma_cid_text_round_trip(b: Seq<u8>)
    requires
        b.len() == CID_BYTES,
    ensures
        spec_parse_cid(spec_hex_bytes(b)) == Ok::<Seq<u8>, WireError>(b),
{
    let t = spec_hex_bytes(b);
    crate::text::lemma_hex_bytes_ascii(b);
    assert forall|i: int| 0 <= i < CID_BYTES implies t[2 * i] == crate::text::hex_digit(
        (b[i] / 16) as nat,
    ) && t[2 * i + 1] == crate::text::hex_digit((b[i] % 16) as nat) by {
        lemma_hex_bytes_index(b, i);
    }
    assert forall|i: int| 0 <= i < t.len() implies #[trigger] spec_hex_value(t[i]) is Some by {
        lemma_hex_bytes_index(b, i / 2);
    }
    assert(spec_parse_cid(t)->Ok_0 =~= b);
}

proof fn lemma_hex_bytes_index(b: Seq<u8>, i: int)
    requires
        0 <= i < b.len(),
    ensures
        spec_hex_bytes(b)[2 * i] == crate::text::hex_digit((b[i] / 16) as nat),
        spec_hex_bytes(b)[2 * i + 1] == crate::text::hex_digit((b[i] % 16) as nat),
        spec_hex_bytes(b).len() == 2 * b.len(),
    decreases i,
{
    crate::text::lemma_hex_bytes_ascii(b);
    crate::text::lemma_hex_bytes_ascii(b.drop_first());
    if i > 0 {
        lemma_hex_bytes_index(b.drop_first(), i - 1);
    }
}

/// Writes a constructor: its Constructor ID, then its fields in order.
pub struct ConstructorEncoder {
    inner: Encoder,
}

impl View for ConstructorEncoder {
    type V = Seq<u8>;

    closed spec fn view(&self) -> Seq<u8> {
        self.inner@
    }
}

impl ConstructorEncoder {
    pub closed spec fn max_size(&self) -> nat {
        self.inner.max_size()
    }

    /// Starts a constructor with the Constructor ID `cid`.
    pub fn new(cid: &str, max_size: usize) -> (r: Result<Self, WireError>)
        ensures
            match spec_parse_cid(cid.spec_bytes()) {
                Err(e) => r == Err::<Self, WireError>(e),
                Ok(b) => match spec_room(0, CID_BYTES as nat, max_size as nat) {
                    Ok(_) => r matches Ok(e) && e@ == b && e.max_size() == max_size,
                    Err(e) => r == Err::<Self, WireError>(e),
                },
            },
    {
        let mut inner = Encoder::new(max_size);
        let cid = parse_cid(cid)?;
        inner.raw(cid.as_slice())?;
        Ok(ConstructorEncoder { inner })
    }

    /// Appends a field.
    pub fn field<T: WireCodec>(&mut self, value: &T) -> (r: Result<(), WireError>)
        ensures
            final(self).max_size() == old(self).max_size(),
            spec_encoded(old(self)@, old(self).max_size(), value.spec_wire(), r, final(self)@),
    {
        self.inner.value(value)
    }

    /// Appends a field that a guard bit controls: when the bit is clear the
    /// field takes no bytes at all, and when it is set the call does what
    /// `field` does.
    pub fn guarded<T: WireCodec>(&mut self, enabled: bool, value: &T) -> (r: Result<(), WireError>)
        ensures
            final(self).max_size() == old(self).max_size(),
            enabled ==> spec_encoded(
                old(self)@,
                old(self).max_size(),
                value.spec_wire(),
                r,
                final(self)@,
            ),
            !enabled ==> r is Ok && final(self)@ == old(self)@,
    {
        if enabled {
            self.field(value)?;
        }
        Ok(())
    }

    pub fn finish(self) -> (r: Result<Vec<u8>, WireError>)
        ensures
            r matches Ok(v) && v@ == self@,
    {
        self.inner.finish()
    }
}

/// A field whose encoding `piece` fits the limit `max` after the bytes
/// `before` is appended; once appended, the encoder holds `before` followed
/// by `piece`, which `finish` hands out.
pub proof fn lemma_field_appends(
    before: Seq<u8>,
    max: nat,
    piece: Seq<u8>,
    r: Result<(), WireError>,
    after: Seq<u8>,
)
    requires
        spec_encoded(before, max, piece, r, after),
    ensures
        before.len() + piece.len() <= max ==> r is Ok,
        r is Ok ==> after == before + piece,
{
}

/// Reads a constructor: checks its Constructor ID, then reads its fields.
pub struct ConstructorDecoder<'a> {
    inner: Decoder<'a>,
}

impl<'a> ConstructorDecoder<'a> {
    /// The decoder that reads the fields.
    pub closed spec fn fields(&self) -> Decoder<'a> {
        self.inner
    }

    /// Checks that `bytes` fits `max_size` and starts with the Constructor ID
    /// `expected_cid`.
    pub fn new(bytes: &'a [u8], expected_cid: &str, max_size: usize) -> (r: Result<
        Self,
        WireError,
    >)
        ensures
            bytes@.len() > max_size ==> r == Err::<Self, WireError>(WireError::PacketTooLarge),
            bytes@.len() <= max_size && bytes@.len() < CID_BYTES ==> r == Err::<Self, WireError>(
                WireError::UnexpectedEof,
            ),
            bytes@.len() <= max_size && bytes@.len() >= CID_BYTES ==> match spec_parse_cid(
                expected_cid.spec_bytes(),
            ) {
                Err(e) => r == Err::<Self, WireError>(e),
                Ok(b) => if bytes@.take(CID_BYTES as int) == b {
                    r matches Ok(d) && d.fields().wf() && d.fields().input() == bytes@
                        && d.fields().pos() == CID_BYTES && d.fields().limits().max_packet_size
                        == max_size && d.fields().limits().max_bytes_field_size == max_size
                } else {
                    r == Err::<Self, WireError>(WireError::UnknownCId)
                },
            },
    {
        let mut inner = Decoder::new(bytes, max_size)?;
        let actual = inner.read_raw(CID_BYTES)?;
        let expected = parse_cid(expected_cid)?;
        if !bytes_equal(actual, expected.as_slice()) {
            return Err(WireError::UnknownCId);
        }
        Ok(ConstructorDecoder { inner })
    }

    /// Reads the next field.
    pub fn field<T: WireCodec>(&mut self) -> (r: Result<T, WireError>)
        requires
            old(self).fields().wf(),
        ensures
            final(self).fields().same_packet(&old(self).fields()),
            match T::spec_decode(
                old(self).fields().input(),
                old(self).fields().pos(),
                old(self).fields().limits(),
            ) {
                Ok((v, n)) => (r matches Ok(x) && x.deep_view() == v) && final(self).fields().advanced(
                    &old(self).fields(),
                    n,
                ),
                Err(e) => r matches Err(e2) && e2 == e,
            },
    {
        self.inner.value()
    }

    /// Checks that every byte of the packet has been read.
    pub fn finish(self) -> (r: Result<(), WireError>)
        requires
            self.fields().wf(),
        ensures
            r is Ok <==> self.fields().pos() == self.fields().input().len(),
            r matches Err(e) ==> e == WireError::MalformedConstructor,
    {
        if self.inner.is_finished() {
            Ok(())
        } else {
            Err(WireError::MalformedConstructor)
        }
    }
}

/// Whether `a` and `b` hold the same bytes.
pub fn bytes_equal(a: &[u8], b: &[u8]) -> (r: bool)
    ensures
        r == (a@ == b@),
{
    if a.len() != b.len() {
        return false;
    }
    let mut i: usize = 0;
    while i < a.len()
        invariant
            i <= a@.len() == b@.len(),
            forall|j: int| 0 <= j < i ==> a@[j] == b@[j],
        decreases a@.len() - i,
    {
        if a[i] != b[i] {
            return false;
        }
        i = i + 1;
    }
    assert(a@ =~= b@);
    true
}

} // verus!
