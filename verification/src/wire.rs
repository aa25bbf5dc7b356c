//! Wire primitives: the encoder, the decoder and the formats they share.

use vstd::prelude::*;
use vstd::string::StringSliceAdditionalSpecFns;

use crate::limits::{DecodeLimits, MAX_COLLECTION_ITEMS};
use crate::value::WireCodec;

verus! {

/// Everything that can go wrong while encoding or decoding a packet.
#[derive(Debug, Clone, PartialEq, Eq, Structural)]
pub enum WireError {
    UnexpectedEof,
    InvalidVarInt,
    IntegerOverflow,
    PacketTooLarge,
    InvalidUtf8,
    MalformedConstructor,
    InvalidCId,
    UnknownCId,
    InvalidEnum,
}

// ---------------------------------------------------------------------------
// Variable-length integers
// ---------------------------------------------------------------------------

/// `128` raised to the power `n`.
pub open spec fn pow128(n: nat) -> nat
    decreases n,
{
    if n == 0 {
        1
    } else {
        128 * pow128((n - 1) as nat)
    }
}

/// The canonical (shortest) little-endian base-128 encoding of `v`: seven
/// payload bits per byte, the high bit set on every byte but the last.
pub open spec fn spec_varint(v: nat) -> Seq<u8>
    decreases v,
{
    if v < 128 {
        seq![v as u8]
    } else {
        seq![(v % 128 + 128) as u8] + spec_varint(v / 128)
    }
}

/// Reads a variable-length integer whose byte number `i` (counting from the
/// first byte of the integer) is `t[0]`. Returns the value of the bytes from
/// `t[0]` on and how many bytes they take.
///
/// The tenth byte may only carry the lowest bit, a terminating byte after the
/// first must not be zero (that would be a longer encoding of a value that has
/// a shorter one), and at most ten bytes are read.
pub open spec fn spec_varint_scan(t: Seq<u8>, i: nat) -> Result<(nat, nat), WireError>
    decreases t.len(),
{
    if t.len() == 0 {
        Err(WireError::UnexpectedEof)
    } else if i == 9 && t[0] % 128 > 1 {
        Err(WireError::IntegerOverflow)
    } else if t[0] < 128 {
        if t[0] == 0 && i > 0 {
            Err(WireError::InvalidVarInt)
        } else {
            Ok((t[0] as nat, 1))
        }
    } else if i >= 9 {
        Err(WireError::InvalidVarInt)
    } else {
        match spec_varint_scan(t.drop_first(), i + 1) {
            Ok((v, n)) => Ok((((t[0] - 128) + 128 * v) as nat, n + 1)),
            Err(e) => Err(e),
        }
    }
}

/// Decodes a variable-length integer at the start of `t`: the value and the
/// number of bytes it takes, or why `t` does not start with one.
pub open spec fn spec_varint_decode(t: Seq<u8>) -> Result<(nat, nat), WireError> {
    spec_varint_scan(t, 0)
}

/// Decoding that has read `i` continuation bytes worth `acc` (the next byte
/// weighing `scale`) is decoding of the rest, shifted by `scale` and `acc`.
pub open spec fn spec_varint_lift(
    r: Result<(nat, nat), WireError>,
    acc: int,
    scale: int,
    i: nat,
) -> Result<(nat, nat), WireError> {
    match r {
        Ok((v, n)) => Ok(((acc + scale * v) as nat, n + i)),
        Err(e) => Err(e),
    }
}

proof fn lemma_varint_step(t: Seq<u8>, i: nat, acc: int, scale: int)
    requires
        1 <= i < 9,
        i < t.len(),
        t[i as int] >= 128,
        0 <= acc,
        0 <= scale,
        spec_varint_decode(t) == spec_varint_lift(spec_varint_scan(t.skip(i as int), i), acc, scale, i),
    ensures
        spec_varint_decode(t) == spec_varint_lift(
            spec_varint_scan(t.skip((i + 1) as int), i + 1),
            acc + scale * (t[i as int] - 128),
            scale * 128,
            i + 1,
        ),
{
    let u = t.skip(i as int);
    assert(u.drop_first() =~= t.skip((i + 1) as int));
    let inner = spec_varint_scan(t.skip((i + 1) as int), i + 1);
    if inner is Ok {
        let (w, m) = inner->Ok_0;
        let b = t[i as int] - 128;
        assert(acc + scale * (b + 128 * w) == (acc + scale * b) + (scale * 128) * w)
            by (nonlinear_arith);
        assert(0 <= scale * b) by (nonlinear_arith)
            requires
                0 <= scale,
                0 <= b,
        ;
        assert(0 <= scale * (b + 128 * w)) by (nonlinear_arith)
            requires
                0 <= scale,
                0 <= b,
                0 <= w,
        ;
    }
}

proof fn lemma_pow128_nine()
    ensures
        pow128(9) == 0x8000_0000_0000_0000,
        pow128(8) == 0x0100_0000_0000_0000,
{
    reveal_with_fuel(pow128, 10);
}

proof fn lemma_pow128_monotone(a: nat, b: nat)
    requires
        a <= b,
    ensures
        1 <= pow128(a) <= pow128(b),
    decreases b,
{
    if b > 0 {
        if a < b {
            lemma_pow128_monotone(a, (b - 1) as nat);
        }
        lemma_pow128_monotone(0, (b - 1) as nat);
    }
}

/// The encoding of a value takes at least one byte, and exactly one for
/// values below `128`.
pub proof fn lemma_varint_shape(v: nat)
    ensures
        spec_varint(v).len() >= 1,
        v < 128 <==> spec_varint(v).len() == 1,
    decreases v,
{
    if v >= 128 {
        lemma_varint_shape(v / 128);
    }
}

/// A value below `128^k` takes at most `k` bytes.
pub proof fn lemma_varint_len_bound(v: nat, k: nat)
    requires
        1 <= k,
        v < pow128(k),
    ensures
        spec_varint(v).len() <= k,
    decreases v,
{
    if v >= 128 {
        if k == 1 {
            assert(pow128(1) == 128) by {
                reveal_with_fuel(pow128, 2);
            }
        } else {
            assert(pow128(k) == 128 * pow128((k - 1) as nat));
            lemma_varint_len_bound(v / 128, (k - 1) as nat);
        }
    }
}

/// The number of binary digits of `n`: `0` for zero.
pub open spec fn spec_bit_length(n: nat) -> nat
    decreases n,
{
    if n == 0 {
        0
    } else {
        1 + spec_bit_length(n / 2)
    }
}

/// The number of bytes a variable-length integer takes: one for each group
/// of seven binary digits of the value, and one byte for zero.
pub open spec fn spec_varint_groups(v: nat) -> nat {
    if v == 0 {
        1
    } else {
        ((spec_bit_length(v) + 6) / 7) as nat
    }
}

proof fn lemma_bit_length_below_128(n: nat)
    requires
        0 < n < 128,
    ensures
        1 <= spec_bit_length(n) <= 7,
{
    reveal_with_fuel(spec_bit_length, 8);
}

proof fn lemma_bit_length_seven_more(n: nat)
    requires
        n >= 128,
    ensures
        spec_bit_length(n) == 7 + spec_bit_length(n / 128),
{
    assert(n / 2 / 2 / 2 / 2 / 2 / 2 / 2 == n / 128);
    reveal_with_fuel(spec_bit_length, 8);
}

/// The canonical encoding of `v` takes one byte for each group of seven
/// binary digits of `v`, and one byte for zero.
pub proof fn lemma_varint_len_is_groups(v: nat)
    ensures
        spec_varint(v).len() == spec_varint_groups(v),
    decreases v,
{
    if v == 0 {
    } else if v < 128 {
        lemma_bit_length_below_128(v);
    } else {
        lemma_varint_len_is_groups(v / 128);
        lemma_bit_length_seven_more(v);
        assert(spec_bit_length(v / 128) >= 1) by {
            reveal_with_fuel(spec_bit_length, 2);
        }
    }
}

proof fn lemma_varint_scan_encoding(v: nat, i: nat, rest: Seq<u8>)
    requires
        i <= 9,
        v < 2 * pow128((9 - i) as nat),
        i > 0 ==> v > 0,
    ensures
        spec_varint_scan(spec_varint(v) + rest, i) == Ok::<(nat, nat), WireError>(
            (v, spec_varint(v).len()),
        ),
    decreases v,
{
    let t = spec_varint(v) + rest;
    if v < 128 {
        assert(t[0] == v as u8);
    } else {
        if i == 9 {
            assert(pow128(0) == 1);
        }
        assert(i < 9);
        let q = v / 128;
        assert(pow128((9 - i) as nat) == 128 * pow128((9 - (i + 1)) as nat));
        assert(q < 2 * pow128((9 - (i + 1)) as nat));
        assert(q > 0);
        lemma_varint_scan_encoding(q, i + 1, rest);
        assert(t.drop_first() =~= spec_varint(q) + rest);
        assert(t[0] == (v % 128 + 128) as u8);
    }
}

proof fn lemma_varint_scan_canonical(t: Seq<u8>, i: nat)
    requires
        i <= 9,
        spec_varint_scan(t, i) is Ok,
    ensures
        ({
            let (v, n) = spec_varint_scan(t, i)->Ok_0;
            &&& v < 2 * pow128((9 - i) as nat)
            &&& i > 0 ==> v > 0
            &&& 1 <= n <= t.len()
            &&& t.take(n as int) == spec_varint(v)
        }),
    decreases t.len(),
{
    let (v, n) = spec_varint_scan(t, i)->Ok_0;
    lemma_pow128_monotone(0, (9 - i) as nat);
    if t[0] < 128 {
        assert(t.take(1) =~= seq![t[0]]);
    } else {
        let u = t.drop_first();
        lemma_varint_scan_canonical(u, i + 1);
        let (w, m) = spec_varint_scan(u, i + 1)->Ok_0;
        assert(pow128((9 - i) as nat) == 128 * pow128((9 - (i + 1)) as nat));
        assert(v == (t[0] - 128) + 128 * w);
        assert(v % 128 == t[0] - 128 && v / 128 == w);
        assert(t.take(n as int) =~= seq![t[0]] + u.take(m as int));
    }
}

/// Decoding the encoding of any 64-bit value gives the value back and
/// consumes exactly the encoding, whatever follows it.
pub proof fn lemma_varint_round_trip(v: u64, rest: Seq<u8>)
    ensures
        spec_varint_decode(spec_varint(v as nat) + rest) == Ok::<(nat, nat), WireError>(
            (v as nat, spec_varint(v as nat).len()),
        ),
{
    lemma_pow128_nine();
    lemma_varint_scan_encoding(v as nat, 0, rest);
}

/// Every input that decodes starts with the canonical encoding of the value
/// it decodes to, and that value fits 64 bits: the decoder accepts exactly one
/// encoding per value.
pub proof fn lemma_varint_decode_canonical(t: Seq<u8>)
    requires
        spec_varint_decode(t) is Ok,
    ensures
        ({
            let (v, n) = spec_varint_decode(t)->Ok_0;
            &&& v <= u64::MAX
            &&& 1 <= n <= t.len()
            &&& t.take(n as int) == spec_varint(v)
        }),
{
    lemma_pow128_nine();
    lemma_varint_scan_canonical(t, 0);
}

/// The number of bytes that the canonical encoding of `value` takes.
pub fn varint_len(value: u64) -> (r: usize)
    ensures
        r == spec_varint(value as nat).len(),
        r == spec_varint_groups(value as nat),
        1 <= r <= 10,
{
    proof {
        lemma_varint_len_is_groups(value as nat);
        lemma_varint_shape(value as nat);
        reveal_with_fuel(pow128, 11);
        lemma_varint_len_bound(value as nat, 10);
    }
    let mut v: u64 = value;
    let mut len: usize = 1;
    while v >= 0x80
        invariant
            1 <= len <= 10,
            len - 1 + spec_varint(v as nat).len() == spec_varint(value as nat).len(),
            spec_varint(value as nat).len() <= 10,
        decreases v,
    {
        proof {
            lemma_varint_shape((v / 128) as nat);
        }
        v = v / 128;
        len = len + 1;
    }
    len
}

/// Writes the canonical encoding of `value`.
fn encode_varint(value: u64) -> (out: Vec<u8>)
    ensures
        out@ == spec_varint(value as nat),
{
    let mut out: Vec<u8> = Vec::new();
    let mut v: u64 = value;
    while v >= 0x80
        invariant
            out@ + spec_varint(v as nat) == spec_varint(value as nat),
        decreases v,
    {
        let byte: u8 = (v % 128 + 128) as u8;
        let ghost before = out@;
        out.push(byte);
        assert(before + spec_varint(v as nat) =~= out@ + spec_varint((v / 128) as nat));
        v = v / 128;
    }
    let ghost before = out@;
    out.push(v as u8);
    assert(out@ =~= before + spec_varint(v as nat));
    out
}

// ---------------------------------------------------------------------------
// Fixed-width little-endian numbers
// ---------------------------------------------------------------------------

/// `256` raised to the power `n`.
pub open spec fn pow256(n: nat) -> nat
    decreases n,
{
    if n == 0 {
        1
    } else {
        256 * pow256((n - 1) as nat)
    }
}

/// The `n` lowest bytes of `v`, least significant first.
pub open spec fn spec_le(v: nat, n: nat) -> Seq<u8>
    decreases n,
{
    if n == 0 {
        seq![]
    } else {
        seq![(v % 256) as u8] + spec_le(v / 256, (n - 1) as nat)
    }
}

/// The number whose bytes, least significant first, are `s`.
pub open spec fn spec_le_value(s: Seq<u8>) -> nat
    decreases s.len(),
{
    if s.len() == 0 {
        0
    } else {
        s[0] as nat + 256 * spec_le_value(s.drop_first())
    }
}

pub proof fn lemma_le_len(v: nat, n: nat)
    ensures
        spec_le(v, n).len() == n,
    decreases n,
{
    if n > 0 {
        lemma_le_len(v / 256, (n - 1) as nat);
    }
}

/// Reading back the `n` lowest bytes of a number below `256^n` gives the
/// number.
pub proof fn lemma_le_round_trip(v: nat, n: nat)
    requires
        v < pow256(n),
    ensures
        spec_le_value(spec_le(v, n)) == v,
        spec_le(v, n).len() == n,
    decreases n,
{
    lemma_le_len(v, n);
    if n > 0 {
        assert(v / 256 < pow256((n - 1) as nat));
        lemma_le_round_trip(v / 256, (n - 1) as nat);
        assert(spec_le(v, n).drop_first() =~= spec_le(v / 256, (n - 1) as nat));
    }
}

/// The value of `n` bytes is below `256^n`, and writing it back gives the
/// bytes.
pub proof fn lemma_le_value_bytes(s: Seq<u8>)
    ensures
        spec_le_value(s) < pow256(s.len()),
        spec_le(spec_le_value(s), s.len()) == s,
    decreases s.len(),
{
    if s.len() > 0 {
        let u = s.drop_first();
        lemma_le_value_bytes(u);
        let v = spec_le_value(s);
        assert(v % 256 == s[0] && v / 256 == spec_le_value(u));
        assert(spec_le(v, s.len()) =~= seq![s[0]] + spec_le(spec_le_value(u), u.len()));
        assert(spec_le(spec_le_value(u), u.len()) == u);
        assert(seq![s[0]] + u =~= s);
    }
}

pub proof fn lemma_pow256_values()
    ensures
        pow256(1) == 0x100,
        pow256(2) == 0x1_0000,
        pow256(4) == 0x1_0000_0000,
        pow256(8) == 0x1_0000_0000_0000_0000,
        pow256(16) == 0x1_0000_0000_0000_0000_0000_0000_0000_0000,
{
    reveal_with_fuel(pow256, 17);
}

/// The `width` lowest bytes of `value`, least significant first.
fn le_bytes(value: u128, width: usize) -> (out: Vec<u8>)
    requires
        width <= 16,
    ensures
        out@ == spec_le(value as nat, width as nat),
{
    let mut out: Vec<u8> = Vec::new();
    let mut v: u128 = value;
    let mut i: usize = 0;
    while i < width
        invariant
            i <= width,
            out@ + spec_le(v as nat, (width - i) as nat) == spec_le(value as nat, width as nat),
        decreases width - i,
    {
        let ghost before = out@;
        out.push((v % 256) as u8);
        assert(before + spec_le(v as nat, (width - i) as nat) =~= out@ + spec_le(
            (v / 256) as nat,
            (width - (i + 1)) as nat,
        ));
        v = v / 256;
        i = i + 1;
    }
    assert(out@ =~= spec_le(value as nat, width as nat));
    out
}

/// The number whose bytes, least significant first, are `bytes`.
fn le_value(bytes: &[u8]) -> (r: u128)
    requires
        bytes@.len() <= 16,
    ensures
        r as nat == spec_le_value(bytes@),
{
    proof {
        lemma_pow256_values();
    }
    let mut r: u128 = 0;
    let mut i: usize = bytes.len();
    while i > 0
        invariant
            i <= bytes@.len() <= 16,
            r as nat == spec_le_value(bytes@.skip(i as int)),
            pow256(16) == 0x1_0000_0000_0000_0000_0000_0000_0000_0000,
        decreases i,
    {
        proof {
            lemma_le_value_bytes(bytes@.skip(i as int));
            lemma_pow256_monotone((bytes@.len() - i) as nat, 15);
            assert(bytes@.skip(i - 1).drop_first() =~= bytes@.skip(i as int));
        }
        assert(r < pow256(15)) by {
            assert(bytes@.skip(i as int).len() == bytes@.len() - i);
        }
        assert(pow256(16) == 256 * pow256(15));
        r = (bytes[i - 1] as u128) + 256 * r;
        i = i - 1;
    }
    assert(bytes@.skip(0) =~= bytes@);
    r
}

proof fn lemma_pow256_monotone(a: nat, b: nat)
    requires
        a <= b,
    ensures
        1 <= pow256(a) <= pow256(b),
    decreases b,
{
    if b > 0 {
        if a < b {
            lemma_pow256_monotone(a, (b - 1) as nat);
        }
        lemma_pow256_monotone(0, (b - 1) as nat);
    }
}

// ---------------------------------------------------------------------------
// Encoder
// ---------------------------------------------------------------------------

/// What appending `additional` bytes to `len` bytes gives under a limit of
/// `max` bytes: room, a packet over the limit, or a length past `usize`.
pub open spec fn spec_room(len: nat, additional: nat, max: nat) -> Result<(), WireError> {
    if len + additional > usize::MAX {
        Err(WireError::IntegerOverflow)
    } else if len + additional > max {
        Err(WireError::PacketTooLarge)
    } else {
        Ok(())
    }
}

/// Appending `piece` to `before` under the limit `max` gives `r` and leaves
/// `after`: all of `piece` on success, nothing on failure.
pub open spec fn spec_appended(
    before: Seq<u8>,
    max: nat,
    piece: Seq<u8>,
    r: Result<(), WireError>,
    after: Seq<u8>,
) -> bool {
    &&& r == spec_room(before.len(), piece.len(), max)
    &&& after == if r is Ok {
        before + piece
    } else {
        before
    }
}

/// Appending one byte: it fits while the packet is below the limit.
pub open spec fn spec_pushed(
    before: Seq<u8>,
    max: nat,
    byte: u8,
    r: Result<(), WireError>,
    after: Seq<u8>,
) -> bool {
    &&& r == if before.len() < max {
        Ok::<(), WireError>(())
    } else {
        Err(WireError::PacketTooLarge)
    }
    &&& after == if r is Ok {
        before.push(byte)
    } else {
        before
    }
}

/// Appending `piece` with an encoder whose bytes were `before` left `after`
/// and returned `r`: all of `piece` exactly when it fits the limit `max`, and
/// otherwise a prefix of it and an error about the size, which is
/// `PacketTooLarge` unless the whole would not even fit in `usize`.
pub open spec fn spec_encoded(
    before: Seq<u8>,
    max: nat,
    piece: Seq<u8>,
    r: Result<(), WireError>,
    after: Seq<u8>,
) -> bool {
    &&& r is Ok <==> before.len() + piece.len() <= max
    &&& r is Ok ==> after == before + piece
    &&& r is Err ==> {
        &&& before.len() <= after.len() <= before.len() + piece.len()
        &&& after == (before + piece).take(after.len() as int)
        &&& (r->Err_0 == WireError::PacketTooLarge || r->Err_0 == WireError::IntegerOverflow)
        &&& before.len() + piece.len() <= usize::MAX ==> r->Err_0 == WireError::PacketTooLarge
    }
}

pub proof fn lemma_appended_is_encoded(
    before: Seq<u8>,
    max: nat,
    piece: Seq<u8>,
    r: Result<(), WireError>,
    after: Seq<u8>,
)
    requires
        max <= usize::MAX,
        spec_appended(before, max, piece, r, after),
    ensures
        spec_encoded(before, max, piece, r, after),
{
    if r is Err {
        assert((before + piece).take(before.len() as int) =~= before);
    }
}

pub proof fn lemma_pushed_is_encoded(
    before: Seq<u8>,
    max: nat,
    b: u8,
    r: Result<(), WireError>,
    after: Seq<u8>,
)
    requires
        spec_pushed(before, max, b, r, after),
    ensures
        spec_encoded(before, max, seq![b], r, after),
{
    assert(before.push(b) =~= before + seq![b]);
    if r is Err {
        assert((before + seq![b]).take(before.len() as int) =~= before);
    }
}

/// Builds a packet in one buffer, refusing to grow past its size limit.
pub struct Encoder {
    bytes: Vec<u8>,
    max_size: usize,
}

impl View for Encoder {
    type V = Seq<u8>;

    closed spec fn view(&self) -> Seq<u8> {
        self.bytes@
    }
}

impl Encoder {
    /// The size limit of the packet.
    pub closed spec fn max_size(&self) -> nat {
        self.max_size as nat
    }

    /// The size limit is a `usize`.
    pub proof fn lemma_max_size_fits(&self)
        ensures
            self.max_size() <= usize::MAX,
    {
    }

    pub fn new(max_size: usize) -> (r: Self)
        ensures
            r@ == Seq::<u8>::empty(),
            r.max_size() == max_size,
    {
        Self::with_capacity(max_size, 128)
    }

    pub fn with_capacity(max_size: usize, capacity: usize) -> (r: Self)
        ensures
            r@ == Seq::<u8>::empty(),
            r.max_size() == max_size,
    {
        let reserved: usize = if capacity < max_size {
            capacity
        } else {
            max_size
        };
        Encoder { bytes: Vec::with_capacity(reserved), max_size }
    }

    /// Reuses the allocation of `bytes` for a new packet.
    pub fn with_buffer(max_size: usize, bytes: Vec<u8>) -> (r: Result<Self, WireError>)
        ensures
            bytes@.len() > max_size ==> r == Err::<Self, WireError>(WireError::PacketTooLarge),
            bytes@.len() <= max_size ==> (r matches Ok(e) && e@ == Seq::<u8>::empty()
                && e.max_size() == max_size),
    {
        let mut bytes = bytes;
        if bytes.len() > max_size {
            return Err(WireError::PacketTooLarge);
        }
        bytes.clear();
        Ok(Encoder { bytes, max_size })
    }

    pub fn finish(self) -> (r: Result<Vec<u8>, WireError>)
        ensures
            r matches Ok(v) && v@ == self@,
    {
        Ok(self.bytes)
    }

    pub fn as_bytes(&self) -> (r: &[u8])
        ensures
            r@ == self@,
    {
        self.bytes.as_slice()
    }

    /// Clears the encoded packet while retaining the allocation for reuse.
    pub fn reset(&mut self)
        ensures
            final(self)@ == Seq::<u8>::empty(),
            final(self).max_size() == old(self).max_size(),
    {
        self.bytes.clear();
    }

    pub fn len(&self) -> (r: usize)
        ensures
            r == self@.len(),
    {
        self.bytes.len()
    }

    pub fn is_empty(&self) -> (r: bool)
        ensures
            r == (self@.len() == 0),
    {
        self.bytes.len() == 0
    }

    fn push(&mut self, byte: u8) -> (r: Result<(), WireError>)
        ensures
            final(self).max_size() == old(self).max_size(),
            spec_pushed(old(self)@, old(self).max_size(), byte, r, final(self)@),
    {
        if self.bytes.len() >= self.max_size {
            return Err(WireError::PacketTooLarge);
        }
        self.bytes.push(byte);
        Ok(())
    }

    fn ensure(&self, additional: usize) -> (r: Result<(), WireError>)
        ensures
            r == spec_room(self@.len(), additional as nat, self.max_size()),
    {
        match self.bytes.len().checked_add(additional) {
            Some(end) => {
                if end <= self.max_size {
                    Ok(())
                } else {
                    Err(WireError::PacketTooLarge)
                }
            },
            None => Err(WireError::IntegerOverflow),
        }
    }

    fn extend(&mut self, bytes: &[u8]) -> (r: Result<(), WireError>)
        ensures
            final(self).max_size() == old(self).max_size(),
            spec_appended(old(self)@, old(self).max_size(), bytes@, r, final(self)@),
    {
        self.ensure(bytes.len())?;
        self.bytes.extend_from_slice(bytes);
        assert(self.bytes@ =~= old(self)@ + bytes@);
        Ok(())
    }

    /// Appends the canonical variable-length encoding of `value`.
    pub fn varint(&mut self, value: u64) -> (r: Result<(), WireError>)
        ensures
            final(self).max_size() == old(self).max_size(),
            value < 128 ==> spec_pushed(
                old(self)@,
                old(self).max_size(),
                value as u8,
                r,
                final(self)@,
            ),
            value >= 128 ==> spec_appended(
                old(self)@,
                old(self).max_size(),
                spec_varint(value as nat),
                r,
                final(self)@,
            ),
            spec_encoded(old(self)@, old(self).max_size(), spec_varint(value as nat), r, final(self)@),
    {
        proof {
            old(self).lemma_max_size_fits();
        }
        if value < 0x80 {
            let r = self.push(value as u8);
            proof {
                lemma_pushed_is_encoded(old(self)@, old(self).max_size(), value as u8, r, self@);
            }
            return r;
        }
        let encoded = encode_varint(value);
        let r = self.extend(encoded.as_slice());
        proof {
            lemma_appended_is_encoded(old(self)@, old(self).max_size(), encoded@, r, self@);
        }
        r
    }

    fn fixed(&mut self, value: u128, width: usize) -> (r: Result<(), WireError>)
        requires
            width <= 16,
        ensures
            final(self).max_size() == old(self).max_size(),
            spec_appended(
                old(self)@,
                old(self).max_size(),
                spec_le(value as nat, width as nat),
                r,
                final(self)@,
            ),
    {
        let encoded = le_bytes(value, width);
        self.extend(encoded.as_slice())
    }

    #[inline]
    pub fn u8(&mut self, value: u8) -> (r: Result<(), WireError>)
        ensures
            final(self).max_size() == old(self).max_size(),
            spec_pushed(old(self)@, old(self).max_size(), value, r, final(self)@),
    {
        self.push(value)
    }

    /// Appends the two bytes of `value`, least significant first.
    #[inline]
    pub fn u16(&mut self, value: u16) -> (r: Result<(), WireError>)
        ensures
            final(self).max_size() == old(self).max_size(),
            spec_appended(old(self)@, old(self).max_size(), spec_le(value as nat, 2), r, final(self)@),
    {
        self.fixed(value as u128, 2)
    }

    #[inline]
    pub fn u32(&mut self, value: u32) -> (r: Result<(), WireError>)
        ensures
            final(self).max_size() == old(self).max_size(),
            spec_appended(old(self)@, old(self).max_size(), spec_le(value as nat, 4), r, final(self)@),
    {
        self.fixed(value as u128, 4)
    }

    #[inline]
    pub fn u64(&mut self, value: u64) -> (r: Result<(), WireError>)
        ensures
            final(self).max_size() == old(self).max_size(),
            spec_appended(old(self)@, old(self).max_size(), spec_le(value as nat, 8), r, final(self)@),
    {
        self.fixed(value as u128, 8)
    }

    /// Appends the two's-complement bytes of `value`, least significant first.
    pub fn i32(&mut self, value: i32) -> (r: Result<(), WireError>)
        ensures
            final(self).max_size() == old(self).max_size(),
            spec_appended(
                old(self)@,
                old(self).max_size(),
                spec_le((value as u32) as nat, 4),
                r,
                final(self)@,
            ),
    {
        self.fixed((value as u32) as u128, 4)
    }

    /// Appends `1` for true and `0` for false.
    pub fn bool(&mut self, value: bool) -> (r: Result<(), WireError>)
        ensures
            final(self).max_size() == old(self).max_size(),
            spec_pushed(
                old(self)@,
                old(self).max_size(),
                if value {
                    1u8
                } else {
                    0u8
                },
                r,
                final(self)@,
            ),
    {
        let byte: u8 = if value {
            1
        } else {
            0
        };
        self.u8(byte)
    }

    pub fn u128(&mut self, value: u128) -> (r: Result<(), WireError>)
        ensures
            final(self).max_size() == old(self).max_size(),
            spec_appended(old(self)@, old(self).max_size(), spec_le(value as nat, 16), r, final(self)@),
    {
        self.fixed(value, 16)
    }

    pub fn i8(&mut self, value: i8) -> (r: Result<(), WireError>)
        ensures
            final(self).max_size() == old(self).max_size(),
            spec_pushed(old(self)@, old(self).max_size(), value as u8, r, final(self)@),
    {
        self.u8(value as u8)
    }

    pub fn i16(&mut self, value: i16) -> (r: Result<(), WireError>)
        ensures
            final(self).max_size() == old(self).max_size(),
            spec_appended(
                old(self)@,
                old(self).max_size(),
                spec_le((value as u16) as nat, 2),
                r,
                final(self)@,
            ),
    {
        self.fixed((value as u16) as u128, 2)
    }

    pub fn i64(&mut self, value: i64) -> (r: Result<(), WireError>)
        ensures
            final(self).max_size() == old(self).max_size(),
            spec_appended(
                old(self)@,
                old(self).max_size(),
                spec_le((value as u64) as nat, 8),
                r,
                final(self)@,
            ),
    {
        self.fixed((value as u64) as u128, 8)
    }

    pub fn i128(&mut self, value: i128) -> (r: Result<(), WireError>)
        ensures
            final(self).max_size() == old(self).max_size(),
            spec_appended(
                old(self)@,
                old(self).max_size(),
                spec_le((value as u128) as nat, 16),
                r,
                final(self)@,
            ),
    {
        self.fixed(value as u128, 16)
    }

    /// Appends the length of `value` as a variable-length integer followed by
    /// `value` itself; on failure nothing is appended, not even the length.
    #[inline]
    pub fn bytes(&mut self, value: &[u8]) -> (r: Result<(), WireError>)
        ensures
            final(self).max_size() == old(self).max_size(),
            spec_appended(
                old(self)@,
                old(self).max_size(),
                spec_varint(value@.len()) + value@,
                r,
                final(self)@,
            ),
    {
        let len: u64 = value.len() as u64;
        let prefix = encode_varint(len);
        let total = match prefix.len().checked_add(value.len()) {
            Some(total) => total,
            None => return Err(WireError::IntegerOverflow),
        };
        self.ensure(total)?;
        self.bytes.extend_from_slice(prefix.as_slice());
        self.bytes.extend_from_slice(value);
        assert(self.bytes@ =~= old(self)@ + (spec_varint(value@.len()) + value@));
        Ok(())
    }

    /// Appends `value` as a length-delimited field after checking that it is
    /// `expected` bytes long.
    pub fn bytes_exact(&mut self, value: &[u8], expected: usize) -> (r: Result<(), WireError>)
        ensures
            final(self).max_size() == old(self).max_size(),
            value@.len() != expected ==> r == Err::<(), WireError>(WireError::MalformedConstructor)
                && final(self)@ == old(self)@,
            value@.len() == expected ==> spec_appended(
                old(self)@,
                old(self).max_size(),
                spec_varint(value@.len()) + value@,
                r,
                final(self)@,
            ),
    {
        if value.len() != expected {
            return Err(WireError::MalformedConstructor);
        }
        self.bytes(value)
    }

    /// Appends the encoding of `value`.
    pub fn value<T: WireCodec>(&mut self, value: &T) -> (r: Result<(), WireError>)
        ensures
            final(self).max_size() == old(self).max_size(),
            spec_encoded(old(self)@, old(self).max_size(), value.spec_wire(), r, final(self)@),
    {
        value.encode(self)
    }

    /// Appends `value` as it is, with no length.
    pub fn raw(&mut self, value: &[u8]) -> (r: Result<(), WireError>)
        ensures
            final(self).max_size() == old(self).max_size(),
            spec_appended(old(self)@, old(self).max_size(), value@, r, final(self)@),
    {
        self.extend(value)
    }

    /// Appends the `N` bytes of `value` as they are, with no length.
    pub fn fixed_bytes<const N: usize>(&mut self, value: &[u8; N]) -> (r: Result<(), WireError>)
        ensures
            final(self).max_size() == old(self).max_size(),
            spec_appended(old(self)@, old(self).max_size(), value@, r, final(self)@),
    {
        self.raw(value.as_slice())
    }
}


// ---------------------------------------------------------------------------
// What a decoder reads
// ---------------------------------------------------------------------------

/// Taking `len` bytes at `pos` of `input`: the bytes, or why they are not
/// there (a position past `usize`, or a packet that ends first).
pub open spec fn spec_take(input: Seq<u8>, pos: nat, len: nat) -> Result<Seq<u8>, WireError> {
    if pos + len > usize::MAX {
        Err(WireError::IntegerOverflow)
    } else if pos + len > input.len() {
        Err(WireError::UnexpectedEof)
    } else {
        Ok(input.subrange(pos as int, (pos + len) as int))
    }
}

/// Reading the byte at `pos`.
pub open spec fn spec_byte(input: Seq<u8>, pos: nat) -> Result<u8, WireError> {
    if pos < input.len() {
        Ok(input[pos as int])
    } else {
        Err(WireError::UnexpectedEof)
    }
}

/// Reading an `n`-byte little-endian number at `pos`.
pub open spec fn spec_fixed(input: Seq<u8>, pos: nat, n: nat) -> Result<nat, WireError> {
    match spec_take(input, pos, n) {
        Ok(b) => Ok(spec_le_value(b)),
        Err(e) => Err(e),
    }
}

/// Reading a length-delimited field at `pos`: its bytes and how many bytes
/// the length and the bytes take together. The length must fit `usize` and
/// the byte-field limit.
pub open spec fn spec_field(input: Seq<u8>, pos: nat, limits: DecodeLimits) -> Result<
    (Seq<u8>, nat),
    WireError,
> {
    match spec_varint_decode(input.skip(pos as int)) {
        Err(e) => Err(e),
        Ok((len, n)) => if len > usize::MAX {
            Err(WireError::IntegerOverflow)
        } else if len > limits.max_bytes_field_size {
            Err(WireError::PacketTooLarge)
        } else {
            match spec_take(input, pos + n, len) {
                Ok(b) => Ok((b, n + len)),
                Err(e) => Err(e),
            }
        },
    }
}

/// Reading a length-delimited UTF-8 string at `pos`: its characters and the
/// bytes it takes.
pub open spec fn spec_string_field(input: Seq<u8>, pos: nat, limits: DecodeLimits) -> Result<
    (Seq<char>, nat),
    WireError,
> {
    match spec_field(input, pos, limits) {
        Err(e) => Err(e),
        Ok((b, n)) => if vstd::utf8::valid_utf8(b) {
            Ok((vstd::utf8::decode_utf8(b), n))
        } else {
            Err(WireError::InvalidUtf8)
        },
    }
}

/// Reading the element count of a collection at `pos`: the count and the
/// bytes it takes. The count must fit `usize` and the collection limit, and,
/// when every element takes `fixed` bytes, the elements must fit the rest of
/// the packet.
pub open spec fn spec_count(
    input: Seq<u8>,
    pos: nat,
    limits: DecodeLimits,
    fixed: Option<nat>,
) -> Result<(nat, nat), WireError> {
    match spec_varint_decode(input.skip(pos as int)) {
        Err(e) => Err(e),
        Ok((count, n)) => if count > usize::MAX {
            Err(WireError::IntegerOverflow)
        } else if count > limits.max_collection_items {
            Err(WireError::PacketTooLarge)
        } else {
            match fixed {
                Some(size) => if count * size > usize::MAX {
                    Err(WireError::IntegerOverflow)
                } else if count * size > input.len() - (pos + n) {
                    Err(WireError::UnexpectedEof)
                } else {
                    Ok((count, n))
                },
                None => Ok((count, n)),
            }
        },
    }
}

/// A variable-length integer that can be read from `t` reads the same
/// from `t` followed by anything, and lies within `t`.
pub proof fn lemma_varint_scan_extends(t: Seq<u8>, more: Seq<u8>, i: nat)
    requires
        spec_varint_scan(t, i) is Ok,
    ensures
        spec_varint_scan(t + more, i) == spec_varint_scan(t, i),
        spec_varint_scan(t, i) matches Ok((_, n)) && n <= t.len(),
    decreases t.len(),
{
    assert((t + more)[0] == t[0]);
    if t[0] >= 128 && i < 9 {
        assert((t + more).drop_first() =~= t.drop_first() + more);
        lemma_varint_scan_extends(t.drop_first(), more, i + 1);
    }
}

/// Bytes that can be taken from `input` are taken alike from `input`
/// followed by anything.
pub proof fn lemma_take_extends(input: Seq<u8>, more: Seq<u8>, pos: nat, len: nat)
    requires
        spec_take(input, pos, len) is Ok,
    ensures
        spec_take(input + more, pos, len) == spec_take(input, pos, len),
        pos + len <= input.len(),
{
    assert((input + more).subrange(pos as int, (pos + len) as int) =~= input.subrange(
        pos as int,
        (pos + len) as int,
    ));
}

pub proof fn lemma_byte_extends(input: Seq<u8>, more: Seq<u8>, pos: nat)
    requires
        spec_byte(input, pos) is Ok,
    ensures
        spec_byte(input + more, pos) == spec_byte(input, pos),
        pos + 1 <= input.len(),
{
}

pub proof fn lemma_fixed_extends(input: Seq<u8>, more: Seq<u8>, pos: nat, n: nat)
    requires
        spec_fixed(input, pos, n) is Ok,
    ensures
        spec_fixed(input + more, pos, n) == spec_fixed(input, pos, n),
        pos + n <= input.len(),
{
    lemma_take_extends(input, more, pos, n);
}

pub proof fn lemma_field_extends(input: Seq<u8>, more: Seq<u8>, pos: nat, limits: DecodeLimits)
    requires
        pos <= input.len(),
        spec_field(input, pos, limits) is Ok,
    ensures
        spec_field(input + more, pos, limits) == spec_field(input, pos, limits),
        spec_field(input, pos, limits) matches Ok((_, n)) && pos + n <= input.len(),
{
    assert((input + more).skip(pos as int) =~= input.skip(pos as int) + more);
    lemma_varint_scan_extends(input.skip(pos as int), more, 0);
    let (len, n) = spec_varint_decode(input.skip(pos as int))->Ok_0;
    lemma_take_extends(input, more, pos + n, len);
}

pub proof fn lemma_string_field_extends(
    input: Seq<u8>,
    more: Seq<u8>,
    pos: nat,
    limits: DecodeLimits,
)
    requires
        pos <= input.len(),
        spec_string_field(input, pos, limits) is Ok,
    ensures
        spec_string_field(input + more, pos, limits) == spec_string_field(input, pos, limits),
        spec_string_field(input, pos, limits) matches Ok((_, n)) && pos + n <= input.len(),
{
    lemma_field_extends(input, more, pos, limits);
}

pub proof fn lemma_count_extends(
    input: Seq<u8>,
    more: Seq<u8>,
    pos: nat,
    limits: DecodeLimits,
    fixed: Option<nat>,
)
    requires
        pos <= input.len(),
        spec_count(input, pos, limits, fixed) is Ok,
    ensures
        spec_count(input + more, pos, limits, fixed) == spec_count(input, pos, limits, fixed),
        spec_count(input, pos, limits, fixed) matches Ok((_, n)) && pos + n <= input.len(),
{
    assert((input + more).skip(pos as int) =~= input.skip(pos as int) + more);
    lemma_varint_scan_extends(input.skip(pos as int), more, 0);
}

/// `std::str::from_utf8`: the text that `bytes` encode, when they are valid
/// UTF-8. Claimed: a result exactly when the bytes are valid UTF-8, and the
/// text's own UTF-8 bytes are then `bytes`.
#[verifier::external_body]
fn str_from_utf8<'a>(bytes: &'a [u8]) -> (r: Option<&'a str>)
    ensures
        r is Some <==> vstd::utf8::valid_utf8(bytes@),
        r matches Some(s) ==> s.spec_bytes() == bytes@,
{
    std::str::from_utf8(bytes).ok()
}

/// `<[u8; N]>::try_from(&[u8])`: the array holding `bytes`, when there are
/// exactly `N` of them. Claimed: a result exactly when the length is `N`, and
/// it holds the same bytes in the same order.
#[verifier::external_body]
fn slice_to_array<const N: usize>(bytes: &[u8]) -> (r: Option<[u8; N]>)
    ensures
        r is Some <==> bytes@.len() == N,
        r matches Some(a) ==> a@ == bytes@,
{
    <[u8; N]>::try_from(bytes).ok()
}

// ---------------------------------------------------------------------------
// Decoder
// ---------------------------------------------------------------------------

/// Reads a packet front to back under a set of limits.
pub struct Decoder<'a> {
    bytes: &'a [u8],
    position: usize,
    limits: DecodeLimits,
}

impl<'a> Decoder<'a> {
    /// The whole packet.
    pub closed spec fn input(&self) -> Seq<u8> {
        self.bytes@
    }

    /// How many bytes have been read.
    pub closed spec fn pos(&self) -> nat {
        self.position as nat
    }

    pub closed spec fn limits(&self) -> DecodeLimits {
        self.limits
    }

    /// The limits the decoder enforces.
    pub(crate) fn decode_limits(&self) -> (r: DecodeLimits)
        ensures
            r == self.limits(),
    {
        self.limits
    }

    /// The read position lies within the packet, and the packet within its
    /// limit.
    pub closed spec fn wf(&self) -> bool {
        &&& self.position <= self.bytes@.len()
        &&& self.bytes@.len() <= self.limits.max_packet_size
    }

    /// A packet being read fits its limit.
    pub proof fn lemma_within_limit(&self)
        requires
            self.wf(),
        ensures
            self.input().len() <= self.limits().max_packet_size,
    {
    }

    /// A decoder at the start of `bytes`, which fit `limits`.
    pub(crate) fn over(bytes: &'a [u8], limits: DecodeLimits) -> (r: Self)
        requires
            bytes@.len() <= limits.max_packet_size,
        ensures
            r.wf(),
            r.input() == bytes@,
            r.pos() == 0,
            r.limits() == limits,
    {
        Decoder { bytes, position: 0, limits }
    }

    /// How many bytes have been read.
    pub(crate) fn position(&self) -> (r: usize)
        ensures
            r == self.pos(),
    {
        self.position
    }

    /// The whole packet.
    pub(crate) fn packet(&self) -> (r: &'a [u8])
        ensures
            r@ == self.input(),
    {
        self.bytes
    }

    /// The bytes that are left to read.
    pub open spec fn rest(&self) -> Seq<u8> {
        self.input().skip(self.pos() as int)
    }

    pub proof fn lemma_rest_len(&self)
        requires
            self.wf(),
        ensures
            self.pos() <= self.input().len(),
            self.rest().len() == self.input().len() - self.pos(),
    {
    }

    /// The decoder reads the same packet under the same limits as `other`.
    pub open spec fn same_packet(&self, other: &Self) -> bool {
        &&& self.wf()
        &&& self.input() == other.input()
        &&& self.limits() == other.limits()
    }

    /// A decoder whose byte fields may be as large as the packet, with the
    /// default collection limit.
    pub fn new(bytes: &'a [u8], max_size: usize) -> (r: Result<Self, WireError>)
        ensures
            bytes@.len() > max_size ==> r == Err::<Self, WireError>(WireError::PacketTooLarge),
            bytes@.len() <= max_size ==> (r matches Ok(d) && d.wf() && d.input() == bytes@
                && d.pos() == 0 && d.limits() == (DecodeLimits {
                max_packet_size: max_size,
                max_collection_items: MAX_COLLECTION_ITEMS,
                max_bytes_field_size: max_size,
            })),
    {
        let limits = DecodeLimits {
            max_packet_size: max_size,
            max_collection_items: MAX_COLLECTION_ITEMS,
            max_bytes_field_size: max_size,
        };
        Self::with_limits(bytes, limits)
    }

    pub fn with_limits(bytes: &'a [u8], limits: DecodeLimits) -> (r: Result<Self, WireError>)
        ensures
            bytes@.len() > limits.max_packet_size ==> r == Err::<Self, WireError>(
                WireError::PacketTooLarge,
            ),
            bytes@.len() <= limits.max_packet_size ==> (r matches Ok(d) && d.wf() && d.input()
                == bytes@ && d.pos() == 0 && d.limits() == limits),
    {
        if bytes.len() > limits.max_packet_size {
            Err(WireError::PacketTooLarge)
        } else {
            Ok(Decoder { bytes, position: 0, limits })
        }
    }

    pub fn is_finished(&self) -> (r: bool)
        requires
            self.wf(),
        ensures
            r == (self.pos() == self.input().len()),
            r == (self.rest().len() == 0),
    {
        self.position == self.bytes.len()
    }

    pub fn remaining(&self) -> (r: usize)
        requires
            self.wf(),
        ensures
            r == self.rest().len(),
    {
        self.bytes.len() - self.position
    }

    fn read_u8(&mut self) -> (r: Result<u8, WireError>)
        requires
            old(self).wf(),
        ensures
            final(self).same_packet(old(self)),
            old(self).rest().len() == 0 ==> r == Err::<u8, WireError>(WireError::UnexpectedEof)
                && final(self).pos() == old(self).pos(),
            old(self).rest().len() > 0 ==> r == Ok::<u8, WireError>(old(self).rest()[0])
                && final(self).pos() == old(self).pos() + 1,
    {
        if self.position < self.bytes.len() {
            let value = self.bytes[self.position];
            self.position = self.position + 1;
            Ok(value)
        } else {
            Err(WireError::UnexpectedEof)
        }
    }

    /// Reads the next `len` bytes as a view into the packet.
    fn read_slice(&mut self, len: usize) -> (r: Result<&'a [u8], WireError>)
        requires
            old(self).wf(),
        ensures
            final(self).same_packet(old(self)),
            match spec_take(old(self).input(), old(self).pos(), len as nat) {
                Err(e) => r == Err::<&'a [u8], WireError>(e) && final(self).pos() == old(self).pos(),
                Ok(b) => (r matches Ok(s) && s@ == b) && final(self).pos() == old(self).pos() + len,
            },
    {
        let end = match self.position.checked_add(len) {
            Some(end) => end,
            None => return Err(WireError::IntegerOverflow),
        };
        if end > self.bytes.len() {
            return Err(WireError::UnexpectedEof);
        }
        let slice = vstd::slice::slice_subrange(self.bytes, self.position, end);
        
        self.position = end;
        Ok(slice)
    }

    /// The decoder has moved `n` bytes on from `old` in the same packet.
    pub open spec fn advanced(&self, old: &Self, n: nat) -> bool {
        &&& self.same_packet(old)
        &&& self.pos() == old.pos() + n
    }

    fn read_fixed(&mut self, width: usize) -> (r: Result<u128, WireError>)
        requires
            old(self).wf(),
            width <= 16,
        ensures
            final(self).same_packet(old(self)),
            match spec_fixed(old(self).input(), old(self).pos(), width as nat) {
                Ok(v) => r == Ok::<u128, WireError>(v as u128) && final(self).advanced(
                    old(self),
                    width as nat,
                ) && v < pow256(width as nat),
                Err(e) => r == Err::<u128, WireError>(e) && final(self).pos() == old(self).pos(),
            },
    {
        let bytes = self.read_slice(width)?;
        proof {
            lemma_le_value_bytes(bytes@);
        }
        Ok(le_value(bytes))
    }

    pub fn u8(&mut self) -> (r: Result<u8, WireError>)
        requires
            old(self).wf(),
        ensures
            final(self).same_packet(old(self)),
            match spec_byte(old(self).input(), old(self).pos()) {
                Ok(v) => r == Ok::<u8, WireError>(v) && final(self).advanced(old(self), 1),
                Err(e) => r == Err::<u8, WireError>(e) && final(self).pos() == old(self).pos(),
            },
    {
        self.read_u8()
    }

    /// Reads two bytes as a number, least significant first.
    pub fn u16(&mut self) -> (r: Result<u16, WireError>)
        requires
            old(self).wf(),
        ensures
            final(self).same_packet(old(self)),
            match spec_fixed(old(self).input(), old(self).pos(), 2) {
                Ok(v) => r == Ok::<u16, WireError>(v as u16) && final(self).advanced(old(self), 2),
                Err(e) => r == Err::<u16, WireError>(e) && final(self).pos() == old(self).pos(),
            },
    {
        proof {
            lemma_pow256_values();
        }
        let v = self.read_fixed(2)?;
        Ok(v as u16)
    }

    pub fn u32(&mut self) -> (r: Result<u32, WireError>)
        requires
            old(self).wf(),
        ensures
            final(self).same_packet(old(self)),
            match spec_fixed(old(self).input(), old(self).pos(), 4) {
                Ok(v) => r == Ok::<u32, WireError>(v as u32) && final(self).advanced(old(self), 4),
                Err(e) => r == Err::<u32, WireError>(e) && final(self).pos() == old(self).pos(),
            },
    {
        proof {
            lemma_pow256_values();
        }
        let v = self.read_fixed(4)?;
        Ok(v as u32)
    }

    pub fn u64(&mut self) -> (r: Result<u64, WireError>)
        requires
            old(self).wf(),
        ensures
            final(self).same_packet(old(self)),
            match spec_fixed(old(self).input(), old(self).pos(), 8) {
                Ok(v) => r == Ok::<u64, WireError>(v as u64) && final(self).advanced(old(self), 8),
                Err(e) => r == Err::<u64, WireError>(e) && final(self).pos() == old(self).pos(),
            },
    {
        proof {
            lemma_pow256_values();
        }
        let v = self.read_fixed(8)?;
        Ok(v as u64)
    }

    /// Reads four bytes as a two's-complement number, least significant first.
    pub fn i32(&mut self) -> (r: Result<i32, WireError>)
        requires
            old(self).wf(),
        ensures
            final(self).same_packet(old(self)),
            match spec_fixed(old(self).input(), old(self).pos(), 4) {
                Ok(v) => r == Ok::<i32, WireError>((v as u32) as i32) && final(self).advanced(
                    old(self),
                    4,
                ),
                Err(e) => r == Err::<i32, WireError>(e) && final(self).pos() == old(self).pos(),
            },
    {
        let v = self.u32()?;
        Ok(v as i32)
    }

    /// Reads one byte: `0` is false, `1` is true, anything else is malformed.
    pub fn bool(&mut self) -> (r: Result<bool, WireError>)
        requires
            old(self).wf(),
        ensures
            final(self).same_packet(old(self)),
            match spec_byte(old(self).input(), old(self).pos()) {
                Ok(v) => if v == 0 {
                    r == Ok::<bool, WireError>(false) && final(self).advanced(old(self), 1)
                } else if v == 1 {
                    r == Ok::<bool, WireError>(true) && final(self).advanced(old(self), 1)
                } else {
                    r == Err::<bool, WireError>(WireError::MalformedConstructor)
                        && final(self).advanced(old(self), 1)
                },
                Err(e) => r == Err::<bool, WireError>(e) && final(self).pos() == old(self).pos(),
            },
    {
        let v = self.u8()?;
        if v == 0 {
            Ok(false)
        } else if v == 1 {
            Ok(true)
        } else {
            Err(WireError::MalformedConstructor)
        }
    }

    pub fn u128(&mut self) -> (r: Result<u128, WireError>)
        requires
            old(self).wf(),
        ensures
            final(self).same_packet(old(self)),
            match spec_fixed(old(self).input(), old(self).pos(), 16) {
                Ok(v) => r == Ok::<u128, WireError>(v as u128) && final(self).advanced(old(self), 16),
                Err(e) => r == Err::<u128, WireError>(e) && final(self).pos() == old(self).pos(),
            },
    {
        self.read_fixed(16)
    }

    pub fn i8(&mut self) -> (r: Result<i8, WireError>)
        requires
            old(self).wf(),
        ensures
            final(self).same_packet(old(self)),
            match spec_byte(old(self).input(), old(self).pos()) {
                Ok(v) => r == Ok::<i8, WireError>(v as i8) && final(self).advanced(old(self), 1),
                Err(e) => r == Err::<i8, WireError>(e) && final(self).pos() == old(self).pos(),
            },
    {
        let v = self.u8()?;
        Ok(v as i8)
    }

    pub fn i16(&mut self) -> (r: Result<i16, WireError>)
        requires
            old(self).wf(),
        ensures
            final(self).same_packet(old(self)),
            match spec_fixed(old(self).input(), old(self).pos(), 2) {
                Ok(v) => r == Ok::<i16, WireError>((v as u16) as i16) && final(self).advanced(
                    old(self),
                    2,
                ),
                Err(e) => r == Err::<i16, WireError>(e) && final(self).pos() == old(self).pos(),
            },
    {
        let v = self.u16()?;
        Ok(v as i16)
    }

    pub fn i64(&mut self) -> (r: Result<i64, WireError>)
        requires
            old(self).wf(),
        ensures
            final(self).same_packet(old(self)),
            match spec_fixed(old(self).input(), old(self).pos(), 8) {
                Ok(v) => r == Ok::<i64, WireError>((v as u64) as i64) && final(self).advanced(
                    old(self),
                    8,
                ),
                Err(e) => r == Err::<i64, WireError>(e) && final(self).pos() == old(self).pos(),
            },
    {
        let v = self.u64()?;
        Ok(v as i64)
    }

    pub fn i128(&mut self) -> (r: Result<i128, WireError>)
        requires
            old(self).wf(),
        ensures
            final(self).same_packet(old(self)),
            match spec_fixed(old(self).input(), old(self).pos(), 16) {
                Ok(v) => r == Ok::<i128, WireError>((v as u128) as i128) && final(self).advanced(
                    old(self),
                    16,
                ),
                Err(e) => r == Err::<i128, WireError>(e) && final(self).pos() == old(self).pos(),
            },
    {
        let v = self.u128()?;
        Ok(v as i128)
    }

    /// Reads a length-delimited field as a view into the packet.
    pub fn bytes_borrowed(&mut self) -> (r: Result<&'a [u8], WireError>)
        requires
            old(self).wf(),
        ensures
            final(self).same_packet(old(self)),
            match spec_field(old(self).input(), old(self).pos(), old(self).limits()) {
                Ok((b, n)) => (r matches Ok(s) && s@ == b) && final(self).advanced(old(self), n),
                Err(e) => r == Err::<&'a [u8], WireError>(e),
            },
    {
        proof {
            if spec_varint_decode(self.rest()) is Ok {
                lemma_varint_decode_canonical(self.rest());
            }
        }
        let len = self.varint()?;
        if len > usize::MAX as u64 {
            return Err(WireError::IntegerOverflow);
        }
        let len = len as usize;
        if len > self.limits.max_bytes_field_size {
            return Err(WireError::PacketTooLarge);
        }
        self.read_slice(len)
    }

    /// Reads a length-delimited field as an owned buffer.
    pub fn bytes(&mut self) -> (r: Result<Vec<u8>, WireError>)
        requires
            old(self).wf(),
        ensures
            final(self).same_packet(old(self)),
            match spec_field(old(self).input(), old(self).pos(), old(self).limits()) {
                Ok((b, n)) => (r matches Ok(v) && v@ == b) && final(self).advanced(old(self), n),
                Err(e) => r == Err::<Vec<u8>, WireError>(e),
            },
    {
        let value = self.bytes_borrowed()?;
        Ok(vstd::slice::slice_to_vec(value))
    }

    /// Reads a length-delimited field that must be `expected` bytes long.
    pub fn bytes_exact(&mut self, expected: usize) -> (r: Result<Vec<u8>, WireError>)
        requires
            old(self).wf(),
        ensures
            final(self).same_packet(old(self)),
            match spec_field(old(self).input(), old(self).pos(), old(self).limits()) {
                Ok((b, n)) => if b.len() == expected {
                    (r matches Ok(v) && v@ == b) && final(self).advanced(old(self), n)
                } else {
                    r == Err::<Vec<u8>, WireError>(WireError::MalformedConstructor)
                },
                Err(e) => r == Err::<Vec<u8>, WireError>(e),
            },
    {
        let value = self.bytes()?;
        if value.len() != expected {
            return Err(WireError::MalformedConstructor);
        }
        Ok(value)
    }

    /// Reads `N` bytes with no length.
    pub fn fixed_bytes<const N: usize>(&mut self) -> (r: Result<[u8; N], WireError>)
        requires
            old(self).wf(),
        ensures
            final(self).same_packet(old(self)),
            match spec_take(old(self).input(), old(self).pos(), N as nat) {
                Ok(b) => (r matches Ok(a) && a@ == b) && final(self).advanced(old(self), N as nat),
                Err(e) => r == Err::<[u8; N], WireError>(e) && final(self).pos() == old(self).pos(),
            },
    {
        let bytes = self.read_slice(N)?;
        match slice_to_array::<N>(bytes) {
            Some(array) => Ok(array),
            None => Err(WireError::UnexpectedEof),
        }
    }

    /// Reads `N` bytes with no length, as a view into the packet.
    pub fn fixed_bytes_borrowed<const N: usize>(&mut self) -> (r: Result<&'a [u8], WireError>)
        requires
            old(self).wf(),
        ensures
            final(self).same_packet(old(self)),
            match spec_take(old(self).input(), old(self).pos(), N as nat) {
                Ok(b) => (r matches Ok(s) && s@ == b) && final(self).advanced(old(self), N as nat),
                Err(e) => r == Err::<&'a [u8], WireError>(e) && final(self).pos() == old(self).pos(),
            },
    {
        self.read_slice(N)
    }

    pub fn skip_fixed_bytes(&mut self, len: usize) -> (r: Result<(), WireError>)
        requires
            old(self).wf(),
        ensures
            final(self).same_packet(old(self)),
            match spec_take(old(self).input(), old(self).pos(), len as nat) {
                Ok(b) => r == Ok::<(), WireError>(()) && final(self).advanced(old(self), len as nat),
                Err(e) => r == Err::<(), WireError>(e) && final(self).pos() == old(self).pos(),
            },
    {
        self.read_slice(len)?;
        Ok(())
    }

    /// Moves past a length-delimited field without looking at its bytes.
    pub fn skip_bytes(&mut self) -> (r: Result<(), WireError>)
        requires
            old(self).wf(),
        ensures
            final(self).same_packet(old(self)),
            match spec_field(old(self).input(), old(self).pos(), old(self).limits()) {
                Ok((b, n)) => r == Ok::<(), WireError>(()) && final(self).advanced(old(self), n),
                Err(e) => r == Err::<(), WireError>(e),
            },
    {
        self.bytes_borrowed()?;
        Ok(())
    }

    /// Reads a length-delimited UTF-8 string as a view into the packet.
    pub fn string_borrowed(&mut self) -> (r: Result<&'a str, WireError>)
        requires
            old(self).wf(),
        ensures
            final(self).same_packet(old(self)),
            match spec_string_field(old(self).input(), old(self).pos(), old(self).limits()) {
                Ok((text, n)) => (r matches Ok(s) && s@ == text) && final(self).advanced(old(self), n),
                Err(e) => r == Err::<&'a str, WireError>(e),
            },
    {
        let bytes = self.bytes_borrowed()?;
        match str_from_utf8(bytes) {
            Some(text) => {
                proof {
                    vstd::utf8::encode_utf8_decode_utf8(text@);
                }
                Ok(text)
            },
            None => Err(WireError::InvalidUtf8),
        }
    }

    /// Reads a length-delimited UTF-8 string as an owned string.
    pub fn string(&mut self) -> (r: Result<String, WireError>)
        requires
            old(self).wf(),
        ensures
            final(self).same_packet(old(self)),
            match spec_string_field(old(self).input(), old(self).pos(), old(self).limits()) {
                Ok((text, n)) => (r matches Ok(s) && s@ == text) && final(self).advanced(old(self), n),
                Err(e) => r == Err::<String, WireError>(e),
            },
    {
        let text = self.string_borrowed()?;
        Ok(text.to_owned())
    }

    /// Moves past a length-delimited string without checking its UTF-8.
    pub fn skip_string(&mut self) -> (r: Result<(), WireError>)
        requires
            old(self).wf(),
        ensures
            final(self).same_packet(old(self)),
            match spec_field(old(self).input(), old(self).pos(), old(self).limits()) {
                Ok((b, n)) => r == Ok::<(), WireError>(()) && final(self).advanced(old(self), n),
                Err(e) => r == Err::<(), WireError>(e),
            },
    {
        self.skip_bytes()
    }

    /// Reads the next `len` bytes as a view into the packet.
    pub(crate) fn read_raw(&mut self, len: usize) -> (r: Result<&'a [u8], WireError>)
        requires
            old(self).wf(),
        ensures
            final(self).same_packet(old(self)),
            match spec_take(old(self).input(), old(self).pos(), len as nat) {
                Err(e) => r == Err::<&'a [u8], WireError>(e) && final(self).pos() == old(self).pos(),
                Ok(b) => (r matches Ok(s) && s@ == b) && final(self).advanced(old(self), len as nat),
            },
    {
        self.read_slice(len)
    }

    /// The first `len` bytes of the packet, wherever the decoder stands.
    pub(crate) fn peek_raw(&self, len: usize) -> (r: Result<&'a [u8], WireError>)
        ensures
            len <= self.input().len() ==> (r matches Ok(s) && s@ == self.input().take(len as int)),
            len > self.input().len() ==> r == Err::<&'a [u8], WireError>(WireError::UnexpectedEof),
    {
        if len <= self.bytes.len() {
            Ok(vstd::slice::slice_subrange(self.bytes, 0, len))
        } else {
            Err(WireError::UnexpectedEof)
        }
    }

    /// Checks that the next eight bytes are the Constructor ID `expected`.
    pub fn expect_cid(&mut self, expected: &str) -> (r: Result<(), WireError>)
        requires
            old(self).wf(),
        ensures
            final(self).same_packet(old(self)),
            match crate::constructor::spec_parse_cid(expected.spec_bytes()) {
                Err(e) => r == Err::<(), WireError>(e),
                Ok(b) => match spec_take(old(self).input(), old(self).pos(), 8) {
                    Err(e) => r == Err::<(), WireError>(e) && final(self).pos() == old(self).pos(),
                    Ok(actual) => if actual == b {
                        r == Ok::<(), WireError>(()) && final(self).advanced(old(self), 8)
                    } else {
                        r == Err::<(), WireError>(WireError::UnknownCId)
                    },
                },
            },
    {
        let expected = crate::constructor::cid_bytes(expected)?;
        self.expect_cid_bytes(&expected)
    }

    /// Checks that the next eight bytes are `expected`.
    pub fn expect_cid_bytes(&mut self, expected: &[u8; 8]) -> (r: Result<(), WireError>)
        requires
            old(self).wf(),
        ensures
            final(self).same_packet(old(self)),
            match spec_take(old(self).input(), old(self).pos(), 8) {
                Err(e) => r == Err::<(), WireError>(e) && final(self).pos() == old(self).pos(),
                Ok(actual) => if actual == expected@ {
                    r == Ok::<(), WireError>(()) && final(self).advanced(old(self), 8)
                } else {
                    r == Err::<(), WireError>(WireError::UnknownCId) && final(self).advanced(
                        old(self),
                        8,
                    )
                },
            },
    {
        let actual = self.read_raw(8)?;
        if crate::constructor::bytes_equal(actual, expected.as_slice()) {
            Ok(())
        } else {
            Err(WireError::UnknownCId)
        }
    }

    /// Reads the next eight bytes as a Constructor ID.
    pub fn read_cid_bytes(&mut self) -> (r: Result<[u8; 8], WireError>)
        requires
            old(self).wf(),
        ensures
            final(self).same_packet(old(self)),
            match spec_take(old(self).input(), old(self).pos(), 8) {
                Ok(b) => (r matches Ok(a) && a@ == b) && final(self).advanced(old(self), 8),
                Err(e) => r == Err::<[u8; 8], WireError>(e) && final(self).pos() == old(self).pos(),
            },
    {
        self.fixed_bytes::<8>()
    }

    /// Reads the next eight bytes as a Constructor ID in lowercase hexadecimal.
    pub fn read_cid(&mut self) -> (r: Result<String, WireError>)
        requires
            old(self).wf(),
        ensures
            final(self).same_packet(old(self)),
            match spec_take(old(self).input(), old(self).pos(), 8) {
                Ok(b) => (r matches Ok(s) && s@ == crate::text::ascii_chars(
                    crate::text::spec_hex_bytes(b),
                )) && final(self).advanced(old(self), 8),
                Err(e) => r == Err::<String, WireError>(e) && final(self).pos() == old(self).pos(),
            },
    {
        let raw = self.read_raw(8)?;
        Ok(crate::text::hex_lower(raw))
    }

    /// Reads a value of type `T`.
    pub fn value<T: WireCodec>(&mut self) -> (r: Result<T, WireError>)
        requires
            old(self).wf(),
        ensures
            final(self).same_packet(old(self)),
            match T::spec_decode(old(self).input(), old(self).pos(), old(self).limits()) {
                Ok((v, n)) => (r matches Ok(x) && x.deep_view() == v) && final(self).advanced(
                    old(self),
                    n,
                ),
                Err(e) => r matches Err(e2) && e2 == e,
            },
    {
        T::decode(self)
    }

    /// Reads the element count of a collection.
    pub(crate) fn collection_count(&mut self) -> (r: Result<usize, WireError>)
        requires
            old(self).wf(),
        ensures
            final(self).same_packet(old(self)),
            match spec_count(old(self).input(), old(self).pos(), old(self).limits(), None) {
                Ok((c, n)) => r == Ok::<usize, WireError>(c as usize) && final(self).advanced(
                    old(self),
                    n,
                ),
                Err(e) => r == Err::<usize, WireError>(e),
            },
    {
        proof {
            if spec_varint_decode(self.rest()) is Ok {
                lemma_varint_decode_canonical(self.rest());
            }
        }
        let count = self.varint()?;
        if count > usize::MAX as u64 {
            return Err(WireError::IntegerOverflow);
        }
        let count = count as usize;
        if count > self.limits.max_collection_items {
            return Err(WireError::PacketTooLarge);
        }
        Ok(count)
    }

    /// Reads a canonical variable-length integer.
    pub fn varint(&mut self) -> (r: Result<u64, WireError>)
        requires
            old(self).wf(),
        ensures
            final(self).same_packet(old(self)),
            match spec_varint_decode(old(self).rest()) {
                Ok((v, n)) => r == Ok::<u64, WireError>(v as u64) && final(self).pos() == old(
                    self,
                ).pos() + n,
                Err(e) => r == Err::<u64, WireError>(e),
            },
    {
        let ghost t = self.rest();
        let ghost start = self.pos();
        let first = self.read_u8()?;
        if first < 0x80 {
            return Ok(first as u64);
        }
        proof {
            lemma_pow128_nine();
            reveal_with_fuel(pow128, 2);
        }
        let mut result: u64 = (first - 128) as u64;
        let mut scale: u64 = 128;
        let mut index: usize = 1;
        loop
            invariant
                self.same_packet(old(self)),
                1 <= index <= 9,
                t == old(self).rest(),
                start == old(self).pos(),
                self.pos() == start + index,
                index <= t.len(),
                self.rest() == t.skip(index as int),
                scale == pow128(index as nat),
                result < scale,
                pow128(9) == 0x8000_0000_0000_0000,
                spec_varint_decode(t) == spec_varint_lift(
                    spec_varint_scan(t.skip(index as int), index as nat),
                    result as int,
                    scale as int,
                    index as nat,
                ),
            decreases 10 - index,
        {
            let ghost u = t.skip(index as int);
            proof {
                lemma_pow128_monotone(index as nat, 9);
                assert(self.input().skip(self.pos() as int) == u);
            }
            let byte = self.read_u8()?;
            assert(byte == u[0]);
            if index == 9 && byte % 128 > 1 {
                return Err(WireError::IntegerOverflow);
            }
            if byte < 0x80 {
                if byte == 0 {
                    return Err(WireError::InvalidVarInt);
                }
                assert(spec_varint_scan(u, index as nat) == Ok::<(nat, nat), WireError>(
                    (byte as nat, 1),
                ));
                proof {
                    if index < 9 {
                        lemma_pow128_monotone(index as nat, 8);
                        assert((result as int) + (scale as int) * (byte as int) < 128 * (scale as int))
                            by (nonlinear_arith)
                            requires
                                result < scale,
                                byte < 128,
                        ;
                    } else {
                        assert(byte <= 1);
                        assert((result as int) + (scale as int) * (byte as int) <= (result as int) + (scale as int))
                            by (nonlinear_arith)
                            requires
                                byte <= 1,
                        ;
                    }
                }
                let value: u64 = result + scale * (byte as u64);
                return Ok(value);
            }
            if index == 9 {
                return Err(WireError::InvalidVarInt);
            }
            proof {
                lemma_pow128_monotone((index + 1) as nat, 9);
                assert(pow128((index + 1) as nat) == 128 * pow128(index as nat));
                lemma_varint_step(t, index as nat, result as int, scale as int);
            }
            assert((result as int) + (byte as int - 128) * (scale as int) < 128 * (scale as int))
                by (nonlinear_arith)
                requires
                    result < scale,
                    128 <= byte < 256,
            ;
            result = result + ((byte - 128) as u64) * scale;
            scale = scale * 128;
            index = index + 1;
        }
    }
}

} // verus!
