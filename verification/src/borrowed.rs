//! Decoding into views of the packet: strings, byte fields and lazy
//! collections that point into the input instead of copying out of it.

use std::cmp::Ordering;
use std::marker::PhantomData;

use vstd::prelude::*;
use vstd::std_specs::cmp::{OrdSpec, PartialEqSpecImpl};

use crate::constructor::bytes_equal;
use crate::limits::{DecodeLimits, MAX_COLLECTION_ITEMS};
use crate::value::WireCodec;
use crate::wire::{spec_count, spec_field, spec_string_field, Decoder, WireError};

verus! {

/// A value that can be read as a view into the packet.
///
/// `spec_decode_borrowed` is what `decode_borrowed` reads (on the value's
/// deep view) and `spec_skip_borrowed` how far `skip_borrowed` moves; a skip
/// may check less than a decode does (a string's UTF-8, say).
pub trait BorrowedWireCodec<'a>: Sized + DeepView {
    spec fn spec_decode_borrowed(input: Seq<u8>, pos: nat, limits: DecodeLimits) -> Result<
        (Self::V, nat),
        WireError,
    >;

    spec fn spec_skip_borrowed(input: Seq<u8>, pos: nat, limits: DecodeLimits) -> Result<
        nat,
        WireError,
    >;

    fn decode_borrowed(decoder: &mut Decoder<'a>) -> (r: Result<Self, WireError>)
        requires
            old(decoder).wf(),
        ensures
            final(decoder).same_packet(old(decoder)),
            match Self::spec_decode_borrowed(
                old(decoder).input(),
                old(decoder).pos(),
                old(decoder).limits(),
            ) {
                Ok((v, n)) => (r matches Ok(x) && x.deep_view() == v) && final(decoder).advanced(
                    old(decoder),
                    n,
                ),
                Err(e) => r matches Err(e2) && e2 == e,
            },
    ;

    fn skip_borrowed(decoder: &mut Decoder<'a>) -> (r: Result<(), WireError>)
        requires
            old(decoder).wf(),
        ensures
            final(decoder).same_packet(old(decoder)),
            match Self::spec_skip_borrowed(
                old(decoder).input(),
                old(decoder).pos(),
                old(decoder).limits(),
            ) {
                Ok(n) => r is Ok && final(decoder).advanced(old(decoder), n),
                Err(e) => r matches Err(e2) && e2 == e,
            },
    ;
}

impl<'a> BorrowedWireCodec<'a> for &'a str {
    open spec fn spec_decode_borrowed(input: Seq<u8>, pos: nat, limits: DecodeLimits) -> Result<
        (Seq<char>, nat),
        WireError,
    > {
        spec_string_field(input, pos, limits)
    }

    open spec fn spec_skip_borrowed(input: Seq<u8>, pos: nat, limits: DecodeLimits) -> Result<
        nat,
        WireError,
    > {
        match spec_field(input, pos, limits) {
            Ok((_, n)) => Ok(n),
            Err(e) => Err(e),
        }
    }

    fn decode_borrowed(decoder: &mut Decoder<'a>) -> (r: Result<Self, WireError>) {
        decoder.string_borrowed()
    }

    fn skip_borrowed(decoder: &mut Decoder<'a>) -> (r: Result<(), WireError>) {
        decoder.skip_string()
    }
}

impl<'a> BorrowedWireCodec<'a> for &'a [u8] {
    open spec fn spec_decode_borrowed(input: Seq<u8>, pos: nat, limits: DecodeLimits) -> Result<
        (Seq<u8>, nat),
        WireError,
    > {
        spec_field(input, pos, limits)
    }

    open spec fn spec_skip_borrowed(input: Seq<u8>, pos: nat, limits: DecodeLimits) -> Result<
        nat,
        WireError,
    > {
        match spec_field(input, pos, limits) {
            Ok((_, n)) => Ok(n),
            Err(e) => Err(e),
        }
    }

    fn decode_borrowed(decoder: &mut Decoder<'a>) -> (r: Result<Self, WireError>) {
        let r = decoder.bytes_borrowed();
        match r {
            Ok(bytes) => {
                assert(bytes.deep_view() =~= bytes@);
                Ok(bytes)
            },
            Err(e) => Err(e),
        }
    }

    fn skip_borrowed(decoder: &mut Decoder<'a>) -> (r: Result<(), WireError>) {
        decoder.skip_bytes()
    }
}

impl<'a, T: WireCodec> BorrowedWireCodec<'a> for T {
    open spec fn spec_decode_borrowed(input: Seq<u8>, pos: nat, limits: DecodeLimits) -> Result<
        (T::V, nat),
        WireError,
    > {
        T::spec_decode(input, pos, limits)
    }

    open spec fn spec_skip_borrowed(input: Seq<u8>, pos: nat, limits: DecodeLimits) -> Result<
        nat,
        WireError,
    > {
        match T::spec_decode(input, pos, limits) {
            Ok((_, n)) => Ok(n),
            Err(e) => Err(e),
        }
    }

    fn decode_borrowed(decoder: &mut Decoder<'a>) -> (r: Result<Self, WireError>) {
        T::decode(decoder)
    }

    fn skip_borrowed(decoder: &mut Decoder<'a>) -> (r: Result<(), WireError>) {
        match T::decode(decoder) {
            Ok(_) => Ok(()),
            Err(e) => Err(e),
        }
    }
}

// ---------------------------------------------------------------------------
// Skipping runs of elements
// ---------------------------------------------------------------------------

/// Where skipping `count` elements of type `T` from `pos` ends.
pub open spec fn spec_skip_run<'a, T: BorrowedWireCodec<'a>>(
    input: Seq<u8>,
    pos: nat,
    limits: DecodeLimits,
    count: nat,
) -> Result<nat, WireError>
    decreases count,
{
    if count == 0 {
        Ok(pos)
    } else {
        match T::spec_skip_borrowed(input, pos, limits) {
            Err(e) => Err(e),
            Ok(n) => spec_skip_run::<T>(input, pos + n, limits, (count - 1) as nat),
        }
    }
}

/// Where skipping `count` key-value pairs from `pos` ends.
pub open spec fn spec_skip_pairs<'a, K: BorrowedWireCodec<'a>, V: BorrowedWireCodec<'a>>(
    input: Seq<u8>,
    pos: nat,
    limits: DecodeLimits,
    count: nat,
) -> Result<nat, WireError>
    decreases count,
{
    if count == 0 {
        Ok(pos)
    } else {
        match K::spec_skip_borrowed(input, pos, limits) {
            Err(e) => Err(e),
            Ok(n) => match V::spec_skip_borrowed(input, pos + n, limits) {
                Err(e) => Err(e),
                Ok(m) => spec_skip_pairs::<K, V>(input, pos + n + m, limits, (count - 1) as nat),
            },
        }
    }
}

/// Reading a lazy vector at `pos`: the view it gives (its element bytes,
/// its count and the packet limit its elements are read under) and the
/// bytes it takes.
pub open spec fn spec_borrowed_vec<'a, T: BorrowedWireCodec<'a>>(
    input: Seq<u8>,
    pos: nat,
    limits: DecodeLimits,
) -> Result<((Seq<u8>, nat, nat), nat), WireError> {
    match spec_count(input, pos, limits, None) {
        Err(e) => Err(e),
        Ok((count, n)) => match spec_skip_run::<T>(input, pos + n, limits, count) {
            Err(e) => Err(e),
            Ok(end) => Ok(
                (
                    (
                        input.subrange((pos + n) as int, end as int),
                        count,
                        limits.max_packet_size as nat,
                    ),
                    (end - pos) as nat,
                ),
            ),
        },
    }
}

/// Reading a lazy map at `pos`, as for a vector.
pub open spec fn spec_borrowed_map<'a, K: BorrowedWireCodec<'a>, V: BorrowedWireCodec<'a>>(
    input: Seq<u8>,
    pos: nat,
    limits: DecodeLimits,
) -> Result<((Seq<u8>, nat, nat), nat), WireError> {
    match spec_count(input, pos, limits, None) {
        Err(e) => Err(e),
        Ok((count, n)) => match spec_skip_pairs::<K, V>(input, pos + n, limits, count) {
            Err(e) => Err(e),
            Ok(end) => Ok(
                (
                    (
                        input.subrange((pos + n) as int, end as int),
                        count,
                        limits.max_packet_size as nat,
                    ),
                    (end - pos) as nat,
                ),
            ),
        },
    }
}

// ---------------------------------------------------------------------------
// Lazy vectors
// ---------------------------------------------------------------------------

/// The elements of a vector, left in the packet and decoded one by one
/// when iterated.
#[derive(Debug)]
pub struct BorrowedVec<'a, T> {
    bytes: &'a [u8],
    count: usize,
    max_size: usize,
    marker: PhantomData<T>,
}

impl<'a, T> DeepView for BorrowedVec<'a, T> {
    /// The element bytes, the element count and the packet limit under
    /// which the elements are read.
    type V = (Seq<u8>, nat, nat);

    closed spec fn deep_view(&self) -> (Seq<u8>, nat, nat) {
        (self.bytes@, self.count as nat, self.max_size as nat)
    }
}

/// Two lazy vectors are equal when they hold the same element bytes and
/// count.
impl<'a, T> PartialEq for BorrowedVec<'a, T> {
    fn eq(&self, other: &Self) -> (r: bool) {
        bytes_equal(self.bytes, other.bytes) && self.count == other.count
    }
}

impl<'a, T> PartialEqSpecImpl for BorrowedVec<'a, T> {
    open spec fn obeys_eq_spec() -> bool {
        true
    }

    open spec fn eq_spec(&self, other: &Self) -> bool {
        self.deep_view().0 == other.deep_view().0 && self.deep_view().1 == other.deep_view().1
    }
}

impl<'a, T> BorrowedVec<'a, T> {
    /// The element bytes fit the limit they are read under.
    pub open spec fn wf(&self) -> bool {
        self.deep_view().0.len() <= self.deep_view().2
    }

    pub fn len(&self) -> (r: usize)
        ensures
            r == self.deep_view().1,
    {
        self.count
    }

    pub fn is_empty(&self) -> (r: bool)
        ensures
            r == (self.deep_view().1 == 0),
    {
        self.count == 0
    }
}

impl<'a, T: BorrowedWireCodec<'a>> BorrowedVec<'a, T> {
    /// An iterator over the elements, from the first.
    pub fn iter(&self) -> (r: BorrowedVecIter<'a, T>)
        requires
            self.wf(),
        ensures
            r.wf(),
            r.count_left() == self.deep_view().1,
            r.reader().input() == self.deep_view().0,
            r.reader().pos() == 0,
            r.reader().limits() == (DecodeLimits {
                max_packet_size: self.deep_view().2 as usize,
                max_collection_items: MAX_COLLECTION_ITEMS,
                max_bytes_field_size: self.deep_view().2 as usize,
            }),
    {
        let limits = DecodeLimits {
            max_packet_size: self.max_size,
            max_collection_items: MAX_COLLECTION_ITEMS,
            max_bytes_field_size: self.max_size,
        };
        BorrowedVecIter {
            decoder: Decoder::over(self.bytes, limits),
            remaining: self.count,
            marker: PhantomData,
        }
    }
}

impl<'a, T: BorrowedWireCodec<'a>> BorrowedWireCodec<'a> for BorrowedVec<'a, T> {
    open spec fn spec_decode_borrowed(input: Seq<u8>, pos: nat, limits: DecodeLimits) -> Result<
        ((Seq<u8>, nat, nat), nat),
        WireError,
    > {
        spec_borrowed_vec::<T>(input, pos, limits)
    }

    open spec fn spec_skip_borrowed(input: Seq<u8>, pos: nat, limits: DecodeLimits) -> Result<
        nat,
        WireError,
    > {
        match spec_borrowed_vec::<T>(input, pos, limits) {
            Ok((_, n)) => Ok(n),
            Err(e) => Err(e),
        }
    }

    fn decode_borrowed(decoder: &mut Decoder<'a>) -> (r: Result<Self, WireError>) {
        decoder.borrowed_vec()
    }

    fn skip_borrowed(decoder: &mut Decoder<'a>) -> (r: Result<(), WireError>) {
        decoder.skip_vec::<T>()
    }
}

/// Where `k` elements read one after another from `pos` end, when each of
/// them decodes.
pub open spec fn spec_decode_run<'a, T: BorrowedWireCodec<'a>>(
    input: Seq<u8>,
    pos: nat,
    limits: DecodeLimits,
    k: usize,
) -> Option<nat>
    decreases k,
{
    if k == 0 {
        Some(pos)
    } else {
        match spec_decode_run::<T>(input, pos, limits, (k - 1) as usize) {
            None => None,
            Some(at) => match T::spec_decode_borrowed(input, at, limits) {
                Ok((_, n)) => Some(at + n),
                Err(_) => None,
            },
        }
    }
}

/// Decodes the elements of a [`BorrowedVec`] one at a time.
pub struct BorrowedVecIter<'a, T> {
    decoder: Decoder<'a>,
    remaining: usize,
    marker: PhantomData<T>,
}

impl<'a, T: BorrowedWireCodec<'a>> BorrowedVecIter<'a, T> {
    /// The decoder that reads the next element.
    pub closed spec fn reader(&self) -> Decoder<'a> {
        self.decoder
    }

    /// How many elements are still to come.
    pub closed spec fn count_left(&self) -> nat {
        self.remaining as nat
    }

    pub open spec fn wf(&self) -> bool {
        self.reader().wf()
    }

    /// The next element: `None` when all have been given, else the element
    /// decoded where the previous one ended.
    pub fn next(&mut self) -> (r: Option<Result<T, WireError>>)
        requires
            old(self).wf(),
        ensures
            final(self).wf(),
            final(self).reader().same_packet(&old(self).reader()),
            old(self).count_left() == 0 ==> r is None && final(self).count_left() == 0,
            old(self).count_left() > 0 ==> final(self).count_left() == old(self).count_left() - 1
                && match T::spec_decode_borrowed(
                old(self).reader().input(),
                old(self).reader().pos(),
                old(self).reader().limits(),
            ) {
                Ok((v, n)) => (r matches Some(Ok(x)) && x.deep_view() == v) && final(self).reader().advanced(&old(self).reader(), n),
                Err(e) => r matches Some(Err(e2)) && e2 == e,
            },
    {
        if self.remaining == 0 {
            return None;
        }
        self.remaining = self.remaining - 1;
        Some(T::decode_borrowed(&mut self.decoder))
    }

    /// The element `n` places on: `n` elements are taken and dropped, then
    /// the next is given.
    pub fn nth(&mut self, n: usize) -> (r: Option<Result<T, WireError>>)
        requires
            old(self).wf(),
        ensures
            final(self).wf(),
            final(self).reader().same_packet(&old(self).reader()),
            r is None <==> n >= old(self).count_left(),
            n < old(self).count_left() ==> final(self).count_left() == old(self).count_left() - n
                - 1,
            n < old(self).count_left() ==> (spec_decode_run::<T>(
                old(self).reader().input(),
                old(self).reader().pos(),
                old(self).reader().limits(),
                n,
            ) matches Some(at) ==> match T::spec_decode_borrowed(
                old(self).reader().input(),
                at,
                old(self).reader().limits(),
            ) {
                Ok((v, k)) => r matches Some(Ok(x)) && x.deep_view() == v,
                Err(e) => r matches Some(Err(e2)) && e2 == e,
            }),
    {
        let mut i: usize = 0;
        while i < n
            invariant
                self.wf(),
                self.reader().same_packet(&old(self).reader()),
                i <= n,
                i == 0 ==> self.reader() == old(self).reader() && self.count_left() == old(
                    self,
                ).count_left(),
                i <= old(self).count_left() ==> self.count_left() == old(self).count_left() - i,
                i > old(self).count_left() ==> self.count_left() == 0,
                old(self).count_left() < i ==> n >= old(self).count_left(),
                i <= old(self).count_left() ==> (spec_decode_run::<T>(
                    old(self).reader().input(),
                    old(self).reader().pos(),
                    old(self).reader().limits(),
                    i,
                ) matches Some(at) ==> self.reader().pos() == at),
            decreases n - i,
        {
            let skipped = self.next();
            if skipped.is_none() {
                return None;
            }
            i = i + 1;
        }
        self.next()
    }
}

// ---------------------------------------------------------------------------
// Lazy maps
// ---------------------------------------------------------------------------

/// The entries of a map, left in the packet and decoded one by one when
/// iterated.
#[derive(Debug)]
pub struct BorrowedMap<'a, K, V> {
    bytes: &'a [u8],
    count: usize,
    max_size: usize,
    marker: PhantomData<(K, V)>,
}

impl<'a, K, V> DeepView for BorrowedMap<'a, K, V> {
    /// The entry bytes, the entry count and the packet limit under which the
    /// entries are read.
    type V = (Seq<u8>, nat, nat);

    closed spec fn deep_view(&self) -> (Seq<u8>, nat, nat) {
        (self.bytes@, self.count as nat, self.max_size as nat)
    }
}

/// Two lazy maps are equal when they hold the same entry bytes and count.
impl<'a, K, V> PartialEq for BorrowedMap<'a, K, V> {
    fn eq(&self, other: &Self) -> (r: bool) {
        bytes_equal(self.bytes, other.bytes) && self.count == other.count
    }
}

impl<'a, K, V> PartialEqSpecImpl for BorrowedMap<'a, K, V> {
    open spec fn obeys_eq_spec() -> bool {
        true
    }

    open spec fn eq_spec(&self, other: &Self) -> bool {
        self.deep_view().0 == other.deep_view().0 && self.deep_view().1 == other.deep_view().1
    }
}

impl<'a, K, V> BorrowedMap<'a, K, V> {
    /// The entry bytes fit the limit they are read under.
    pub open spec fn wf(&self) -> bool {
        self.deep_view().0.len() <= self.deep_view().2
    }

    pub fn len(&self) -> (r: usize)
        ensures
            r == self.deep_view().1,
    {
        self.count
    }

    pub fn is_empty(&self) -> (r: bool)
        ensures
            r == (self.deep_view().1 == 0),
    {
        self.count == 0
    }
}

impl<'a, K: BorrowedWireCodec<'a> + Ord + Clone, V: BorrowedWireCodec<'a>> BorrowedMap<'a, K, V> {
    /// An iterator over the entries, from the first.
    pub fn iter(&self) -> (r: BorrowedMapIter<'a, K, V>)
        requires
            self.wf(),
        ensures
            r.wf(),
            r.count_left() == self.deep_view().1,
            r.reader().input() == self.deep_view().0,
            r.reader().pos() == 0,
            r.previous() is None,
            r.reader().limits() == (DecodeLimits {
                max_packet_size: self.deep_view().2 as usize,
                max_collection_items: MAX_COLLECTION_ITEMS,
                max_bytes_field_size: self.deep_view().2 as usize,
            }),
    {
        let limits = DecodeLimits {
            max_packet_size: self.max_size,
            max_collection_items: MAX_COLLECTION_ITEMS,
            max_bytes_field_size: self.max_size,
        };
        BorrowedMapIter {
            decoder: Decoder::over(self.bytes, limits),
            remaining: self.count,
            previous: None,
            marker: PhantomData,
        }
    }
}

impl<'a, K: BorrowedWireCodec<'a>, V: BorrowedWireCodec<'a>> BorrowedWireCodec<'a> for BorrowedMap<
    'a,
    K,
    V,
> {
    open spec fn spec_decode_borrowed(input: Seq<u8>, pos: nat, limits: DecodeLimits) -> Result<
        ((Seq<u8>, nat, nat), nat),
        WireError,
    > {
        spec_borrowed_map::<K, V>(input, pos, limits)
    }

    open spec fn spec_skip_borrowed(input: Seq<u8>, pos: nat, limits: DecodeLimits) -> Result<
        nat,
        WireError,
    > {
        match spec_borrowed_map::<K, V>(input, pos, limits) {
            Ok((_, n)) => Ok(n),
            Err(e) => Err(e),
        }
    }

    fn decode_borrowed(decoder: &mut Decoder<'a>) -> (r: Result<Self, WireError>) {
        decoder.borrowed_map()
    }

    fn skip_borrowed(decoder: &mut Decoder<'a>) -> (r: Result<(), WireError>) {
        decoder.skip_map::<K, V>()
    }
}

/// Whether `key` orders after `previous`.
fn key_after<K: Ord>(key: &K, previous: &K) -> (r: bool)
    ensures
        K::obeys_cmp_spec() ==> r == (key.cmp_spec(previous) == Ordering::Greater),
{
    match key.cmp(previous) {
        Ordering::Greater => true,
        _ => false,
    }
}

/// Decodes the entries of a [`BorrowedMap`] one at a time, refusing a key
/// that does not come after the key before it.
pub struct BorrowedMapIter<'a, K, V> {
    decoder: Decoder<'a>,
    remaining: usize,
    previous: Option<K>,
    marker: PhantomData<(K, V)>,
}

impl<'a, K: BorrowedWireCodec<'a> + Ord + Clone, V: BorrowedWireCodec<'a>> BorrowedMapIter<'a, K, V> {
    /// The decoder that reads the next entry.
    pub closed spec fn reader(&self) -> Decoder<'a> {
        self.decoder
    }

    /// How many entries are still to come.
    pub closed spec fn count_left(&self) -> nat {
        self.remaining as nat
    }

    /// The key of the entry given last.
    pub closed spec fn previous(&self) -> Option<K> {
        self.previous
    }

    pub open spec fn wf(&self) -> bool {
        self.reader().wf()
    }

    /// The next entry: `None` when all have been given, else the key and
    /// value decoded where the previous entry ended; a key that does not
    /// order after the previous key is refused as malformed.
    pub fn next(&mut self) -> (r: Option<Result<(K, V), WireError>>)
        requires
            old(self).wf(),
        ensures
            final(self).wf(),
            final(self).reader().same_packet(&old(self).reader()),
            old(self).count_left() == 0 ==> r is None && final(self).count_left() == 0,
            old(self).count_left() > 0 ==> final(self).count_left() == old(self).count_left() - 1
                && r is Some,
            old(self).count_left() > 0 ==> match K::spec_decode_borrowed(
                old(self).reader().input(),
                old(self).reader().pos(),
                old(self).reader().limits(),
            ) {
                Err(e) => r matches Some(Err(e2)) && e2 == e,
                Ok((k, n)) => match r {
                    Some(Ok((x, y))) => {
                        &&& x.deep_view() == k
                        &&& old(self).previous() matches Some(p) ==> (K::obeys_cmp_spec()
                            ==> x.cmp_spec(&p) == Ordering::Greater)
                        &&& V::spec_decode_borrowed(
                            old(self).reader().input(),
                            old(self).reader().pos() + n,
                            old(self).reader().limits(),
                        ) matches Ok((v, m)) && y.deep_view() == v && final(self).reader().advanced(
                            &old(self).reader(),
                            n + m,
                        )
                    },
                    Some(Err(e)) => (e == WireError::MalformedConstructor && match old(
                        self,
                    ).previous() {
                        Some(p) => exists|x: K|
                            #[trigger] x.deep_view() == k && (K::obeys_cmp_spec() ==> x.cmp_spec(
                                &p,
                            ) != Ordering::Greater),
                        None => false,
                    }) || V::spec_decode_borrowed(
                        old(self).reader().input(),
                        old(self).reader().pos() + n,
                        old(self).reader().limits(),
                    ) == Err::<(V::V, nat), WireError>(e),
                    None => false,
                },
            },
    {
        if self.remaining == 0 {
            return None;
        }
        self.remaining = self.remaining - 1;
        let key = match K::decode_borrowed(&mut self.decoder) {
            Ok(key) => key,
            Err(e) => return Some(Err(e)),
        };
        match &self.previous {
            Some(previous) => {
                if !key_after(&key, previous) {
                    return Some(Err(WireError::MalformedConstructor));
                }
            },
            None => {},
        }
        self.previous = Some(key.clone());
        match V::decode_borrowed(&mut self.decoder) {
            Ok(value) => Some(Ok((key, value))),
            Err(e) => Some(Err(e)),
        }
    }
}

// ---------------------------------------------------------------------------
// Reading and skipping collections
// ---------------------------------------------------------------------------

impl<'a> Decoder<'a> {
    /// Skips `count` elements of type `T`.
    fn skip_run<T: BorrowedWireCodec<'a>>(&mut self, count: usize) -> (r: Result<(), WireError>)
        requires
            old(self).wf(),
        ensures
            final(self).same_packet(old(self)),
            match spec_skip_run::<T>(
                old(self).input(),
                old(self).pos(),
                old(self).limits(),
                count as nat,
            ) {
                Ok(end) => r is Ok && final(self).pos() == end,
                Err(e) => r matches Err(e2) && e2 == e,
            },
            r is Ok ==> final(self).pos() >= old(self).pos(),
    {
        let mut i: usize = 0;
        while i < count
            invariant
                self.same_packet(old(self)),
                self.pos() >= old(self).pos(),
                i <= count,
                spec_skip_run::<T>(old(self).input(), old(self).pos(), old(self).limits(), count as nat)
                    == spec_skip_run::<T>(
                    self.input(),
                    self.pos(),
                    self.limits(),
                    (count - i) as nat,
                ),
            decreases count - i,
        {
            match T::skip_borrowed(self) {
                Ok(()) => {},
                Err(e) => return Err(e),
            }
            i = i + 1;
        }
        Ok(())
    }

    /// Skips `count` key-value pairs.
    fn skip_pairs<K: BorrowedWireCodec<'a>, V: BorrowedWireCodec<'a>>(&mut self, count: usize) -> (r:
        Result<(), WireError>)
        requires
            old(self).wf(),
        ensures
            final(self).same_packet(old(self)),
            match spec_skip_pairs::<K, V>(
                old(self).input(),
                old(self).pos(),
                old(self).limits(),
                count as nat,
            ) {
                Ok(end) => r is Ok && final(self).pos() == end,
                Err(e) => r matches Err(e2) && e2 == e,
            },
            r is Ok ==> final(self).pos() >= old(self).pos(),
    {
        let mut i: usize = 0;
        while i < count
            invariant
                self.same_packet(old(self)),
                self.pos() >= old(self).pos(),
                i <= count,
                spec_skip_pairs::<K, V>(
                    old(self).input(),
                    old(self).pos(),
                    old(self).limits(),
                    count as nat,
                ) == spec_skip_pairs::<K, V>(
                    self.input(),
                    self.pos(),
                    self.limits(),
                    (count - i) as nat,
                ),
            decreases count - i,
        {
            match K::skip_borrowed(self) {
                Ok(()) => {},
                Err(e) => return Err(e),
            }
            match V::skip_borrowed(self) {
                Ok(()) => {},
                Err(e) => return Err(e),
            }
            i = i + 1;
        }
        Ok(())
    }

    /// Reads a vector as a lazy view: checks that its elements can be
    /// skipped over and keeps their bytes.
    pub fn borrowed_vec<T: BorrowedWireCodec<'a>>(&mut self) -> (r: Result<
        BorrowedVec<'a, T>,
        WireError,
    >)
        requires
            old(self).wf(),
        ensures
            final(self).same_packet(old(self)),
            match spec_borrowed_vec::<T>(old(self).input(), old(self).pos(), old(self).limits()) {
                Ok((v, n)) => (r matches Ok(x) && x.deep_view() == v && x.wf()) && final(self).advanced(old(self), n),
                Err(e) => r matches Err(e2) && e2 == e,
            },
    {
        let count = match self.collection_count() {
            Ok(count) => count,
            Err(e) => return Err(e),
        };
        let start = self.position();
        match self.skip_run::<T>(count) {
            Ok(()) => {},
            Err(e) => return Err(e),
        }
        let end = self.position();
        proof {
            self.lemma_within_limit();
            self.lemma_rest_len();
        }
        let bytes = vstd::slice::slice_subrange(self.packet(), start, end);
        let limits = self.decode_limits();
        Ok(BorrowedVec { bytes, count, max_size: limits.max_packet_size, marker: PhantomData })
    }

    /// Reads a map as a lazy view: checks that its entries can be skipped
    /// over and keeps their bytes.
    pub fn borrowed_map<K: BorrowedWireCodec<'a>, V: BorrowedWireCodec<'a>>(&mut self) -> (r:
        Result<BorrowedMap<'a, K, V>, WireError>)
        requires
            old(self).wf(),
        ensures
            final(self).same_packet(old(self)),
            match spec_borrowed_map::<K, V>(old(self).input(), old(self).pos(), old(self).limits()) {
                Ok((v, n)) => (r matches Ok(x) && x.deep_view() == v && x.wf()) && final(self).advanced(old(self), n),
                Err(e) => r matches Err(e2) && e2 == e,
            },
    {
        let count = match self.collection_count() {
            Ok(count) => count,
            Err(e) => return Err(e),
        };
        let start = self.position();
        match self.skip_pairs::<K, V>(count) {
            Ok(()) => {},
            Err(e) => return Err(e),
        }
        let end = self.position();
        proof {
            self.lemma_within_limit();
            self.lemma_rest_len();
        }
        let bytes = vstd::slice::slice_subrange(self.packet(), start, end);
        let limits = self.decode_limits();
        Ok(BorrowedMap { bytes, count, max_size: limits.max_packet_size, marker: PhantomData })
    }

    /// Moves past a vector, skipping each element.
    pub fn skip_vec<T: BorrowedWireCodec<'a>>(&mut self) -> (r: Result<(), WireError>)
        requires
            old(self).wf(),
        ensures
            final(self).same_packet(old(self)),
            match spec_borrowed_vec::<T>(old(self).input(), old(self).pos(), old(self).limits()) {
                Ok((_, n)) => r is Ok && final(self).advanced(old(self), n),
                Err(e) => r matches Err(e2) && e2 == e,
            },
    {
        let count = match self.collection_count() {
            Ok(count) => count,
            Err(e) => return Err(e),
        };
        self.skip_run::<T>(count)
    }

    /// Moves past a map, skipping each key and value.
    pub fn skip_map<K: BorrowedWireCodec<'a>, V: BorrowedWireCodec<'a>>(&mut self) -> (r: Result<
        (),
        WireError,
    >)
        requires
            old(self).wf(),
        ensures
            final(self).same_packet(old(self)),
            match spec_borrowed_map::<K, V>(old(self).input(), old(self).pos(), old(self).limits()) {
                Ok((_, n)) => r is Ok && final(self).advanced(old(self), n),
                Err(e) => r matches Err(e2) && e2 == e,
            },
    {
        let count = match self.collection_count() {
            Ok(count) => count,
            Err(e) => return Err(e),
        };
        self.skip_pairs::<K, V>(count)
    }
}

} // verus!
