//! Maps on the wire: the entry count, then each key and its value, keys in
//! increasing order; a key that repeats makes a packet malformed.

use std::collections::BTreeMap;

use vstd::laws_cmp::obeys_cmp;
use vstd::prelude::*;
use vstd::std_specs::btree::{increasing_seq, spec_btree_map_iter};
use vstd::std_specs::cmp::OrdSpec;
use vstd::std_specs::iter::IteratorSpec;

use crate::limits::DecodeLimits;
use crate::value::{lemma_encoded_concat, lemma_encoded_extend, spec_saturate, WireCodec};
use crate::wire::{
    lemma_count_extends, lemma_varint_round_trip, spec_count, spec_varint, varint_len, Decoder, Encoder, WireError,
};

verus! {

/// A type that can key an encoded map: an integer, ordered by its value.
pub trait WireKey: WireCodec + Ord + DeepView<V = Self> {
    /// The key's place in the order.
    spec fn key_rank(&self) -> int;

    /// The order of keys is a total order, and it is the order of their
    /// places.
    proof fn lemma_key_order()
        ensures
            obeys_cmp::<Self>(),
            forall|a: Self, b: Self| a.key_rank() == b.key_rank() ==> a == b,
            forall|a: Self, b: Self| #[trigger] a.cmp_spec(&b) is Less <==> a.key_rank() < b.key_rank(),
            forall|a: Self| #[trigger] a.deep_view() == a,
    ;
}

impl WireKey for u8 {
    open spec fn key_rank(&self) -> int {
        *self as int
    }

    proof fn lemma_key_order() {
    }
}

impl WireKey for u16 {
    open spec fn key_rank(&self) -> int {
        *self as int
    }

    proof fn lemma_key_order() {
    }
}

impl WireKey for u32 {
    open spec fn key_rank(&self) -> int {
        *self as int
    }

    proof fn lemma_key_order() {
    }
}

impl WireKey for u64 {
    open spec fn key_rank(&self) -> int {
        *self as int
    }

    proof fn lemma_key_order() {
    }
}

impl WireKey for u128 {
    open spec fn key_rank(&self) -> int {
        *self as int
    }

    proof fn lemma_key_order() {
    }
}

impl WireKey for i8 {
    open spec fn key_rank(&self) -> int {
        *self as int
    }

    proof fn lemma_key_order() {
    }
}

impl WireKey for i16 {
    open spec fn key_rank(&self) -> int {
        *self as int
    }

    proof fn lemma_key_order() {
    }
}

impl WireKey for i32 {
    open spec fn key_rank(&self) -> int {
        *self as int
    }

    proof fn lemma_key_order() {
    }
}

impl WireKey for i64 {
    open spec fn key_rank(&self) -> int {
        *self as int
    }

    proof fn lemma_key_order() {
    }
}

impl WireKey for i128 {
    open spec fn key_rank(&self) -> int {
        *self as int
    }

    proof fn lemma_key_order() {
    }
}

// ---------------------------------------------------------------------------
// Keys in order
// ---------------------------------------------------------------------------

/// The places of `s` increase strictly.
pub open spec fn spec_increasing<K: WireKey>(s: Seq<K>) -> bool {
    forall|i: int, j: int| 0 <= i < j < s.len() ==> s[i].key_rank() < s[j].key_rank()
}

/// `m` is a key of `d` whose place no other key of `d` comes before.
pub open spec fn spec_least<K: WireKey>(d: Set<K>, m: K) -> bool {
    d.contains(m) && forall|x: K| #[trigger] d.contains(x) ==> m.key_rank() <= x.key_rank()
}

/// A finite set of keys that is not empty has a least key.
pub proof fn lemma_least_exists<K: WireKey>(d: Set<K>)
    requires
        d.finite(),
        d.len() > 0,
    ensures
        exists|m: K| spec_least(d, m),
    decreases d.len(),
{
    let x = d.choose();
    let rest = d.remove(x);
    if rest.len() == 0 {
        assert forall|y: K| #[trigger] d.contains(y) implies x.key_rank() <= y.key_rank() by {
            if y != x {
                assert(rest.contains(y));
            }
        }
        assert(spec_least(d, x));
    } else {
        lemma_least_exists(rest);
        let m = choose|m: K| spec_least(rest, m);
        if x.key_rank() < m.key_rank() {
            assert forall|y: K| #[trigger] d.contains(y) implies x.key_rank() <= y.key_rank() by {
                if y != x {
                    assert(rest.contains(y));
                }
            }
            assert(spec_least(d, x));
        } else {
            assert forall|y: K| #[trigger] d.contains(y) implies m.key_rank() <= y.key_rank() by {
                if y != x {
                    assert(rest.contains(y));
                }
            }
            assert(spec_least(d, m));
        }
    }
}

/// The keys of a finite set in increasing order.
pub open spec fn spec_sorted_keys<K: WireKey>(d: Set<K>) -> Seq<K>
    decreases d.len(),
    when d.finite()
{
    if d.len() == 0 {
        seq![]
    } else {
        let m = choose|m: K| spec_least(d, m);
        proof {
            lemma_least_exists(d);
        }
        seq![m] + spec_sorted_keys(d.remove(m))
    }
}

/// The sorted keys of a set are its keys, each once, in increasing order.
pub proof fn lemma_sorted_keys<K: WireKey>(d: Set<K>)
    requires
        d.finite(),
    ensures
        spec_increasing(spec_sorted_keys(d)),
        spec_sorted_keys(d).to_set() == d,
        spec_sorted_keys(d).len() == d.len(),
    decreases d.len(),
{
    if d.len() > 0 {
        lemma_least_exists(d);
        let m = choose|m: K| spec_least(d, m);
        let rest = d.remove(m);
        lemma_sorted_keys(rest);
        let s = spec_sorted_keys(d);
        let t = spec_sorted_keys(rest);
        assert(s == seq![m] + t);
        K::lemma_key_order();
        assert forall|i: int, j: int| 0 <= i < j < s.len() implies s[i].key_rank()
            < s[j].key_rank() by {
            if i == 0 {
                assert(s[j] == t[j - 1]);
                assert(t.to_set().contains(t[j - 1]));
                assert(rest.contains(s[j]));
                assert(s[j] != m);
            } else {
                assert(s[i] == t[i - 1]);
                assert(s[j] == t[j - 1]);
            }
        }
        assert forall|k: K| #[trigger] s.to_set().contains(k) <==> d.contains(k) by {
            if d.contains(k) && k != m {
                assert(t.to_set().contains(k));
                let i = choose|i: int| 0 <= i < t.len() && t[i] == k;
                assert(s[i + 1] == k);
            }
            if s.to_set().contains(k) {
                let i = choose|i: int| 0 <= i < s.len() && s[i] == k;
                if i > 0 {
                    assert(t[i - 1] == k);
                    assert(t.to_set().contains(k));
                }
            }
            if k == m {
                assert(s[0] == m);
            }
        }
        assert(s.to_set() =~= d);
    }
}

/// Keys in increasing order that are exactly the keys of `d` are the sorted
/// keys of `d`.
pub proof fn lemma_sorted_keys_unique<K: WireKey>(d: Set<K>, s: Seq<K>)
    requires
        d.finite(),
        spec_increasing(s),
        s.to_set() == d,
    ensures
        s == spec_sorted_keys(d),
    decreases s.len(),
{
    K::lemma_key_order();
    if s.len() == 0 {
        assert(d =~= Set::<K>::empty());
    } else {
        assert(d.contains(s[0]));
        lemma_least_exists(d);
        let m = choose|m: K| spec_least(d, m);
        assert forall|x: K| #[trigger] d.contains(x) implies s[0].key_rank() <= x.key_rank() by {
            assert(s.to_set().contains(x));
            let i = choose|i: int| 0 <= i < s.len() && s[i] == x;
        }
        assert(s[0].key_rank() <= m.key_rank());
        assert(m.key_rank() <= s[0].key_rank());
        assert(s[0] == m);
        let rest = d.remove(m);
        let t = s.drop_first();
        assert forall|i: int, j: int| 0 <= i < j < t.len() implies t[i].key_rank()
            < t[j].key_rank() by {
            assert(t[i] == s[i + 1]);
            assert(t[j] == s[j + 1]);
        }
        assert forall|k: K| #[trigger] t.to_set().contains(k) <==> rest.contains(k) by {
            if t.to_set().contains(k) {
                let i = choose|i: int| 0 <= i < t.len() && t[i] == k;
                assert(s[i + 1] == k);
                assert(s.to_set().contains(k));
                assert(s[0].key_rank() < s[i + 1].key_rank());
            }
            if rest.contains(k) {
                assert(s.to_set().contains(k));
                let i = choose|i: int| 0 <= i < s.len() && s[i] == k;
                assert(i != 0);
                assert(t[i - 1] == k);
            }
        }
        assert(t.to_set() =~= rest);
        lemma_sorted_keys_unique(rest, t);
        assert(s =~= seq![m] + t);
    }
}

// ---------------------------------------------------------------------------
// Entries on the wire
// ---------------------------------------------------------------------------

/// The entries of `m` under `keys`, one after another: each key, then its
/// value.
pub open spec fn spec_wire_entries<K: WireCodec, V: WireCodec>(keys: Seq<K>, m: Map<K, V>) -> Seq<
    u8,
>
    decreases keys.len(),
{
    if keys.len() == 0 {
        seq![]
    } else {
        spec_wire_entries(keys.drop_last(), m) + keys.last().spec_wire() + m[keys.last()].spec_wire()
    }
}

pub proof fn lemma_wire_entries_step<K: WireCodec, V: WireCodec>(keys: Seq<K>, m: Map<K, V>, i: int)
    requires
        0 <= i < keys.len(),
    ensures
        spec_wire_entries(keys.take(i + 1), m) == spec_wire_entries(keys.take(i), m)
            + keys[i].spec_wire() + m[keys[i]].spec_wire(),
{
    assert(keys.take(i + 1).drop_last() =~= keys.take(i));
}

pub proof fn lemma_wire_entries_split<K: WireCodec, V: WireCodec>(
    keys: Seq<K>,
    m: Map<K, V>,
    i: int,
)
    requires
        0 <= i <= keys.len(),
    ensures
        spec_wire_entries(keys, m) == spec_wire_entries(keys.take(i), m) + spec_wire_entries(
            keys.skip(i),
            m,
        ),
    decreases keys.len(),
{
    if i == keys.len() {
        assert(keys.take(i) =~= keys);
        assert(keys.skip(i) =~= Seq::<K>::empty());
        assert(spec_wire_entries(keys, m) + Seq::<u8>::empty() =~= spec_wire_entries(keys, m));
    } else {
        let d = keys.drop_last();
        lemma_wire_entries_split(d, m, i);
        assert(d.take(i) =~= keys.take(i));
        assert(keys.skip(i).drop_last() =~= d.skip(i));
        assert(keys.skip(i).last() == keys.last());
        let a = spec_wire_entries(keys.take(i), m);
        let b = spec_wire_entries(d.skip(i), m);
        let c = keys.last().spec_wire();
        let e = m[keys.last()].spec_wire();
        assert(a + b + c + e =~= a + (b + c + e));
    }
}

/// When keys and values have fixed sizes `a` and `b`, `n` entries take
/// `n * (a + b)` bytes.
pub proof fn lemma_wire_entries_fixed_len<K: WireCodec, V: WireCodec>(
    keys: Seq<K>,
    m: Map<K, V>,
    a: nat,
    b: nat,
)
    requires
        K::spec_fixed_len() == Some(a),
        V::spec_fixed_len() == Some(b),
    ensures
        spec_wire_entries(keys, m).len() == keys.len() * (a + b),
    decreases keys.len(),
{
    if keys.len() > 0 {
        lemma_wire_entries_fixed_len(keys.drop_last(), m, a, b);
        keys.last().lemma_fixed_len();
        m[keys.last()].lemma_fixed_len();
        assert((keys.len() - 1) * (a + b) + (a + b) == keys.len() * (a + b)) by (nonlinear_arith);
    }
}

/// A map's iterator hands out its entries by increasing key.
proof fn lemma_iter_sorted<K: WireKey, V>(m: &BTreeMap<K, V>)
    requires
        increasing_seq(spec_btree_map_iter(m).remaining().map_values(|kv: (&K, &V)| *kv.0)),
    ensures
        ({
            let e = spec_btree_map_iter(m).remaining();
            let keys = spec_sorted_keys(m@.dom());
            &&& e.len() == keys.len()
            &&& forall|i: int| 0 <= i < e.len() ==> *e[i].0 == keys[i] && *e[i].1 == m@[keys[i]]
        }),
{
    broadcast use vstd::std_specs::btree::group_btree_axioms;

    K::lemma_key_order();
    let e = spec_btree_map_iter(m).remaining();
    let s = e.map_values(|kv: (&K, &V)| *kv.0);
    let d = m@.dom();
    assert(d.finite());
    assert forall|i: int, j: int| 0 <= i < j < s.len() implies s[i].key_rank() < s[j].key_rank() by {
        assert(s[i].cmp_spec(&s[j]) is Less);
    }
    assert forall|k: K| #[trigger] s.to_set().contains(k) <==> d.contains(k) by {
        if s.to_set().contains(k) {
            let i = choose|i: int| 0 <= i < s.len() && s[i] == k;
            assert(m@.contains_key(*e[i].0));
        }
        if d.contains(k) {
            assert(m@.contains_key(k));
            assert(e.contains((&k, &m@[k])));
            let i = choose|i: int| 0 <= i < e.len() && e[i] == (&k, &m@[k]);
            assert(s[i] == k);
        }
    }
    assert(s.to_set() =~= d);
    lemma_sorted_keys_unique(d, s);
    lemma_sorted_keys(d);
    assert forall|i: int| 0 <= i < e.len() implies *e[i].0 == spec_sorted_keys(d)[i] && *e[i].1
        == m@[spec_sorted_keys(d)[i]] by {
        assert(s[i] == *e[i].0);
        assert(m@.contains_key(*e[i].0));
    }
}

// ---------------------------------------------------------------------------
// Entries read back
// ---------------------------------------------------------------------------

/// The map that the entries of `m` under `keys` make, values taken by their
/// deep view.
pub open spec fn spec_deep_entries<K: WireKey, V: WireCodec>(keys: Seq<K>, m: Map<K, V>) -> Map<
    K,
    V::V,
>
    decreases keys.len(),
{
    if keys.len() == 0 {
        Map::empty()
    } else {
        spec_deep_entries(keys.drop_last(), m).insert(keys.last(), m[keys.last()].deep_view())
    }
}

pub proof fn lemma_deep_entries<K: WireKey, V: WireCodec>(keys: Seq<K>, m: Map<K, V>)
    ensures
        forall|k: K| #[trigger]
            spec_deep_entries(keys, m).contains_key(k) <==> keys.contains(k),
        forall|k: K|
            keys.contains(k) ==> #[trigger] spec_deep_entries(keys, m)[k] == m[k].deep_view(),
    decreases keys.len(),
{
    if keys.len() > 0 {
        let d = keys.drop_last();
        let last = keys.last();
        lemma_deep_entries(d, m);
        let e = spec_deep_entries(keys, m);
        assert(e == spec_deep_entries(d, m).insert(last, m[last].deep_view()));
        assert forall|k: K| #[trigger] e.contains_key(k) <==> keys.contains(k) by {
            if keys.contains(k) && k != last {
                let i = choose|i: int| 0 <= i < keys.len() && keys[i] == k;
                assert(i < keys.len() - 1);
                assert(d[i] == k);
                assert(d.contains(k));
            }
            if d.contains(k) {
                let i = choose|i: int| 0 <= i < d.len() && d[i] == k;
                assert(keys[i] == k);
            }
            if k == last {
                assert(keys[keys.len() - 1] == k);
            }
        }
        assert forall|k: K| keys.contains(k) implies #[trigger] e[k] == m[k].deep_view() by {
            if k != last {
                let i = choose|i: int| 0 <= i < keys.len() && keys[i] == k;
                assert(i < keys.len() - 1);
                assert(d[i] == k);
                assert(d.contains(k));
            }
        }
    }
}

/// Whether a packet with `remaining` bytes left can hold `count` entries when
/// keys and values both have a fixed size, and the error when it cannot.
pub open spec fn spec_pair_check<K: WireCodec, V: WireCodec>(count: nat, remaining: int) -> Option<
    WireError,
> {
    match (K::spec_fixed_len(), V::spec_fixed_len()) {
        (Some(a), Some(b)) => if a + b > usize::MAX {
            Some(WireError::IntegerOverflow)
        } else if count * (a + b) > usize::MAX {
            Some(WireError::IntegerOverflow)
        } else if count * (a + b) > remaining {
            Some(WireError::UnexpectedEof)
        } else {
            None
        },
        _ => None,
    }
}

/// Decoding `count` entries one after another from `pos`: the map they make
/// and the bytes they take. A key that repeats makes the packet malformed.
pub open spec fn spec_decode_entries<K: WireKey, V: WireCodec>(
    input: Seq<u8>,
    pos: nat,
    count: nat,
    limits: DecodeLimits,
) -> Result<(Map<K, V::V>, nat), WireError>
    decreases count,
{
    if count == 0 {
        Ok((Map::empty(), 0))
    } else {
        match spec_decode_entries::<K, V>(input, pos, (count - 1) as nat, limits) {
            Err(e) => Err(e),
            Ok((m, used)) => match K::spec_decode(input, pos + used, limits) {
                Err(e) => Err(e),
                Ok((k, a)) => match V::spec_decode(input, pos + used + a, limits) {
                    Err(e) => Err(e),
                    Ok((v, b)) => if m.contains_key(k) {
                        Err(WireError::MalformedConstructor)
                    } else {
                        Ok((m.insert(k, v), used + a + b))
                    },
                },
            },
        }
    }
}

proof fn lemma_decode_entries_err<K: WireKey, V: WireCodec>(
    input: Seq<u8>,
    pos: nat,
    j: nat,
    k: nat,
    limits: DecodeLimits,
)
    requires
        j <= k,
        spec_decode_entries::<K, V>(input, pos, j, limits) is Err,
    ensures
        spec_decode_entries::<K, V>(input, pos, k, limits) == spec_decode_entries::<K, V>(
            input,
            pos,
            j,
            limits,
        ),
    decreases k,
{
    if k > j {
        lemma_decode_entries_err::<K, V>(input, pos, j, (k - 1) as nat, limits);
    }
}

/// Every entry that a successful read takes is kept: the map has as many
/// keys as the packet announced entries, since a key that repeats is refused.
pub proof fn lemma_decoded_entries_distinct<K: WireKey, V: WireCodec>(
    input: Seq<u8>,
    pos: nat,
    count: nat,
    limits: DecodeLimits,
)
    ensures
        spec_decode_entries::<K, V>(input, pos, count, limits) matches Ok((m, used)) ==> m.dom().finite()
            && m.len() == count,
    decreases count,
{
    if count > 0 {
        lemma_decoded_entries_distinct::<K, V>(input, pos, (count - 1) as nat, limits);
    }
}

/// Reading back the entries of `m` under increasing `keys`, wherever they
/// stand in a packet.
proof fn lemma_decode_entries_round_trip<K: WireKey, V: WireCodec>(
    keys: Seq<K>,
    m: Map<K, V>,
    k: nat,
    head: Seq<u8>,
    tail: Seq<u8>,
    limits: DecodeLimits,
)
    requires
        k <= keys.len(),
        spec_increasing(keys),
        forall|i: int|
            0 <= i < keys.len() ==> (#[trigger] keys[i]).spec_within(limits) && m[keys[i]].spec_within(
                limits,
            ),
        head.len() + spec_wire_entries(keys, m).len() + tail.len() <= usize::MAX,
    ensures
        spec_decode_entries::<K, V>(head + spec_wire_entries(keys, m) + tail, head.len(), k, limits)
            == Ok::<(Map<K, V::V>, nat), WireError>(
            (spec_deep_entries(keys.take(k as int), m), spec_wire_entries(keys.take(k as int), m).len()),
        ),
    decreases k,
{
    let input = head + spec_wire_entries(keys, m) + tail;
    if k == 0 {
        assert(keys.take(0) =~= Seq::<K>::empty());
    } else {
        let j = (k - 1) as int;
        lemma_decode_entries_round_trip(keys, m, (k - 1) as nat, head, tail, limits);
        lemma_wire_entries_split(keys, m, k as int);
        lemma_wire_entries_step(keys, m, j);
        let key = keys[j];
        let kw = key.spec_wire();
        let vw = m[key].spec_wire();
        let before = head + spec_wire_entries(keys.take(j), m);
        let after = spec_wire_entries(keys.skip(k as int), m) + tail;
        assert(input =~= before + kw + (vw + after));
        key.lemma_round_trip(before, vw + after, limits);
        assert(input =~= (before + kw) + vw + after);
        m[key].lemma_round_trip(before + kw, after, limits);
        K::lemma_key_order();
        lemma_deep_entries(keys.take(j), m);
        if keys.take(j).contains(key) {
            let i = choose|i: int| 0 <= i < j && keys.take(j)[i] == key;
            assert(keys[i] == key);
        }
        assert(keys.take(k as int).drop_last() =~= keys.take(j));
    }
}

/// A map whose keys are their own deep view has the deep view of its values.
pub proof fn lemma_map_deep_view<K: WireKey, V: DeepView>(m: BTreeMap<K, V>)
    ensures
        m.deep_view() == m@.map_values(|v: V| v.deep_view()),
{
    K::lemma_key_order();
    reveal(vstd::std_specs::btree::btree_map_deep_view_impl);
    assert forall|k: K| #[trigger] m.deep_view().contains_key(k) <==> m@.contains_key(k) by {
        if m@.contains_key(k) {
            assert(k.deep_view() == k);
        }
    }
    assert(m.deep_view() =~= m@.map_values(|v: V| v.deep_view()));
}

// ---------------------------------------------------------------------------
// The codec
// ---------------------------------------------------------------------------

/// Takes the first of the items that an iterator has left.
fn take_item<I: Iterator>(it: &mut I) -> (r: I::Item)
    requires
        (*old(it)).obeys_prophetic_iter_laws(),
        (*old(it)).remaining().len() > 0,
    ensures
        r == (*old(it)).remaining()[0],
        (*final(it)).remaining() == (*old(it)).remaining().drop_first(),
{
    it.next().unwrap()
}

/// The check that fixed-size entries fit what is left passes with more
/// left when it passes with less.
proof fn lemma_pair_check_extends<K: WireCodec, V: WireCodec>(count: nat, less: int, more: int)
    requires
        less <= more,
        spec_pair_check::<K, V>(count, less) is None,
    ensures
        spec_pair_check::<K, V>(count, more) is None,
{
}

/// Entries read one after another from `input` read the same from `input`
/// followed by anything, and lie within `input`.
pub proof fn lemma_decode_entries_extends<K: WireKey, V: WireCodec>(
    input: Seq<u8>,
    more: Seq<u8>,
    pos: nat,
    count: nat,
    limits: DecodeLimits,
)
    requires
        pos <= input.len(),
        spec_decode_entries::<K, V>(input, pos, count, limits) is Ok,
    ensures
        spec_decode_entries::<K, V>(input + more, pos, count, limits) == spec_decode_entries::<K, V>(
            input,
            pos,
            count,
            limits,
        ),
        spec_decode_entries::<K, V>(input, pos, count, limits) matches Ok((_, m)) && pos + m
            <= input.len(),
    decreases count,
{
    if count > 0 {
        lemma_decode_entries_extends::<K, V>(input, more, pos, (count - 1) as nat, limits);
        let (m, used) = spec_decode_entries::<K, V>(input, pos, (count - 1) as nat, limits)->Ok_0;
        K::lemma_decode_extends(input, more, pos + used, limits);
        let (k, a) = K::spec_decode(input, pos + used, limits)->Ok_0;
        V::lemma_decode_extends(input, more, pos + used + a, limits);
    }
}

impl<K: WireKey, V: WireCodec> WireCodec for BTreeMap<K, V> {
    /// The entry count, then each key and its value by increasing key.
    open spec fn spec_wire(&self) -> Seq<u8> {
        spec_varint(self@.len()) + spec_wire_entries(spec_sorted_keys(self@.dom()), self@)
    }

    open spec fn spec_fixed_len() -> Option<nat> {
        None
    }

    /// The entry count, the check that fixed-size entries fit what is left,
    /// then the entries one after another.
    open spec fn spec_decode(input: Seq<u8>, pos: nat, limits: DecodeLimits) -> Result<
        (Map<K, V::V>, nat),
        WireError,
    > {
        match spec_count(input, pos, limits, None) {
            Err(e) => Err(e),
            Ok((count, n)) => match spec_pair_check::<K, V>(count, input.len() - (pos + n)) {
                Some(e) => Err(e),
                None => match spec_decode_entries::<K, V>(input, pos + n, count, limits) {
                    Ok((m, used)) => Ok((m, n + used)),
                    Err(e) => Err(e),
                },
            },
        }
    }

    /// Besides the limits on the entry count and on each key and value: when
    /// keys and values have fixed sizes, an entry's size fits a `usize`.
    open spec fn spec_within(&self, limits: DecodeLimits) -> bool {
        &&& self@.len() <= limits.max_collection_items
        &&& forall|k: K| #[trigger]
            self@.contains_key(k) ==> k.spec_within(limits) && self@[k].spec_within(limits)
        &&& (K::spec_fixed_len(), V::spec_fixed_len()) matches (Some(a), Some(b)) ==> a + b
            <= usize::MAX
    }

    fn fixed_encoded_len() -> (r: Option<usize>) {
        None
    }

    proof fn lemma_fixed_len(&self) {
    }

    fn encode(&self, encoder: &mut Encoder) -> (r: Result<(), WireError>) {
        broadcast use vstd::std_specs::btree::group_btree_axioms;

        proof {
            K::lemma_key_order();
            lemma_sorted_keys(self@.dom());
        }
        let ghost keys = spec_sorted_keys(self@.dom());
        let ghost m = self@;
        let len = self.len();
        let r0 = encoder.varint(len as u64);
        if r0.is_err() {
            proof {
                lemma_encoded_extend(
                    old(encoder)@,
                    old(encoder).max_size(),
                    spec_varint(len as nat),
                    spec_wire_entries(keys, m),
                    r0,
                    encoder@,
                );
            }
            return r0;
        }
        let mut it = self.iter();
        proof {
            lemma_iter_sorted(self);
        }
        let ghost entries = it.remaining();
        let mut i: usize = 0;
        while i < len
            invariant
                m == self@,
                len == m.len(),
                keys == spec_sorted_keys(m.dom()),
                len == keys.len(),
                i <= len,
                entries.len() == len,
                forall|j: int|
                    0 <= j < len ==> *entries[j].0 == keys[j] && *entries[j].1 == m[keys[j]],
                it.remaining() == entries.skip(i as int),
                encoder.max_size() == old(encoder).max_size(),
                encoder@ == old(encoder)@ + spec_varint(len as nat) + spec_wire_entries(
                    keys.take(i as int),
                    m,
                ),
                encoder@.len() <= old(encoder).max_size(),
            decreases len - i,
        {
            let (key, value) = take_item(&mut it);
            proof {
                assert(entries.skip(i as int)[0] == entries[i as int]);
                lemma_wire_entries_step(keys, m, i as int);
                lemma_wire_entries_split(keys, m, i + 1);
            }
            let ghost p = spec_varint(len as nat) + spec_wire_entries(keys.take(i as int), m);
            let ghost kw = key.spec_wire();
            let ghost vw = value.spec_wire();
            let ghost after = spec_wire_entries(keys.skip(i + 1), m);
            let ghost mid = encoder@;
            let rk = key.encode(encoder);
            if rk.is_err() {
                proof {
                    assert(mid =~= old(encoder)@ + p);
                    lemma_encoded_concat(old(encoder)@, old(encoder).max_size(), p, kw, rk, encoder@);
                    lemma_encoded_extend(
                        old(encoder)@,
                        old(encoder).max_size(),
                        p + kw,
                        vw + after,
                        rk,
                        encoder@,
                    );
                    assert(spec_wire_entries(keys, m) =~= spec_wire_entries(keys.take(i as int), m)
                        + kw + vw + after);
                    assert(p + kw + (vw + after) =~= self.spec_wire());
                }
                return rk;
            }
            let ghost mid2 = encoder@;
            let rv = value.encode(encoder);
            if rv.is_err() {
                proof {
                    assert(mid2 =~= old(encoder)@ + (p + kw));
                    lemma_encoded_concat(
                        old(encoder)@,
                        old(encoder).max_size(),
                        p + kw,
                        vw,
                        rv,
                        encoder@,
                    );
                    lemma_encoded_extend(
                        old(encoder)@,
                        old(encoder).max_size(),
                        p + kw + vw,
                        after,
                        rv,
                        encoder@,
                    );
                    assert(spec_wire_entries(keys, m) =~= spec_wire_entries(keys.take(i as int), m)
                        + kw + vw + after);
                    assert(p + kw + vw + after =~= self.spec_wire());
                }
                return rv;
            }
            proof {
                assert(encoder@ =~= old(encoder)@ + spec_varint(len as nat) + spec_wire_entries(
                    keys.take(i + 1),
                    m,
                ));
                assert(entries.skip(i as int).drop_first() =~= entries.skip(i + 1));
            }
            i = i + 1;
        }
        proof {
            assert(keys.take(len as int) =~= keys);
            assert(encoder@ =~= old(encoder)@ + self.spec_wire());
        }
        Ok(())
    }

    fn decode(decoder: &mut Decoder<'_>) -> (r: Result<Self, WireError>) {
        let ghost input = decoder.input();
        let ghost pos = decoder.pos();
        let ghost limits = decoder.limits();
        let count = decoder.collection_count()?;
        let ghost start = decoder.pos();
        match (K::fixed_encoded_len(), V::fixed_encoded_len()) {
            (Some(key_size), Some(value_size)) => {
                let pair_size = match key_size.checked_add(value_size) {
                    Some(pair_size) => pair_size,
                    None => return Err(WireError::IntegerOverflow),
                };
                let required = match count.checked_mul(pair_size) {
                    Some(required) => required,
                    None => return Err(WireError::IntegerOverflow),
                };
                let left = decoder.remaining();
                proof {
                    decoder.lemma_rest_len();
                }
                if required > left {
                    return Err(WireError::UnexpectedEof);
                }
            },
            _ => {},
        }
        proof {
            decoder.lemma_rest_len();
            assert(spec_pair_check::<K, V>(count as nat, input.len() - start) is None);
        }
        let mut result: BTreeMap<K, V> = BTreeMap::new();
        proof {
            lemma_map_deep_view(result);
            assert(result.deep_view() =~= Map::<K, V::V>::empty());
        }
        let mut i: usize = 0;
        while i < count
            invariant
                i <= count,
                decoder.same_packet(old(decoder)),
                input == decoder.input(),
                limits == decoder.limits(),
                input == old(decoder).input(),
                pos == old(decoder).pos(),
                limits == old(decoder).limits(),
                pos <= start <= decoder.pos(),
                spec_count(input, pos, limits, None) == Ok::<(nat, nat), WireError>(
                    (count as nat, (start - pos) as nat),
                ),
                spec_pair_check::<K, V>(count as nat, input.len() - start) is None,
                spec_decode_entries::<K, V>(input, start, i as nat, limits) == Ok::<
                    (Map<K, V::V>, nat),
                    WireError,
                >((result.deep_view(), (decoder.pos() - start) as nat)),
            decreases count - i,
        {
            proof {
                K::lemma_key_order();
            }
            let ghost before = decoder.pos();
            let key = match K::decode(decoder) {
                Ok(key) => key,
                Err(e) => {
                    proof {
                        lemma_decode_entries_err::<K, V>(
                            input,
                            start,
                            (i + 1) as nat,
                            count as nat,
                            limits,
                        );
                    }
                    return Err(e);
                },
            };
            let value = match V::decode(decoder) {
                Ok(value) => value,
                Err(e) => {
                    proof {
                        lemma_decode_entries_err::<K, V>(
                            input,
                            start,
                            (i + 1) as nat,
                            count as nat,
                            limits,
                        );
                    }
                    return Err(e);
                },
            };
            let ghost so_far = result.deep_view();
            proof {
                lemma_map_deep_view(result);
            }
            let previous = result.insert(key, value);
            proof {
                lemma_map_deep_view(result);
            }
            if previous.is_some() {
                proof {
                    assert(so_far.contains_key(key));
                    lemma_decode_entries_err::<K, V>(
                        input,
                        start,
                        (i + 1) as nat,
                        count as nat,
                        limits,
                    );
                }
                return Err(WireError::MalformedConstructor);
            }
            proof {
                assert(result.deep_view() =~= so_far.insert(key, value.deep_view()));
            }
            i = i + 1;
        }
        Ok(result)
    }

    fn encoded_len(&self) -> (r: usize) {
        broadcast use vstd::std_specs::btree::group_btree_axioms;

        proof {
            K::lemma_key_order();
            lemma_sorted_keys(self@.dom());
        }
        let ghost keys = spec_sorted_keys(self@.dom());
        let ghost m = self@;
        let len = self.len();
        let prefix = varint_len(len as u64);
        match (K::fixed_encoded_len(), V::fixed_encoded_len()) {
            (Some(key_size), Some(value_size)) => {
                proof {
                    lemma_wire_entries_fixed_len(keys, m, key_size as nat, value_size as nat);
                }
                let body: usize = match key_size.checked_add(value_size) {
                    Some(pair_size) => match len.checked_mul(pair_size) {
                        Some(body) => body,
                        None => usize::MAX,
                    },
                    None => if len == 0 {
                        0
                    } else {
                        proof {
                            assert(len * (key_size + value_size) >= key_size + value_size)
                                by (nonlinear_arith)
                                requires
                                    len >= 1,
                            ;
                        }
                        usize::MAX
                    },
                };
                prefix.saturating_add(body)
            },
            _ => {
                let mut it = self.iter();
                proof {
                    lemma_iter_sorted(self);
                }
                let ghost entries = it.remaining();
                let mut total: usize = prefix;
                let mut i: usize = 0;
                while i < len
                    invariant
                        len == keys.len(),
                        i <= len,
                        entries.len() == len,
                        forall|j: int|
                            0 <= j < len ==> *entries[j].0 == keys[j] && *entries[j].1 == m[keys[j]],
                        it.remaining() == entries.skip(i as int),
                        total == spec_saturate(
                            spec_varint(len as nat).len() + spec_wire_entries(
                                keys.take(i as int),
                                m,
                            ).len(),
                        ),
                    decreases len - i,
                {
                    let (key, value) = take_item(&mut it);
                    proof {
                        assert(entries.skip(i as int)[0] == entries[i as int]);
                        lemma_wire_entries_step(keys, m, i as int);
                        assert(entries.skip(i as int).drop_first() =~= entries.skip(i + 1));
                    }
                    let key_len = key.encoded_len();
                    let value_len = value.encoded_len();
                    total = total.saturating_add(key_len).saturating_add(value_len);
                    i = i + 1;
                }
                proof {
                    assert(keys.take(len as int) =~= keys);
                }
                total
            },
        }
    }

    proof fn lemma_decode_extends(input: Seq<u8>, more: Seq<u8>, pos: nat, limits: DecodeLimits) {
        lemma_count_extends(input, more, pos, limits, None);
        let (count, n) = spec_count(input, pos, limits, None)->Ok_0;
        assert((input + more).len() - (pos + n) >= input.len() - (pos + n));
        lemma_pair_check_extends::<K, V>(
            count,
            input.len() - (pos + n),
            (input + more).len() - (pos + n),
        );
        lemma_decode_entries_extends::<K, V>(input, more, pos + n, count, limits);
    }

    proof fn lemma_round_trip(&self, prefix: Seq<u8>, rest: Seq<u8>, limits: DecodeLimits) {
        broadcast use vstd::std_specs::btree::group_btree_axioms;

        K::lemma_key_order();
        let m = self@;
        let d = m.dom();
        let keys = spec_sorted_keys(d);
        lemma_sorted_keys(d);
        let len = m.len();
        let w = spec_wire_entries(keys, m);
        let input = prefix + self.spec_wire() + rest;
        assert(input.skip(prefix.len() as int) =~= spec_varint((len as u64) as nat) + (w + rest));
        lemma_varint_round_trip(len as u64, w + rest);
        let n = spec_varint(len).len();
        match (K::spec_fixed_len(), V::spec_fixed_len()) {
            (Some(a), Some(b)) => {
                lemma_wire_entries_fixed_len(keys, m, a, b);
            },
            _ => {},
        }
        assert forall|i: int| 0 <= i < keys.len() implies (#[trigger] keys[i]).spec_within(limits)
            && m[keys[i]].spec_within(limits) by {
            assert(keys.to_set().contains(keys[i]));
        }
        let head = prefix + spec_varint(len);
        assert(input =~= head + w + rest);
        lemma_decode_entries_round_trip(keys, m, len, head, rest, limits);
        assert(keys.take(len as int) =~= keys);
        lemma_deep_entries(keys, m);
        lemma_map_deep_view(*self);
        assert forall|k: K| #[trigger] keys.contains(k) <==> d.contains(k) by {
            assert(keys.to_set().contains(k) == keys.contains(k));
        }
        assert(spec_deep_entries(keys, m) =~= self.deep_view());
    }
}

} // verus!
