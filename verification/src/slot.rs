//! Slot-based stores for real-time point data: the point-id-to-slot index is
//! built once from the configured ids, and values then live in a vector of
//! slots.
use vstd::prelude::*;
use std::collections::HashMap;
use vstd::std_specs::iter::IteratorSpec;
use crate::point::{PointType, Quality, quality_from_u8, spec_quality_code, spec_quality_from_u8};

verus! {

broadcast use vstd::std_specs::hash::group_hash_axioms;

// ── Boolean store ──────────────────────────────────────────────────────────────

/// Boolean states of GPIO pins, by pin id.
#[derive(Debug)]
pub struct AtomicBoolStore {
    states: Vec<bool>,
    index: HashMap<u32, usize>,
}

impl AtomicBoolStore {
    #[verifier::type_invariant]
    spec fn inv(self) -> bool {
        &&& forall|p: u32| #[trigger] self.index@.contains_key(p) ==> self.index@[p] < self.states@.len()
        &&& forall|p: u32, q: u32|
            #[trigger] self.index@.contains_key(p) && #[trigger] self.index@.contains_key(q) && p != q
                ==> self.index@[p] != self.index@[q]
    }

    /// The state of each pin.
    pub closed spec fn pins(self) -> Map<u32, bool> {
        Map::new(|p: u32| self.index@.contains_key(p), |p: u32| self.states@[self.index@[p] as int])
    }

    /// The number of slots (one per id given, repeated ids included).
    pub closed spec fn slot_count(self) -> nat {
        self.states@.len()
    }

    /// A store with one slot per pin id, every pin off.
    pub fn from_pins(pin_ids: &[u32]) -> (s: Self)
        ensures
            s.pins().dom() == pin_ids@.to_set(),
            forall|p: u32| #[trigger] s.pins().contains_key(p) ==> !s.pins()[p],
            s.slot_count() == pin_ids@.len(),
    {
        let mut index: HashMap<u32, usize> = HashMap::new();
        let mut states: Vec<bool> = Vec::new();
        let mut i: usize = 0;
        while i < pin_ids.len()
            invariant
                i <= pin_ids@.len(),
                states@.len() == i,
                forall|j: int| 0 <= j < i ==> !states@[j],
                index@.dom() == pin_ids@.take(i as int).to_set(),
                forall|p: u32|
                    #[trigger] index@.contains_key(p) ==> index@[p] < i && pin_ids@[index@[p] as int]
                        == p,
            decreases pin_ids@.len() - i,
        {
            index.insert(pin_ids[i], i);
            states.push(false);
            proof {
                pin_ids@.take(i as int).lemma_push_to_set_commute(pin_ids@[i as int]);
                assert(pin_ids@.take(i + 1) =~= pin_ids@.take(i as int).push(pin_ids@[i as int]));
            }
            i += 1;
        }
        assert(pin_ids@.take(pin_ids@.len() as int) =~= pin_ids@);
        let s = AtomicBoolStore { states, index };
        assert(s.pins().dom() =~= pin_ids@.to_set());
        s
    }

    /// The state of `pin_id`, if it is in the store.
    pub fn get(&self, pin_id: u32) -> (r: Option<bool>)
        ensures
            r == (if self.pins().contains_key(pin_id) {
                Some(self.pins()[pin_id])
            } else {
                None
            }),
    {
        proof {
            use_type_invariant(self);
        }
        match self.index.get(&pin_id) {
            Some(idx) => Some(self.states[*idx]),
            None => None,
        }
    }

    /// Set the state of `pin_id`; ids not in the store are ignored.
    pub fn set(&mut self, pin_id: u32, value: bool)
        ensures
            final(self).pins() == spec_set_effect(old(self).pins(), pin_id, value),
            final(self).pins() == (if old(self).pins().contains_key(pin_id) {
                old(self).pins().insert(pin_id, value)
            } else {
                old(self).pins()
            }),
            final(self).slot_count() == old(self).slot_count(),
    {
        proof {
            use_type_invariant(&*self);
        }
        match self.index.get(&pin_id) {
            Some(idx) => {
                let i = *idx;
                self.states[i] = value;
                assert(self.pins() =~= old(self).pins().insert(pin_id, value));
            },
            None => {},
        }
    }

    /// Every pin with its state, each pin once, in no particular order.
    pub fn get_all(&self) -> (v: Vec<(u32, bool)>)
        ensures
            v@.len() == self.pins().dom().len(),
            forall|i: int|
                0 <= i < v@.len() ==> self.pins().contains_key((#[trigger] v@[i]).0) && self.pins()[v@[i].0]
                    == v@[i].1,
            forall|p: u32|
                #[trigger] self.pins().contains_key(p) ==> exists|i: int| 0 <= i < v@.len() && v@[i].0 == p,
            forall|i: int, j: int| 0 <= i < j < v@.len() ==> (#[trigger] v@[i]).0 != (#[trigger] v@[j]).0,
    {
        proof {
            use_type_invariant(self);
        }
        let mut v: Vec<(u32, bool)> = Vec::new();
        for e in it: self.index.iter()
            invariant
                self.index.iter().remaining().no_duplicates(),
                forall|p: u32| #[trigger] self.index@.contains_key(p) ==> self.index@[p] < self.states@.len(),
                v@.len() == it.index(),
                forall|i: int|
                    0 <= i < it.index() ==> (#[trigger] v@[i]).0 == *it.seq()[i].0 && v@[i].1
                        == self.states@[*it.seq()[i].1 as int],
        {
            let (k, idx) = e;
            assert(self.index@.contains_key(*k) && self.index@[*k] == *idx);
            v.push((*k, self.states[*idx]));
        }
        proof {
            let all = self.index.iter().remaining();
            assert(self.pins().dom() =~= self.index@.dom());
            assert forall|i: int| 0 <= i < v@.len() implies self.pins().contains_key((#[trigger] v@[i]).0)
                && self.pins()[v@[i].0] == v@[i].1 by {
                assert(self.index@.contains_key(*all[i].0) && self.index@[*all[i].0] == *all[i].1);
            }
            assert forall|p: u32| #[trigger] self.pins().contains_key(p) implies exists|i: int|
                0 <= i < v@.len() && v@[i].0 == p by {
                assert(all.contains((&p, &self.index@[p])));
                let i = choose|i: int| 0 <= i < all.len() && all[i] == (&p, &self.index@[p]);
                assert(v@[i].0 == p);
            }
            assert forall|i: int, j: int| 0 <= i < j < v@.len() implies (#[trigger] v@[i]).0 != (
            #[trigger] v@[j]).0 by {
                if v@[i].0 == v@[j].0 {
                    assert(self.index@.contains_key(*all[i].0) && self.index@[*all[i].0] == *all[i].1);
                    assert(self.index@.contains_key(*all[j].0) && self.index@[*all[j].0] == *all[j].1);
                    assert(all[i] == all[j]);
                }
            }
        }
        v
    }

    /// The number of slots.
    pub fn len(&self) -> (n: usize)
        ensures
            n == self.slot_count(),
    {
        self.states.len()
    }

    /// Whether the store has no slots.
    pub fn is_empty(&self) -> (b: bool)
        ensures
            b == (self.slot_count() == 0),
    {
        self.states.len() == 0
    }

    /// Whether `pin_id` is in the store.
    pub fn contains(&self, pin_id: u32) -> (b: bool)
        ensures
            b == self.pins().contains_key(pin_id),
    {
        self.index.contains_key(&pin_id)
    }
}

/// The pin states after `set(pin, value)`: the pin takes the value if it is in
/// the store, and nothing changes otherwise.
pub open spec fn spec_set_effect(m: Map<u32, bool>, pin: u32, value: bool) -> Map<u32, bool> {
    if m.contains_key(pin) {
        m.insert(pin, value)
    } else {
        m
    }
}

/// The state of `p` after the calls `set(pins[i], values[i])` on a store where
/// every pin starts off: the value of the last call for `p`, or off.
pub open spec fn spec_state_after(p: u32, pins: Seq<u32>, values: Seq<bool>) -> bool
    decreases pins.len(),
{
    if pins.len() == 0 || values.len() == 0 {
        false
    } else if pins.last() == p {
        values[pins.len() - 1]
    } else {
        spec_state_after(p, pins.drop_last(), values)
    }
}

/// A store made from `ids` keeps exactly those pins through any calls of `set`:
/// with distinct ids, `get_all` then lists `ids.len()` pins, and each pin holds
/// the value of the last `set` for it, or off when there was none. `stores[i]`
/// is the store before the `i`-th call, which is `set(pins[i], values[i])`.
pub proof fn lemma_pins_after_sets(stores: Seq<AtomicBoolStore>, ids: Seq<u32>, pins: Seq<u32>, values: Seq<bool>)
    requires
        stores.len() == pins.len() + 1,
        values.len() == pins.len(),
        stores[0].pins().dom() == ids.to_set(),
        forall|p: u32| #[trigger] stores[0].pins().contains_key(p) ==> !stores[0].pins()[p],
        forall|i: int|
            0 <= i < pins.len() ==> (#[trigger] stores[i + 1]).pins() == spec_set_effect(
                stores[i].pins(),
                pins[i],
                values[i],
            ),
    ensures
        stores.last().pins().dom() == ids.to_set(),
        ids.no_duplicates() ==> stores.last().pins().dom().len() == ids.len(),
        forall|p: u32|
            #[trigger] stores.last().pins().contains_key(p) ==> stores.last().pins()[p] == spec_state_after(
                p,
                pins,
                values,
            ),
    decreases pins.len(),
{
    if pins.len() > 0 {
        let n = pins.len() - 1;
        lemma_pins_after_sets(stores.drop_last(), ids, pins.drop_last(), values.drop_last());
        let before = stores[n].pins();
        assert(stores.drop_last().last() == stores[n]);
        assert(stores[n + 1].pins() == spec_set_effect(before, pins[n], values[n]));
        assert forall|p: u32| #[trigger] stores.last().pins().contains_key(p) implies stores.last().pins()[p]
            == spec_state_after(p, pins, values) by {
            if pins.last() != p {
                assert(spec_state_after(p, pins.drop_last(), values.drop_last()) == spec_state_after(
                    p,
                    pins.drop_last(),
                    values,
                )) by {
                    lemma_state_after_values(p, pins.drop_last(), values.drop_last(), values);
                }
            }
        }
        assert(stores.last().pins().dom() =~= before.dom());
    }
    if ids.no_duplicates() {
        ids.unique_seq_to_set();
    }
}

proof fn lemma_state_after_values(p: u32, pins: Seq<u32>, v1: Seq<bool>, v2: Seq<bool>)
    requires
        v1.len() >= pins.len(),
        v2.len() >= pins.len(),
        forall|i: int| 0 <= i < pins.len() ==> v1[i] == v2[i],
    ensures
        spec_state_after(p, pins, v1) == spec_state_after(p, pins, v2),
    decreases pins.len(),
{
    if pins.len() > 0 {
        lemma_state_after_values(p, pins.drop_last(), v1, v2);
    }
}

// ── Data slots ─────────────────────────────────────────────────────────────────

/// `chrono::Utc::now().timestamp_millis()`: the current time in Unix milliseconds.
/// It comes from the clock, so nothing is stated of it.
#[verifier::external_body]
fn now_unix_millis() -> i64 {
    chrono::Utc::now().timestamp_millis()
}

/// The latest value of one point, with its quality, time and an update counter.
#[derive(Debug)]
pub struct DataSlot<V> {
    value: Option<V>,
    quality: u8,
    timestamp_ms: i64,
    version: u64,
}

impl<V> DataSlot<V> {
    /// The value held, if one was ever written.
    pub closed spec fn value_spec(self) -> Option<V> {
        self.value
    }

    /// The byte of the quality held.
    pub closed spec fn quality_spec(self) -> u8 {
        self.quality
    }

    /// The time of the last write (Unix ms; 0 before any).
    pub closed spec fn timestamp_spec(self) -> i64 {
        self.timestamp_ms
    }

    /// The number of writes so far (wrapping).
    pub closed spec fn version_spec(self) -> u64 {
        self.version
    }

    /// An empty slot: no value, quality Good, time 0, version 0.
    pub fn new() -> (s: Self)
        ensures
            s.value_spec() is None,
            s.quality_spec() == spec_quality_code(Quality::Good),
            s.timestamp_spec() == 0,
            s.version_spec() == 0,
    {
        DataSlot { value: None, quality: 0, timestamp_ms: 0, version: 0 }
    }

    /// Write a value with its quality, stamped with the current time; the version
    /// goes up by one (wrapping).
    pub fn update(&mut self, value: V, quality: Quality)
        ensures
            spec_update_step(*old(self), *final(self), value, quality),
            final(self).value_spec() == Some(value),
            final(self).quality_spec() == spec_quality_code(quality),
            final(self).version_spec() == (old(self).version_spec() as nat + 1) % 0x1_0000_0000_0000_0000,
    {
        let next = DataSlot::written(self.version, value, quality);
        *self = next;
    }

    /// The slot after a write over a slot of version `version`.
    fn written(version: u64, value: V, quality: Quality) -> (s: Self)
        ensures
            s.value_spec() == Some(value),
            s.quality_spec() == spec_quality_code(quality),
            s.version_spec() == (version as nat + 1) % 0x1_0000_0000_0000_0000,
    {
        let now_ms = now_unix_millis();
        DataSlot {
            value: Some(value),
            quality: quality.code(),
            timestamp_ms: now_ms,
            version: version.wrapping_add(1),
        }
    }

    /// The update counter.
    pub fn version(&self) -> (v: u64)
        ensures
            v == self.version_spec(),
    {
        self.version
    }
}

/// Whether `after` is `before` after one `update(value, quality)`.
pub open spec fn spec_update_step<V>(before: DataSlot<V>, after: DataSlot<V>, value: V, quality: Quality) -> bool {
    &&& after.value_spec() == Some(value)
    &&& after.quality_spec() == spec_quality_code(quality)
    &&& after.version_spec() == (before.version_spec() as nat + 1) % 0x1_0000_0000_0000_0000
}

/// The version after `k` updates of a fresh slot is `k` (wrapping).
proof fn lemma_versions_count<V>(slots: Seq<DataSlot<V>>, values: Seq<V>, qualities: Seq<Quality>, k: int)
    requires
        slots.len() == values.len() + 1,
        qualities.len() == values.len(),
        slots[0].version_spec() == 0,
        forall|i: int|
            0 <= i < values.len() ==> spec_update_step(
                #[trigger] slots[i],
                slots[i + 1],
                values[i],
                qualities[i],
            ),
        0 <= k <= values.len(),
    ensures
        slots[k].version_spec() == k % 0x1_0000_0000_0000_0000,
    decreases k,
{
    if k > 0 {
        lemma_versions_count(slots, values, qualities, k - 1);
        assert(spec_update_step(slots[k - 1], slots[k], values[k - 1], qualities[k - 1]));
        vstd::arithmetic::div_mod::lemma_add_mod_noop(k - 1, 1, 0x1_0000_0000_0000_0000);
    }
}

/// A fresh slot updated `n` times, with value `values[i]` and quality
/// `qualities[i]` at the `i`-th update, has version `n` (wrapping at 2^64), and
/// holds no value when `n` is 0 and the last value and quality otherwise.
pub proof fn lemma_version_counts_updates<V>(slots: Seq<DataSlot<V>>, values: Seq<V>, qualities: Seq<Quality>)
    requires
        slots.len() == values.len() + 1,
        qualities.len() == values.len(),
        slots[0].value_spec() is None,
        slots[0].version_spec() == 0,
        forall|i: int|
            0 <= i < values.len() ==> spec_update_step(
                #[trigger] slots[i],
                slots[i + 1],
                values[i],
                qualities[i],
            ),
    ensures
        slots.last().version_spec() == values.len() % 0x1_0000_0000_0000_0000,
        values.len() == 0 ==> slots.last().value_spec() is None,
        values.len() > 0 ==> slots.last().value_spec() == Some(values.last())
            && slots.last().quality_spec() == spec_quality_code(qualities.last()),
{
    lemma_versions_count(slots, values, qualities, values.len() as int);
    if values.len() > 0 {
        let n = values.len() - 1;
        assert(spec_update_step(slots[n], slots[n + 1], values[n], qualities[n]));
    }
}

impl<V: Clone> DataSlot<V> {
    /// The value (a clone), quality, time and version, once a value was written.
    pub fn read(&self) -> (r: Option<(V, Quality, i64, u64)>)
        ensures
            match self.value_spec() {
                None => r is None,
                Some(v) => r matches Some((x, q, t, n)) && cloned(v, x) && q == spec_quality_from_u8(
                    self.quality_spec(),
                ) && t == self.timestamp_spec() && n == self.version_spec(),
            },
    {
        match &self.value {
            Some(v) => Some((v.clone(), quality_from_u8(self.quality), self.timestamp_ms, self.version)),
            None => None,
        }
    }
}

impl<V> Default for DataSlot<V> {
    fn default() -> (s: Self)
        ensures
            s.value_spec() is None,
            s.quality_spec() == spec_quality_code(Quality::Good),
            s.timestamp_spec() == 0,
            s.version_spec() == 0,
    {
        DataSlot::new()
    }
}


// ── Slot stores ────────────────────────────────────────────────────────────────

/// What a written slot exports: the point, its kind, a copy of its value, its
/// quality and the time of the write (Unix ms).
#[derive(Debug, Clone)]
pub struct SlotReading<V> {
    pub id: u32,
    pub point_type: PointType,
    pub value: V,
    pub quality: Quality,
    pub timestamp_ms: i64,
}

/// Whether `r` is the export of `slot`, which belongs to point `id` of kind `pt`.
pub open spec fn spec_is_reading<V: Clone>(r: SlotReading<V>, id: u32, pt: PointType, slot: DataSlot<V>) -> bool {
    &&& slot.value_spec() is Some
    &&& r.id == id
    &&& r.point_type == pt
    &&& cloned(slot.value_spec().unwrap(), r.value)
    &&& r.quality == spec_quality_from_u8(slot.quality_spec())
    &&& r.timestamp_ms == slot.timestamp_spec()
}

/// The positions of the slots that were ever written, in order.
pub open spec fn spec_written<V>(slots: Seq<DataSlot<V>>) -> Seq<int>
    decreases slots.len(),
{
    if slots.len() == 0 {
        Seq::empty()
    } else {
        let prev = spec_written(slots.drop_last());
        if slots.last().value_spec() is Some {
            prev.push(slots.len() - 1)
        } else {
            prev
        }
    }
}

proof fn lemma_written_bounds<V>(slots: Seq<DataSlot<V>>)
    ensures
        forall|k: int|
            0 <= k < spec_written(slots).len() ==> 0 <= #[trigger] spec_written(slots)[k] < slots.len()
                && slots[spec_written(slots)[k]].value_spec() is Some,
    decreases slots.len(),
{
    if slots.len() > 0 {
        lemma_written_bounds(slots.drop_last());
    }
}

impl<V: Clone> DataSlot<V> {
    /// The export of this slot for point `id` of kind `pt`, once it was written.
    fn reading(&self, id: u32, pt: PointType) -> (r: Option<SlotReading<V>>)
        ensures
            self.value_spec() is Some <==> r is Some,
            r matches Some(x) ==> spec_is_reading(x, id, pt, *self),
    {
        match &self.value {
            Some(v) => Some(
                SlotReading {
                    id,
                    point_type: pt,
                    value: v.clone(),
                    quality: quality_from_u8(self.quality),
                    timestamp_ms: self.timestamp_ms,
                },
            ),
            None => None,
        }
    }
}

/// Export the written slots of `slots` (belonging to `ids`) onto `out`.
fn export_slots<V: Clone>(ids: &Vec<u32>, slots: &Vec<DataSlot<V>>, pt: PointType, out: &mut Vec<SlotReading<V>>)
    requires
        ids@.len() == slots@.len(),
    ensures
        final(out)@.len() == old(out)@.len() + spec_written(slots@).len(),
        forall|k: int| 0 <= k < old(out)@.len() ==> #[trigger] final(out)@[k] == old(out)@[k],
        forall|k: int|
            0 <= k < spec_written(slots@).len() ==> spec_is_reading(
                #[trigger] final(out)@[old(out)@.len() + k],
                ids@[spec_written(slots@)[k]],
                pt,
                slots@[spec_written(slots@)[k]],
            ),
{
    let ghost base = old(out)@.len();
    let mut i: usize = 0;
    while i < slots.len()
        invariant
            i <= slots@.len(),
            ids@.len() == slots@.len(),
            base == old(out)@.len(),
            out@.len() == base + spec_written(slots@.take(i as int)).len(),
            forall|k: int| 0 <= k < base ==> #[trigger] out@[k] == old(out)@[k],
            forall|k: int|
                0 <= k < spec_written(slots@.take(i as int)).len() ==> spec_is_reading(
                    #[trigger] out@[base + k],
                    ids@[spec_written(slots@.take(i as int))[k]],
                    pt,
                    slots@[spec_written(slots@.take(i as int))[k]],
                ),
        decreases slots@.len() - i,
    {
        let ghost before = out@;
        let ghost w = spec_written(slots@.take(i as int));
        assert(slots@.take(i + 1).drop_last() =~= slots@.take(i as int));
        proof {
            lemma_written_bounds(slots@.take(i as int));
        }
        match slots[i].reading(ids[i], pt) {
            Some(r) => {
                out.push(r);
            },
            None => {},
        }
        proof {
            let w2 = spec_written(slots@.take(i + 1));
            assert forall|k: int| 0 <= k < w2.len() implies spec_is_reading(
                #[trigger] out@[base + k],
                ids@[w2[k]],
                pt,
                slots@[w2[k]],
            ) by {
                if k < w.len() {
                    assert(w2[k] == w[k]);
                    assert(out@[base + k] == before[base + k]);
                    assert(slots@.take(i as int)[w[k]] == slots@[w[k]]);
                }
            }
        }
        i += 1;
    }
    assert(slots@.take(slots@.len() as int) =~= slots@);
}

/// Slots for a fixed set of points of one kind, found by point id.
#[derive(Debug)]
pub struct SlotStore<V> {
    slots: Vec<DataSlot<V>>,
    index: HashMap<u32, usize>,
    point_ids: Vec<u32>,
    point_type: PointType,
}

impl<V> SlotStore<V> {
    #[verifier::type_invariant]
    spec fn inv(self) -> bool {
        &&& self.slots@.len() == self.point_ids@.len()
        &&& forall|p: u32| #[trigger]
            self.index@.contains_key(p) ==> self.index@[p] < self.slots@.len()
                && self.point_ids@[self.index@[p] as int] == p
    }

    /// The slot of each point.
    pub closed spec fn slot_map(self) -> Map<u32, DataSlot<V>> {
        Map::new(|p: u32| self.index@.contains_key(p), |p: u32| self.slots@[self.index@[p] as int])
    }

    /// The slots in order, one per id given (repeated ids included).
    pub closed spec fn slot_seq(self) -> Seq<DataSlot<V>> {
        self.slots@
    }

    /// The ids given, in order.
    pub closed spec fn ids(self) -> Seq<u32> {
        self.point_ids@
    }

    /// The kind of every point of the store.
    pub closed spec fn kind(self) -> PointType {
        self.point_type
    }

    /// A store with no points (of kind telemetry).
    pub fn empty() -> (s: Self)
        ensures
            s.slot_map() == Map::<u32, DataSlot<V>>::empty(),
            s.ids() == Seq::<u32>::empty(),
            s.slot_seq().len() == 0,
            s.kind() == PointType::Telemetry,
    {
        let s = SlotStore {
            slots: Vec::new(),
            index: HashMap::new(),
            point_ids: Vec::new(),
            point_type: PointType::Telemetry,
        };
        assert(s.slot_map() =~= Map::<u32, DataSlot<V>>::empty());
        s
    }

    /// A store with one empty slot per id (a repeated id keeps its last slot).
    pub fn from_points(point_ids: &[u32], point_type: PointType) -> (s: Self)
        ensures
            s.slot_map().dom() == point_ids@.to_set(),
            forall|p: u32| #[trigger]
                s.slot_map().contains_key(p) ==> s.slot_map()[p].value_spec() is None
                    && s.slot_map()[p].version_spec() == 0,
            s.ids() == point_ids@,
            s.slot_seq().len() == point_ids@.len(),
            forall|i: int| 0 <= i < s.slot_seq().len() ==> (#[trigger] s.slot_seq()[i]).value_spec() is None,
            s.kind() == point_type,
    {
        let mut index: HashMap<u32, usize> = HashMap::new();
        let mut slots: Vec<DataSlot<V>> = Vec::new();
        let mut ids: Vec<u32> = Vec::new();
        let mut i: usize = 0;
        while i < point_ids.len()
            invariant
                i <= point_ids@.len(),
                slots@.len() == i,
                ids@ == point_ids@.take(i as int),
                forall|j: int| 0 <= j < i ==> (#[trigger] slots@[j]).value_spec() is None && slots@[j].version_spec() == 0,
                index@.dom() == point_ids@.take(i as int).to_set(),
                forall|p: u32|
                    #[trigger] index@.contains_key(p) ==> index@[p] < i && point_ids@[index@[p] as int] == p,
            decreases point_ids@.len() - i,
        {
            index.insert(point_ids[i], i);
            slots.push(DataSlot::new());
            ids.push(point_ids[i]);
            proof {
                point_ids@.take(i as int).lemma_push_to_set_commute(point_ids@[i as int]);
                assert(point_ids@.take(i + 1) =~= point_ids@.take(i as int).push(point_ids@[i as int]));
            }
            i += 1;
        }
        assert(point_ids@.take(point_ids@.len() as int) =~= point_ids@);
        let s = SlotStore { slots, index, point_ids: ids, point_type };
        assert(s.slot_map().dom() =~= point_ids@.to_set());
        s
    }

    /// A store of telemetry points.
    pub fn telemetry(point_ids: &[u32]) -> (s: Self)
        ensures
            s.slot_map().dom() == point_ids@.to_set(),
            forall|p: u32| #[trigger]
                s.slot_map().contains_key(p) ==> s.slot_map()[p].value_spec() is None
                    && s.slot_map()[p].version_spec() == 0,
            s.ids() == point_ids@,
            s.slot_seq().len() == point_ids@.len(),
            forall|i: int| 0 <= i < s.slot_seq().len() ==> (#[trigger] s.slot_seq()[i]).value_spec() is None,
            s.kind() == PointType::Telemetry,
    {
        Self::from_points(point_ids, PointType::Telemetry)
    }

    /// The slot of `point_id`, if it is in the store.
    pub fn get(&self, point_id: u32) -> (r: Option<&DataSlot<V>>)
        ensures
            r is Some <==> self.slot_map().contains_key(point_id),
            r matches Some(x) ==> *x == self.slot_map()[point_id],
    {
        proof {
            use_type_invariant(self);
        }
        match self.index.get(&point_id) {
            Some(idx) => Some(&self.slots[*idx]),
            None => None,
        }
    }

    /// Write a value with its quality to the slot of `point_id`; ids not in the
    /// store are ignored. No other slot changes.
    pub fn update(&mut self, point_id: u32, value: V, quality: Quality)
        ensures
            final(self).slot_map().dom() == old(self).slot_map().dom(),
            forall|p: u32| #[trigger]
                final(self).slot_map().contains_key(p) && p != point_id ==> final(self).slot_map()[p]
                    == old(self).slot_map()[p],
            old(self).slot_map().contains_key(point_id) ==> {
                let s = final(self).slot_map()[point_id];
                &&& s.value_spec() == Some(value)
                &&& s.quality_spec() == spec_quality_code(quality)
                &&& s.version_spec() == (old(self).slot_map()[point_id].version_spec() as nat + 1)
                    % 0x1_0000_0000_0000_0000
            },
            !old(self).slot_map().contains_key(point_id) ==> final(self).slot_seq() == old(self).slot_seq(),
            final(self).slot_seq().len() == old(self).slot_seq().len(),
            final(self).ids() == old(self).ids(),
            final(self).kind() == old(self).kind(),
    {
        proof {
            use_type_invariant(&*self);
        }
        match self.index.get(&point_id) {
            Some(idx) => {
                let i = *idx;
                let next = DataSlot::written(self.slots[i].version, value, quality);
                self.slots[i] = next;
                assert(final(self).slot_map().dom() =~= old(self).slot_map().dom());
            },
            None => {},
        }
    }

    /// The number of slots.
    pub fn len(&self) -> (n: usize)
        ensures
            n == self.slot_seq().len(),
    {
        self.slots.len()
    }

    /// Whether the store has no slots.
    pub fn is_empty(&self) -> (b: bool)
        ensures
            b == (self.slot_seq().len() == 0),
    {
        self.slots.len() == 0
    }

    /// Whether `point_id` is in the store.
    pub fn contains(&self, point_id: u32) -> (b: bool)
        ensures
            b == self.slot_map().contains_key(point_id),
    {
        self.index.contains_key(&point_id)
    }

    /// The ids given, in order.
    pub fn point_ids(&self) -> (r: &[u32])
        ensures
            r@ == self.ids(),
    {
        self.point_ids.as_slice()
    }
}

impl<V: Clone> SlotStore<V> {
    /// The readings of the slots that were written, in slot order.
    pub fn export_all(&self) -> (r: Vec<SlotReading<V>>)
        ensures
            r@.len() == spec_written(self.slot_seq()).len(),
            forall|k: int|
                0 <= k < r@.len() ==> spec_is_reading(
                    #[trigger] r@[k],
                    self.ids()[spec_written(self.slot_seq())[k]],
                    self.kind(),
                    self.slot_seq()[spec_written(self.slot_seq())[k]],
                ),
    {
        proof {
            use_type_invariant(self);
        }
        let mut out: Vec<SlotReading<V>> = Vec::new();
        export_slots(&self.point_ids, &self.slots, self.point_type, &mut out);
        proof {
            assert forall|k: int| 0 <= k < out@.len() implies spec_is_reading(
                #[trigger] out@[k],
                self.ids()[spec_written(self.slot_seq())[k]],
                self.kind(),
                self.slot_seq()[spec_written(self.slot_seq())[k]],
            ) by {
                assert(out@[0 + k] == out@[k]);
            }
        }
        out
    }
}


/// The ids of `ids` that fall to shard `s` of `n` (`id % n == s`), in order.
pub open spec fn spec_shard_of(ids: Seq<u32>, n: int, s: int) -> Seq<u32> {
    ids.filter(|p: u32| p as int % n == s)
}

proof fn lemma_shard_push(ids: Seq<u32>, p: u32, n: int, s: int)
    ensures
        spec_shard_of(ids.push(p), n, s) == (if p as int % n == s {
            spec_shard_of(ids, n, s).push(p)
        } else {
            spec_shard_of(ids, n, s)
        }),
{
    reveal(Seq::filter);
    assert(ids.push(p).drop_last() =~= ids);
}

proof fn lemma_shard_contains(ids: Seq<u32>, n: int, p: u32)
    requires
        n >= 1,
    ensures
        spec_shard_of(ids, n, p as int % n).contains(p) <==> ids.contains(p),
{
    let pred = |x: u32| x as int % n == p as int % n;
    if ids.contains(p) {
        let i = choose|i: int| 0 <= i < ids.len() && ids[i] == p;
        ids.lemma_filter_contains(pred, i);
    }
    if spec_shard_of(ids, n, p as int % n).contains(p) {
        ids.lemma_filter_contains_rev(pred, p);
    }
}

/// Slots for a fixed set of points of one kind, spread over shards by point id
/// (`id % shard_count`).
pub struct ShardedSlotStore<V> {
    shards: Vec<Vec<DataSlot<V>>>,
    index: HashMap<u32, (usize, usize)>,
    shard_point_ids: Vec<Vec<u32>>,
    shard_count: usize,
    point_type: PointType,
}

impl<V> ShardedSlotStore<V> {
    /// Every shard has one slot per id listed for it, and each id of the
    /// index leads to its own entry.
    pub closed spec fn wf(self) -> bool {
        &&& self.shard_count >= 1
        &&& self.shards@.len() == self.shard_count
        &&& self.shard_point_ids@.len() == self.shard_count
        &&& forall|s: int|
            0 <= s < self.shard_count ==> (#[trigger] self.shards@[s])@.len()
                == self.shard_point_ids@[s]@.len()
        &&& forall|p: u32| #[trigger]
            self.index@.contains_key(p) ==> {
                let (s, i) = self.index@[p];
                &&& s < self.shard_count
                &&& i < self.shard_point_ids@[s as int]@.len()
                &&& self.shard_point_ids@[s as int]@[i as int] == p
            }
    }

    /// The slot of each point.
    pub closed spec fn slot_map(self) -> Map<u32, DataSlot<V>> {
        Map::new(
            |p: u32| self.index@.contains_key(p),
            |p: u32| self.shards@[self.index@[p].0 as int]@[self.index@[p].1 as int],
        )
    }

    /// The slots of each shard, in order.
    pub closed spec fn shard_slots(self) -> Seq<Seq<DataSlot<V>>> {
        self.shards@.map_values(|v: Vec<DataSlot<V>>| v@)
    }

    /// The ids of each shard, in order.
    pub closed spec fn shard_ids(self) -> Seq<Seq<u32>> {
        self.shard_point_ids@.map_values(|v: Vec<u32>| v@)
    }

    /// The number of shards.
    pub closed spec fn count(self) -> nat {
        self.shard_count as nat
    }

    /// The kind of every point of the store.
    pub closed spec fn kind(self) -> PointType {
        self.point_type
    }

    /// A store with one empty slot per id, spread over `shard_count` shards (at
    /// least one): shard `s` holds, in order, the ids with `id % count == s`.
    pub fn new(point_ids: &[u32], shard_count: usize, point_type: PointType) -> (st: Self)
        ensures
            st.wf(),
            st.count() == (if shard_count >= 1 { shard_count as nat } else { 1 }),
            st.slot_map().dom() == point_ids@.to_set(),
            forall|p: u32| #[trigger]
                st.slot_map().contains_key(p) ==> st.slot_map()[p].value_spec() is None,
            st.shard_ids().len() == st.count(),
            forall|s: int|
                0 <= s < st.count() ==> #[trigger] st.shard_ids()[s] == spec_shard_of(
                    point_ids@,
                    st.count() as int,
                    s,
                ),
            forall|s: int, i: int|
                0 <= s < st.count() && 0 <= i < st.shard_slots()[s].len() ==> (#[trigger] st.shard_slots()[s][i]).value_spec() is None,
            st.kind() == point_type,
    {
        let count: usize = if shard_count >= 1 { shard_count } else { 1 };
        let ghost n = count as int;
        // The ids of each shard.
        let mut shard_points: Vec<Vec<u32>> = Vec::new();
        let mut s: usize = 0;
        while s < count
            invariant
                s <= count,
                shard_points@.len() == s,
                forall|t: int| 0 <= t < s ==> (#[trigger] shard_points@[t])@ == Seq::<u32>::empty(),
            decreases count - s,
        {
            shard_points.push(Vec::new());
            s += 1;
        }
        let mut i: usize = 0;
        while i < point_ids.len()
            invariant
                count >= 1,
                n == count as int,
                i <= point_ids@.len(),
                shard_points@.len() == count,
                forall|t: int|
                    0 <= t < count ==> (#[trigger] shard_points@[t])@ == spec_shard_of(
                        point_ids@.take(i as int),
                        n,
                        t,
                    ),
            decreases point_ids@.len() - i,
        {
            let p = point_ids[i];
            let k = (p as usize) % count;
            let ghost before = shard_points@;
            shard_points[k].push(p);
            proof {
                assert(point_ids@.take(i + 1) =~= point_ids@.take(i as int).push(p));
                assert forall|t: int| 0 <= t < count implies (#[trigger] shard_points@[t])@ == spec_shard_of(
                    point_ids@.take(i + 1),
                    n,
                    t,
                ) by {
                    lemma_shard_push(point_ids@.take(i as int), p, n, t);
                    if t != k {
                        assert(shard_points@[t] == before[t]);
                    }
                }
            }
            i += 1;
        }
        assert(point_ids@.take(point_ids@.len() as int) =~= point_ids@);
        // The slots and the index, shard by shard.
        let mut index: HashMap<u32, (usize, usize)> = HashMap::new();
        let mut shards: Vec<Vec<DataSlot<V>>> = Vec::new();
        let mut shard_ids: Vec<Vec<u32>> = Vec::new();
        let mut s: usize = 0;
        while s < count
            invariant
                count >= 1,
                n == count as int,
                s <= count,
                shard_points@.len() == count,
                forall|t: int|
                    0 <= t < count ==> (#[trigger] shard_points@[t])@ == spec_shard_of(point_ids@, n, t),
                shards@.len() == s,
                shard_ids@.len() == s,
                forall|t: int| 0 <= t < s ==> (#[trigger] shard_ids@[t])@ == shard_points@[t]@,
                forall|t: int| 0 <= t < s ==> (#[trigger] shards@[t])@.len() == shard_points@[t]@.len(),
                forall|t: int, j: int|
                    0 <= t < s && 0 <= j < shards@[t]@.len() ==> (#[trigger] shards@[t]@[j]).value_spec() is None,
                forall|p: u32| #[trigger]
                    index@.contains_key(p) <==> (point_ids@.contains(p) && p as int % n < s),
                forall|p: u32| #[trigger]
                    index@.contains_key(p) ==> {
                        let (t, j) = index@[p];
                        &&& t < s
                        &&& j < shard_ids@[t as int]@.len()
                        &&& shard_ids@[t as int]@[j as int] == p
                    },
            decreases count - s,
        {
            let ghost pts = shard_points@[s as int]@;
            let mut slots: Vec<DataSlot<V>> = Vec::new();
            let mut ids: Vec<u32> = Vec::new();
            let mut j: usize = 0;
            while j < shard_points[s].len()
                invariant
                    count >= 1,
                    n == count as int,
                    s < count,
                    shard_points@.len() == count,
                    pts == shard_points@[s as int]@,
                    pts == spec_shard_of(point_ids@, n, s as int),
                    j <= pts.len(),
                    slots@.len() == j,
                    ids@ == pts.take(j as int),
                    forall|x: int| 0 <= x < j ==> (#[trigger] slots@[x]).value_spec() is None,
                    shards@.len() == s,
                    shard_ids@.len() == s,
                    forall|p: u32| #[trigger]
                        index@.contains_key(p) <==> ((point_ids@.contains(p) && p as int % n < s)
                            || pts.take(j as int).contains(p)),
                    forall|p: u32| #[trigger]
                        index@.contains_key(p) ==> {
                            let (t, x) = index@[p];
                            &&& t <= s
                            &&& t < s ==> x < shard_ids@[t as int]@.len() && shard_ids@[t as int]@[x as int] == p
                            &&& t == s ==> x < j && pts[x as int] == p
                        },
                decreases pts.len() - j,
            {
                let p = shard_points[s][j];
                index.insert(p, (s, j));
                slots.push(DataSlot::new());
                ids.push(p);
                proof {
                    let a = pts.take(j as int);
                    let b = pts.take(j + 1);
                    assert(b =~= a.push(p));
                    assert forall|q: u32| b.contains(q) <==> (a.contains(q) || q == p) by {
                        if a.contains(q) {
                            let x = choose|x: int| 0 <= x < a.len() && a[x] == q;
                            assert(b[x] == q);
                        }
                        if q == p {
                            assert(b[j as int] == p);
                        }
                        if b.contains(q) {
                            let x = choose|x: int| 0 <= x < b.len() && b[x] == q;
                            if x < j {
                                assert(a[x] == q);
                            }
                        }
                    }
                }
                j += 1;
            }
            proof {
                assert(pts.take(pts.len() as int) =~= pts);
                assert forall|p: u32| #[trigger] index@.contains_key(p) <==> (point_ids@.contains(p) && p as int
                    % n < s + 1) by {
                    lemma_shard_contains(point_ids@, n, p);
                    if pts.contains(p) {
                        let x = choose|x: int| 0 <= x < pts.len() && pts[x] == p;
                        let pred = |q: u32| q as int % n == s as int;
                        point_ids@.lemma_filter_pred(pred, x);
                    }
                }
            }
            let ghost prev_ids = shard_ids@;
            shards.push(slots);
            shard_ids.push(ids);
            proof {
                assert forall|p: u32| #[trigger] index@.contains_key(p) implies ({
                    let (t, x) = index@[p];
                    &&& t < s + 1
                    &&& x < shard_ids@[t as int]@.len()
                    &&& shard_ids@[t as int]@[x as int] == p
                }) by {
                    let (t, x) = index@[p];
                    if t < s {
                        assert(shard_ids@[t as int] == prev_ids[t as int]);
                    }
                }
            }
            s += 1;
        }
        let st = ShardedSlotStore { shards, index, shard_point_ids: shard_ids, shard_count: count, point_type };
        proof {
            assert(st.slot_map().dom() =~= point_ids@.to_set());
            assert forall|t: int| 0 <= t < count implies #[trigger] st.shard_ids()[t] == spec_shard_of(
                point_ids@,
                n,
                t,
            ) by {}
        }
        st
    }
}


/// The (shard, slot) positions of the written slots, shard after shard.
pub open spec fn spec_sharded_written<V>(shards: Seq<Seq<DataSlot<V>>>) -> Seq<(int, int)>
    decreases shards.len(),
{
    if shards.len() == 0 {
        Seq::empty()
    } else {
        let s = shards.len() - 1;
        spec_sharded_written(shards.drop_last()) + spec_written(shards.last()).map_values(|i: int| (s, i))
    }
}

impl<V> ShardedSlotStore<V> {
    /// Write a value with its quality to the slot of `point_id`, touching only
    /// its shard; ids not in the store are ignored. No other slot changes.
    pub fn update(&mut self, point_id: u32, value: V, quality: Quality)
        requires
            old(self).wf(),
        ensures
            final(self).wf(),
            final(self).slot_map().dom() == old(self).slot_map().dom(),
            forall|p: u32| #[trigger]
                final(self).slot_map().contains_key(p) && p != point_id ==> final(self).slot_map()[p]
                    == old(self).slot_map()[p],
            old(self).slot_map().contains_key(point_id) ==> {
                let s = final(self).slot_map()[point_id];
                &&& s.value_spec() == Some(value)
                &&& s.quality_spec() == spec_quality_code(quality)
                &&& s.version_spec() == (old(self).slot_map()[point_id].version_spec() as nat + 1)
                    % 0x1_0000_0000_0000_0000
            },
            !old(self).slot_map().contains_key(point_id) ==> final(self).shard_slots() == old(self).shard_slots(),
            final(self).shard_slots().len() == old(self).shard_slots().len(),
            final(self).shard_ids() == old(self).shard_ids(),
            final(self).count() == old(self).count(),
            final(self).kind() == old(self).kind(),
    {
        match self.index.get(&point_id) {
            Some(e) => {
                let (s, i) = *e;
                let mut shard: Vec<DataSlot<V>> = Vec::new();
                std::mem::swap(&mut shard, &mut self.shards[s]);
                let next = DataSlot::written(shard[i].version, value, quality);
                shard[i] = next;
                self.shards[s] = shard;
                proof {
                    assert(final(self).slot_map().dom() =~= old(self).slot_map().dom());
                    assert forall|p: u32| #[trigger]
                        final(self).slot_map().contains_key(p) && p != point_id implies final(self).slot_map()[p]
                        == old(self).slot_map()[p] by {
                        let (t, x) = self.index@[p];
                        if t == s {
                            assert(x != i);
                        }
                    }
                    assert(final(self).shard_ids() =~= old(self).shard_ids());
                }
            },
            None => {
                assert(final(self).shard_slots() =~= old(self).shard_slots());
            },
        }
    }

    /// The number of points (distinct ids).
    pub fn len(&self) -> (n: usize)
        requires
            self.wf(),
        ensures
            n == self.slot_map().len(),
    {
        assert(self.slot_map().dom() =~= self.index@.dom());
        self.index.len()
    }

    /// Whether the store has no points.
    pub fn is_empty(&self) -> (b: bool)
        requires
            self.wf(),
        ensures
            b == (self.slot_map().len() == 0),
    {
        assert(self.slot_map().dom() =~= self.index@.dom());
        self.index.is_empty()
    }

    /// Whether `point_id` is in the store.
    pub fn contains(&self, point_id: u32) -> (b: bool)
        ensures
            b == self.slot_map().contains_key(point_id),
    {
        self.index.contains_key(&point_id)
    }

    /// The number of shards.
    pub fn shard_count(&self) -> (n: usize)
        ensures
            n == self.count(),
    {
        self.shard_count
    }
}

impl<V: Clone> ShardedSlotStore<V> {
    /// The value (a clone), quality, time and version of `point_id`, when it is
    /// in the store and was written.
    pub fn read(&self, point_id: u32) -> (r: Option<(V, Quality, i64, u64)>)
        requires
            self.wf(),
        ensures
            !self.slot_map().contains_key(point_id) ==> r is None,
            self.slot_map().contains_key(point_id) ==> match self.slot_map()[point_id].value_spec() {
                None => r is None,
                Some(v) => r matches Some((x, q, t, n)) && cloned(v, x) && q == spec_quality_from_u8(
                    self.slot_map()[point_id].quality_spec(),
                ) && t == self.slot_map()[point_id].timestamp_spec() && n
                    == self.slot_map()[point_id].version_spec(),
            },
    {
        match self.index.get(&point_id) {
            Some(e) => {
                let (s, i) = *e;
                self.shards[s][i].read()
            },
            None => None,
        }
    }

    /// The readings of the slots that were written, shard after shard, in slot
    /// order within each shard.
    pub fn export_all(&self) -> (r: Vec<SlotReading<V>>)
        requires
            self.wf(),
        ensures
            r@.len() == spec_sharded_written(self.shard_slots()).len(),
            forall|k: int|
                0 <= k < r@.len() ==> {
                    let (s, i) = spec_sharded_written(self.shard_slots())[k];
                    spec_is_reading(#[trigger] r@[k], self.shard_ids()[s][i], self.kind(), self.shard_slots()[s][i])
                },
    {
        let mut out: Vec<SlotReading<V>> = Vec::new();
        let mut s: usize = 0;
        while s < self.shard_count
            invariant
                self.wf(),
                s <= self.shard_count,
                out@.len() == spec_sharded_written(self.shard_slots().take(s as int)).len(),
                forall|k: int|
                    0 <= k < out@.len() ==> {
                        let (t, i) = spec_sharded_written(self.shard_slots().take(s as int))[k];
                        spec_is_reading(
                            #[trigger] out@[k],
                            self.shard_ids()[t][i],
                            self.kind(),
                            self.shard_slots()[t][i],
                        )
                    },
            decreases self.shard_count - s,
        {
            let ghost before = out@;
            let ghost w = spec_sharded_written(self.shard_slots().take(s as int));
            let ghost ws = spec_written(self.shard_slots()[s as int]);
            export_slots(&self.shard_point_ids[s], &self.shards[s], self.point_type, &mut out);
            proof {
                let sl = self.shard_slots().take(s + 1);
                assert(sl.drop_last() =~= self.shard_slots().take(s as int));
                assert(sl.last() == self.shard_slots()[s as int]);
                let w2 = spec_sharded_written(sl);
                assert(w2 == w + ws.map_values(|i: int| (s as int, i)));
                assert forall|k: int| 0 <= k < out@.len() implies ({
                    let (t, i) = w2[k];
                    spec_is_reading(#[trigger] out@[k], self.shard_ids()[t][i], self.kind(), self.shard_slots()[t][i])
                }) by {
                    if k < w.len() {
                        assert(out@[k] == before[k]);
                        assert(w2[k] == w[k]);
                    } else {
                        let kk = k - w.len();
                        assert(out@[before.len() + kk] == out@[k]);
                        assert(w2[k] == (s as int, ws[kk]));
                    }
                }
            }
            s += 1;
        }
        assert(self.shard_slots().take(self.shard_count as int) =~= self.shard_slots());
        out
    }
}

} // verus!
