//! The bookkeeping of the task that copies shared-memory slots to Redis: which
//! slots a pass looks at, which of them changed since they were last copied,
//! and what a pass leaves behind when Redis accepts or refuses the writes.
//! Reading the slots and talking to Redis are the caller's.
use vstd::prelude::*;

verus! {

/// A slot whose sequence number is 0 was never written.
pub const UNWRITTEN_SEQ: u32 = 0;

/// Time to live given to each Redis key (24 hours).
pub const KEY_TTL_SECONDS: i64 = 86_400;

/// The time to live of the written keys is refreshed every this many passes.
pub const TTL_REFRESH_INTERVAL: u64 = 600;

/// Every this many passes, every slot is looked at, not only the dirty ones.
pub const FULL_SCAN_INTERVAL: u64 = 600;

/// `s` is strictly increasing.
pub open spec fn spec_strictly_sorted(s: Seq<usize>) -> bool {
    forall|i: int, j: int| 0 <= i < j < s.len() ==> s[i] < s[j]
}

/// The values of `v`, each once, in increasing order.
pub fn sort_dedup(v: &Vec<usize>) -> (r: Vec<usize>)
    ensures
        spec_strictly_sorted(r@),
        r@.to_set() == v@.to_set(),
{
    let mut r: Vec<usize> = Vec::new();
    let mut i: usize = 0;
    while i < v.len()
        invariant
            i <= v@.len(),
            spec_strictly_sorted(r@),
            r@.to_set() == v@.take(i as int).to_set(),
        decreases v@.len() - i,
    {
        let x = v[i];
        let mut pos: usize = 0;
        while pos < r.len()
            invariant
                pos <= r@.len(),
                spec_strictly_sorted(r@),
                forall|k: int| 0 <= k < pos ==> r@[k] < x,
            ensures
                pos <= r@.len(),
                forall|k: int| 0 <= k < pos ==> r@[k] < x,
                pos < r@.len() ==> r@[pos as int] >= x,
            decreases r@.len() - pos,
        {
            if r[pos] >= x {
                break;
            }
            pos += 1;
        }
        let ghost old_r = r@;
        proof {
            v@.take(i as int).lemma_push_to_set_commute(x);
            assert(v@.take(i + 1) =~= v@.take(i as int).push(x));
        }
        if pos < r.len() && r[pos] == x {
            proof {
                assert(old_r.to_set().contains(x)) by {
                    assert(old_r.contains(x));
                }
                assert(v@.take(i + 1).to_set() =~= old_r.to_set());
            }
        } else {
            r.insert(pos, x);
            proof {
                old_r.insert_ensures(pos as int, x);
                assert forall|a: int, b: int| 0 <= a < b < r@.len() implies r@[a] < r@[b] by {
                    if b < pos {
                    } else if b == pos {
                    } else if a < pos {
                        assert(r@[b] == old_r[b - 1]);
                        assert(old_r[b - 1] >= old_r[pos as int] || b - 1 == pos);
                    } else if a == pos {
                        assert(r@[b] == old_r[b - 1]);
                        if b - 1 > pos {
                            assert(old_r[pos as int] < old_r[b - 1]);
                        }
                    } else {
                        assert(r@[a] == old_r[a - 1]);
                        assert(r@[b] == old_r[b - 1]);
                    }
                }
                assert forall|y: usize| r@.to_set().contains(y) <==> old_r.to_set().insert(x).contains(y) by {
                    if r@.to_set().contains(y) {
                        assert(r@.contains(y));
                        let k = choose|k: int| 0 <= k < r@.len() && r@[k] == y;
                        if k < pos {
                            assert(old_r[k] == y);
                            assert(old_r.contains(y));
                        } else if k > pos {
                            assert(old_r[k - 1] == y);
                            assert(old_r.contains(y));
                        }
                    }
                    if old_r.to_set().insert(x).contains(y) {
                        if y == x {
                            assert(r@[pos as int] == x);
                            assert(r@.contains(y));
                        } else {
                            assert(old_r.contains(y));
                            let k = choose|k: int| 0 <= k < old_r.len() && old_r[k] == y;
                            if k < pos {
                                assert(r@[k] == y);
                            } else {
                                assert(r@[k + 1] == y);
                            }
                            assert(r@.contains(y));
                        }
                    }
                }
                assert(r@.to_set() =~= old_r.to_set().insert(x));
            }
        }
        i += 1;
    }
    assert(v@.take(v@.len() as int) =~= v@);
    r
}

/// `s` with entry `slot` of each `(slot, seq)` pair set to `seq`, pair after pair.
pub open spec fn spec_apply_synced(s: Seq<u32>, synced: Seq<(usize, u32)>) -> Seq<u32>
    decreases synced.len(),
{
    if synced.len() == 0 {
        s
    } else {
        spec_apply_synced(s, synced.drop_last()).update(synced.last().0 as int, synced.last().1)
    }
}

proof fn lemma_apply_synced_len(s: Seq<u32>, synced: Seq<(usize, u32)>)
    requires
        forall|k: int| 0 <= k < synced.len() ==> (#[trigger] synced[k]).0 < s.len(),
    ensures
        spec_apply_synced(s, synced).len() == s.len(),
    decreases synced.len(),
{
    if synced.len() > 0 {
        lemma_apply_synced_len(s, synced.drop_last());
    }
}

/// Whether a slot read with sequence number `seq` must be copied, given the
/// numbers last copied: it was written, and not with the number last copied.
pub open spec fn spec_needs_sync(last_seq: Seq<u32>, slot: usize, seq: u32) -> bool {
    seq != UNWRITTEN_SEQ && seq != last_seq[slot as int]
}

/// The slots a pass looks at: every slot below `slot_count` on a full scan,
/// otherwise the dirty ones, and the slots to retry.
pub open spec fn spec_candidates(full_scan: bool, slot_count: usize, dirty: Seq<usize>, retry: Seq<usize>) -> Set<
    usize,
> {
    (if full_scan {
        Set::new(|i: usize| i < slot_count)
    } else {
        dirty.to_set()
    }).union(retry.to_set())
}

/// The bookkeeping after a refused pass: the copied numbers are kept, and the
/// slots of the pass join those to retry.
pub open spec fn spec_failed_pass(
    last_seq: Seq<u32>,
    retry: Seq<usize>,
    synced: Seq<(usize, u32)>,
    next_last_seq: Seq<u32>,
    next_retry: Seq<usize>,
) -> bool {
    &&& next_last_seq == last_seq
    &&& spec_strictly_sorted(next_retry)
    &&& next_retry.to_set() == retry.to_set().union(synced.map_values(|e: (usize, u32)| e.0).to_set())
}

/// A refused write loses nothing: every slot that the pass was to write still
/// needs copying with the same sequence number, and it is a candidate of the
/// next pass, whatever that pass scans.
pub proof fn lemma_failed_pass_retries(
    last_seq: Seq<u32>,
    retry: Seq<usize>,
    synced: Seq<(usize, u32)>,
    next_last_seq: Seq<u32>,
    next_retry: Seq<usize>,
    full_scan: bool,
    slot_count: usize,
    dirty: Seq<usize>,
    k: int,
)
    requires
        spec_failed_pass(last_seq, retry, synced, next_last_seq, next_retry),
        0 <= k < synced.len(),
    ensures
        spec_needs_sync(next_last_seq, synced[k].0, synced[k].1) == spec_needs_sync(
            last_seq,
            synced[k].0,
            synced[k].1,
        ),
        spec_candidates(full_scan, slot_count, dirty, next_retry).contains(synced[k].0),
{
    let slots = synced.map_values(|e: (usize, u32)| e.0);
    assert(slots[k] == synced[k].0);
    assert(slots.contains(synced[k].0));
    assert(next_retry.to_set().contains(synced[k].0));
}

/// How a pass ended.
#[derive(Debug, Clone, Copy, PartialEq, Eq)]
pub enum PassOutcome {
    /// Nothing was to be written.
    Idle,
    /// Redis accepted the writes.
    Written,
    /// Redis refused the writes.
    Failed,
}

/// The bookkeeping between passes: the sequence number last copied of each
/// slot, the layout the slots belong to, the slots to try again, and the
/// number of passes so far.
#[derive(Debug)]
pub struct SyncState {
    pub last_seq: Vec<u32>,
    /// An identity of the slot layout last seen (0: none yet).
    pub last_layout_id: usize,
    pub retry_slots: Vec<usize>,
    pub tick_count: u64,
}

impl SyncState {
    /// Bookkeeping for `max_slots` slots, none copied yet.
    pub fn new(max_slots: usize) -> (s: Self)
        ensures
            s.last_seq@ == Seq::new(max_slots as nat, |i: int| 0u32),
            s.last_layout_id == 0,
            s.retry_slots@.len() == 0,
            s.tick_count == 0,
    {
        let mut last_seq: Vec<u32> = Vec::new();
        let mut i: usize = 0;
        while i < max_slots
            invariant
                i <= max_slots,
                last_seq@ == Seq::new(i as nat, |k: int| 0u32),
            decreases max_slots - i,
        {
            last_seq.push(0);
            i += 1;
            assert(last_seq@ =~= Seq::new(i as nat, |k: int| 0u32));
        }
        SyncState { last_seq, last_layout_id: 0, retry_slots: Vec::new(), tick_count: 0 }
    }

    /// Start a pass over `slot_count` slots (at least one) of the layout
    /// `layout_id`: make room for every slot; when the layout changed since the
    /// last pass, forget what was copied and what was to be retried. Says
    /// whether the pass looks at every slot: after a layout change, on the
    /// first pass, and every `FULL_SCAN_INTERVAL` passes.
    pub fn begin_pass(&mut self, slot_count: usize, layout_id: usize) -> (full_scan: bool)
        requires
            slot_count > 0,
        ensures
            ({
                let changed = old(self).last_layout_id != 0 && layout_id != old(self).last_layout_id;
                let n = if old(self).last_seq@.len() < slot_count {
                    slot_count as int
                } else {
                    old(self).last_seq@.len() as int
                };
                &&& final(self).last_seq@.len() == n
                &&& forall|i: int|
                    0 <= i < n ==> #[trigger] final(self).last_seq@[i] == (if changed || i
                        >= old(self).last_seq@.len() {
                        0u32
                    } else {
                        old(self).last_seq@[i]
                    })
                &&& final(self).retry_slots@ == (if changed {
                    Seq::<usize>::empty()
                } else {
                    old(self).retry_slots@
                })
                &&& final(self).last_layout_id == layout_id
                &&& final(self).tick_count == old(self).tick_count
                &&& full_scan == (changed || old(self).tick_count == 0 || old(self).tick_count
                    % FULL_SCAN_INTERVAL == 0)
            }),
    {
        let ghost old_seq = self.last_seq@;
        while self.last_seq.len() < slot_count
            invariant
                slot_count > 0,
                old_seq == old(self).last_seq@,
                self.last_layout_id == old(self).last_layout_id,
                self.retry_slots == old(self).retry_slots,
                self.tick_count == old(self).tick_count,
                old_seq.len() <= self.last_seq@.len(),
                old_seq.len() < slot_count ==> self.last_seq@.len() <= slot_count,
                old_seq.len() >= slot_count ==> self.last_seq@ == old_seq,
                forall|i: int|
                    0 <= i < self.last_seq@.len() ==> #[trigger] self.last_seq@[i] == (if i < old_seq.len() {
                        old_seq[i]
                    } else {
                        0u32
                    }),
            decreases slot_count - self.last_seq@.len(),
        {
            self.last_seq.push(0);
        }
        let changed = self.last_layout_id != 0 && layout_id != self.last_layout_id;
        if changed {
            let n = self.last_seq.len();
            let mut i: usize = 0;
            while i < n
                invariant
                    n == self.last_seq@.len(),
                    i <= n,
                    forall|k: int| 0 <= k < i ==> #[trigger] self.last_seq@[k] == 0u32,
                    self.last_layout_id == old(self).last_layout_id,
                    self.retry_slots == old(self).retry_slots,
                    self.tick_count == old(self).tick_count,
                decreases n - i,
            {
                self.last_seq.set(i, 0);
                i += 1;
            }
            self.retry_slots = Vec::new();
        }
        self.last_layout_id = layout_id;
        changed || self.tick_count == 0 || self.tick_count % FULL_SCAN_INTERVAL == 0
    }

    /// The slots a pass looks at, each once, in increasing order: every slot
    /// below `slot_count` on a full scan, otherwise the dirty ones, together with
    /// the slots to retry (which are handed over).
    pub fn candidate_slots(&mut self, full_scan: bool, slot_count: usize, dirty: Vec<usize>) -> (r: Vec<
        usize,
    >)
        ensures
            spec_strictly_sorted(r@),
            r@.to_set() == spec_candidates(full_scan, slot_count, dirty@, old(self).retry_slots@),
            r@.to_set() == (if full_scan {
                Set::new(|i: usize| i < slot_count)
            } else {
                dirty@.to_set()
            }).union(old(self).retry_slots@.to_set()),
            final(self).retry_slots@.len() == 0,
            final(self).last_seq == old(self).last_seq,
            final(self).last_layout_id == old(self).last_layout_id,
            final(self).tick_count == old(self).tick_count,
    {
        let mut all: Vec<usize> = Vec::new();
        if full_scan {
            let mut i: usize = 0;
            while i < slot_count
                invariant
                    i <= slot_count,
                    all@ == Seq::new(i as nat, |k: int| k as usize),
                decreases slot_count - i,
            {
                all.push(i);
                i += 1;
                assert(all@ =~= Seq::new(i as nat, |k: int| k as usize));
            }
            assert forall|x: usize| all@.to_set().contains(x) <==> x < slot_count by {
                if x < slot_count {
                    assert(all@[x as int] == x);
                }
            }
            assert(all@.to_set() =~= Set::new(|i: usize| i < slot_count));
        } else {
            all = dirty;
        }
        let ghost base = all@;
        let ghost retry = self.retry_slots@;
        let mut k: usize = 0;
        while k < self.retry_slots.len()
            invariant
                retry == self.retry_slots@,
                k <= retry.len(),
                all@ == base + retry.take(k as int),
            decreases retry.len() - k,
        {
            all.push(self.retry_slots[k]);
            k += 1;
            assert(all@ =~= base + retry.take(k as int));
        }
        self.retry_slots = Vec::new();
        assert(retry.take(retry.len() as int) =~= retry);
        let r = sort_dedup(&all);
        proof {
            assert forall|x: usize| (base + retry).to_set().contains(x) <==> base.to_set().union(
                retry.to_set(),
            ).contains(x) by {
                if (base + retry).contains(x) {
                    let j = choose|j: int| 0 <= j < (base + retry).len() && (base + retry)[j] == x;
                    if j < base.len() {
                        assert(base[j] == x);
                        assert(base.contains(x));
                    } else {
                        assert(retry[j - base.len()] == x);
                        assert(retry.contains(x));
                    }
                }
                if base.contains(x) {
                    let j = choose|j: int| 0 <= j < base.len() && base[j] == x;
                    assert((base + retry)[j] == x);
                    assert((base + retry).contains(x));
                }
                if retry.contains(x) {
                    let j = choose|j: int| 0 <= j < retry.len() && retry[j] == x;
                    assert((base + retry)[base.len() + j] == x);
                    assert((base + retry).contains(x));
                }
            }
            assert((base + retry).to_set() =~= base.to_set().union(retry.to_set()));
        }
        r
    }

    /// Whether a slot read with sequence number `seq` must be copied: it was
    /// written, and not with the number last copied.
    pub fn needs_sync(&self, slot_idx: usize, seq: u32) -> (b: bool)
        requires
            slot_idx < self.last_seq@.len(),
        ensures
            b == spec_needs_sync(self.last_seq@, slot_idx, seq),
            b == (seq != UNWRITTEN_SEQ && seq != self.last_seq@[slot_idx as int]),
    {
        seq != UNWRITTEN_SEQ && seq != self.last_seq[slot_idx]
    }

    /// Note a slot that belongs to no point as copied up to `seq`.
    pub fn skip_slot(&mut self, slot_idx: usize, seq: u32)
        requires
            slot_idx < old(self).last_seq@.len(),
        ensures
            final(self).last_seq@ == old(self).last_seq@.update(slot_idx as int, seq),
            final(self).retry_slots == old(self).retry_slots,
            final(self).last_layout_id == old(self).last_layout_id,
            final(self).tick_count == old(self).tick_count,
    {
        self.last_seq.set(slot_idx, seq);
    }

    /// End a pass. Written: each `(slot, seq)` of `synced` counts as copied; a
    /// refusal keeps the copied numbers and retries the slots of `synced` on the
    /// next pass. Either way the pass is counted. Says whether the time to live
    /// of the written keys is due for a refresh (after a written pass, every
    /// `TTL_REFRESH_INTERVAL` passes).
    pub fn finish_pass(&mut self, synced: &[(usize, u32)], outcome: PassOutcome) -> (refresh_ttl: bool)
        requires
            old(self).tick_count < u64::MAX,
            forall|k: int| 0 <= k < synced@.len() ==> (#[trigger] synced@[k]).0 < old(self).last_seq@.len(),
        ensures
            final(self).tick_count == old(self).tick_count + 1,
            final(self).last_layout_id == old(self).last_layout_id,
            outcome == PassOutcome::Written ==> final(self).last_seq@ == spec_apply_synced(
                old(self).last_seq@,
                synced@,
            ),
            outcome != PassOutcome::Written ==> final(self).last_seq == old(self).last_seq,
            outcome == PassOutcome::Failed ==> {
                &&& spec_strictly_sorted(final(self).retry_slots@)
                &&& final(self).retry_slots@.to_set() == old(self).retry_slots@.to_set().union(
                    synced@.map_values(|e: (usize, u32)| e.0).to_set(),
                )
            },
            outcome == PassOutcome::Failed ==> spec_failed_pass(
                old(self).last_seq@,
                old(self).retry_slots@,
                synced@,
                final(self).last_seq@,
                final(self).retry_slots@,
            ),
            outcome != PassOutcome::Failed ==> final(self).retry_slots == old(self).retry_slots,
            refresh_ttl == (outcome == PassOutcome::Written && (old(self).tick_count + 1) % (
            TTL_REFRESH_INTERVAL as int) == 0),
    {
        match outcome {
            PassOutcome::Idle => {
                self.tick_count = self.tick_count + 1;
                false
            },
            PassOutcome::Failed => {
                let ghost old_retry = self.retry_slots@;
                let ghost slots = synced@.map_values(|e: (usize, u32)| e.0);
                let mut all: Vec<usize> = Vec::new();
                let mut k: usize = 0;
                while k < self.retry_slots.len()
                    invariant
                        old_retry == self.retry_slots@,
                        k <= old_retry.len(),
                        all@ == old_retry.take(k as int),
                    decreases old_retry.len() - k,
                {
                    all.push(self.retry_slots[k]);
                    k += 1;
                    assert(all@ =~= old_retry.take(k as int));
                }
                assert(old_retry.take(old_retry.len() as int) =~= old_retry);
                let mut j: usize = 0;
                while j < synced.len()
                    invariant
                        j <= synced@.len(),
                        slots == synced@.map_values(|e: (usize, u32)| e.0),
                        all@ == old_retry + slots.take(j as int),
                    decreases synced@.len() - j,
                {
                    all.push(synced[j].0);
                    j += 1;
                    assert(all@ =~= old_retry + slots.take(j as int));
                }
                assert(slots.take(slots.len() as int) =~= slots);
                let r = sort_dedup(&all);
                proof {
                    let both = old_retry + slots;
                    assert forall|x: usize| both.to_set().contains(x) <==> old_retry.to_set().union(
                        slots.to_set(),
                    ).contains(x) by {
                        if both.contains(x) {
                            let i = choose|i: int| 0 <= i < both.len() && both[i] == x;
                            if i < old_retry.len() {
                                assert(old_retry[i] == x);
                                assert(old_retry.contains(x));
                            } else {
                                assert(slots[i - old_retry.len()] == x);
                                assert(slots.contains(x));
                            }
                        }
                        if old_retry.contains(x) {
                            let i = choose|i: int| 0 <= i < old_retry.len() && old_retry[i] == x;
                            assert(both[i] == x);
                            assert(both.contains(x));
                        }
                        if slots.contains(x) {
                            let i = choose|i: int| 0 <= i < slots.len() && slots[i] == x;
                            assert(both[old_retry.len() + i] == x);
                            assert(both.contains(x));
                        }
                    }
                    assert(both.to_set() =~= old_retry.to_set().union(slots.to_set()));
                }
                self.retry_slots = r;
                self.tick_count = self.tick_count + 1;
                false
            },
            PassOutcome::Written => {
                let mut j: usize = 0;
                while j < synced.len()
                    invariant
                        j <= synced@.len(),
                        forall|k: int|
                            0 <= k < synced@.len() ==> (#[trigger] synced@[k]).0 < old(self).last_seq@.len(),
                        self.last_seq@ == spec_apply_synced(old(self).last_seq@, synced@.take(j as int)),
                        self.retry_slots == old(self).retry_slots,
                        self.tick_count == old(self).tick_count,
                        self.last_layout_id == old(self).last_layout_id,
                    decreases synced@.len() - j,
                {
                    proof {
                        lemma_apply_synced_len(old(self).last_seq@, synced@.take(j as int));
                        assert(synced@.take(j + 1).drop_last() =~= synced@.take(j as int));
                    }
                    let (slot, seq) = synced[j];
                    self.last_seq.set(slot, seq);
                    j += 1;
                }
                assert(synced@.take(synced@.len() as int) =~= synced@);
                self.tick_count = self.tick_count + 1;
                self.tick_count % TTL_REFRESH_INTERVAL == 0
            },
        }
    }
}

} // verus!
