//! Batching of Modbus write commands: commands wait in groups per slave id and
//! function code until the batch window has passed or enough of them have
//! gathered; a group whose registers follow one another without gaps can be
//! written with one multi-register request.
use vstd::prelude::*;
use std::collections::HashMap;
use std::time::Duration;
use crate::duration::{duration_as_millis, duration_millis};
use crate::point::{spec_register_count, ByteOrder, DataFormat};

verus! {

broadcast use vstd::std_specs::hash::group_hash_axioms;

/// Commands gathered within this many milliseconds go out together.
pub const BATCH_WINDOW_MS: u64 = 20;

/// A batch goes out at the latest when this many commands wait.
pub const MAX_BATCH_SIZE: usize = 100;

#[verifier::external_type_specification]
#[verifier::external_body]
pub struct ExTokioInstant(tokio::time::Instant);

/// `tokio::time::Instant::now`: the current instant. Nothing is claimed of it.
#[verifier::external_body]
fn instant_now() -> tokio::time::Instant {
    tokio::time::Instant::now()
}

/// `tokio::time::Instant::elapsed`: the time since `t`, read from the clock.
/// Nothing is claimed of it.
#[verifier::external_body]
fn instant_elapsed(t: &tokio::time::Instant) -> Duration {
    t.elapsed()
}

/// One register write waiting to be sent.
#[derive(Debug, Clone)]
pub struct BatchCommand<V> {
    /// The point written (for tracking).
    pub point_id: u32,
    /// The value to write.
    pub value: V,
    pub slave_id: u8,
    /// 6: single register, 16: multiple registers.
    pub function_code: u8,
    /// The first register written.
    pub register_address: u16,
    pub data_format: DataFormat,
    pub byte_order: ByteOrder,
}

/// The key of the group for a slave id and function code: the slave id in the
/// high byte, the function code in the low byte.
pub open spec fn spec_group_key(slave_id: u8, function_code: u8) -> u16 {
    (slave_id as nat * 256 + function_code as nat) as u16
}

/// The group key of a command.
pub open spec fn spec_command_key<V>(c: BatchCommand<V>) -> u16 {
    spec_group_key(c.slave_id, c.function_code)
}

/// The commands of `s` that belong to group `key`, in the order of `s`.
pub open spec fn spec_group<V>(s: Seq<BatchCommand<V>>, key: u16) -> Seq<BatchCommand<V>> {
    s.filter(|c: BatchCommand<V>| spec_command_key(c) == key)
}

/// The key of the group for a slave id and function code.
pub fn group_key(slave_id: u8, function_code: u8) -> (k: u16)
    ensures
        k == spec_group_key(slave_id, function_code),
{
    (slave_id as u16) * 256 + function_code as u16
}

/// Two commands share a group exactly when they have the same slave id and the
/// same function code.
pub proof fn lemma_group_key_injective(s1: u8, f1: u8, s2: u8, f2: u8)
    ensures
        spec_group_key(s1, f1) == spec_group_key(s2, f2) <==> (s1 == s2 && f1 == f2),
{
}

proof fn lemma_group_empty<V>(key: u16)
    ensures
        spec_group(Seq::<BatchCommand<V>>::empty(), key).len() == 0,
{
    reveal(Seq::filter);
}

proof fn lemma_group_push<V>(s: Seq<BatchCommand<V>>, c: BatchCommand<V>, key: u16)
    ensures
        spec_group(s.push(c), key) == (if spec_command_key(c) == key {
            spec_group(s, key).push(c)
        } else {
            spec_group(s, key)
        }),
{
    reveal(Seq::filter);
    assert(s.push(c).drop_last() =~= s);
}

/// Write commands waiting to go out, grouped by slave id and function code, and
/// the time of the last batch.
pub struct CommandBatcher<V> {
    pending_commands: HashMap<u16, Vec<BatchCommand<V>>>,
    last_batch_time: tokio::time::Instant,
    total_pending: usize,
    arrived: Ghost<Seq<BatchCommand<V>>>,
}

impl<V> CommandBatcher<V> {
    /// The commands waiting, in the order they were added.
    pub closed spec fn pending(self) -> Seq<BatchCommand<V>> {
        self.arrived@
    }

    /// Each group holds, in order, the waiting commands with its key, and the
    /// count is the number of waiting commands.
    pub closed spec fn wf(self) -> bool {
        &&& self.total_pending == self.arrived@.len()
        &&& forall|k: u16| #[trigger]
            self.pending_commands@.contains_key(k) ==> self.pending_commands@[k]@ == spec_group(
                self.arrived@,
                k,
            ) && self.pending_commands@[k]@.len() > 0
        &&& forall|k: u16|
            !self.pending_commands@.contains_key(k) ==> #[trigger] spec_group(
                self.arrived@,
                k,
            ).len() == 0
    }

    /// An empty batcher whose batch window starts now.
    pub fn new() -> (b: Self)
        ensures
            b.wf(),
            b.pending() == Seq::<BatchCommand<V>>::empty(),
    {
        let b = CommandBatcher {
            pending_commands: HashMap::new(),
            last_batch_time: instant_now(),
            total_pending: 0,
            arrived: Ghost(Seq::empty()),
        };
        proof {
            assert forall|k: u16| !b.pending_commands@.contains_key(k) implies #[trigger] spec_group(
                b.arrived@,
                k,
            ).len() == 0 by {
                lemma_group_empty::<V>(k);
            }
        }
        b
    }

    /// How many commands wait.
    pub fn pending_count(&self) -> (n: usize)
        requires
            self.wf(),
        ensures
            n == self.pending().len(),
    {
        self.total_pending
    }

    /// Whether no command waits (no group is held).
    pub fn is_empty(&self) -> (r: bool)
        requires
            self.wf(),
        ensures
            r == (self.pending().len() == 0),
    {
        let r = self.pending_commands.is_empty();
        proof {
            let s = self.arrived@;
            if s.len() > 0 {
                let k = spec_command_key(s[0]);
                let pred = |c: BatchCommand<V>| spec_command_key(c) == k;
                s.lemma_filter_contains(pred, 0);
                assert(spec_group(s, k).len() > 0);
                assert(self.pending_commands@.dom().contains(k));
            } else {
                assert forall|k: u16| !self.pending_commands@.dom().contains(k) by {
                    lemma_group_empty::<V>(k);
                    assert(s =~= Seq::<BatchCommand<V>>::empty());
                }
                assert(self.pending_commands@.dom() =~= Set::<u16>::empty());
            }
        }
        r
    }

    /// The time since the last batch, read from the clock.
    pub fn elapsed_since_last_batch(&self) -> Duration {
        instant_elapsed(&self.last_batch_time)
    }

    /// Whether the batch is due `elapsed_ms` milliseconds after the last one:
    /// the window has passed, or the batch is full.
    pub fn should_execute_after(&self, elapsed_ms: u128) -> (r: bool)
        requires
            self.wf(),
        ensures
            r == (elapsed_ms >= BATCH_WINDOW_MS as u128 || self.pending().len() >= MAX_BATCH_SIZE),
    {
        elapsed_ms >= BATCH_WINDOW_MS as u128 || self.total_pending >= MAX_BATCH_SIZE
    }

    /// Whether the batch is due now. A full batch is always due; otherwise the
    /// answer depends on the clock.
    pub fn should_execute(&self) -> (r: bool)
        requires
            self.wf(),
        ensures
            self.pending().len() >= MAX_BATCH_SIZE ==> r,
    {
        let elapsed = duration_as_millis(instant_elapsed(&self.last_batch_time));
        self.should_execute_after(elapsed)
    }

    /// Hand out the waiting commands by group and start a new batch window.
    /// Each key present holds, in the order added, the commands of its group;
    /// no other group had commands.
    pub fn take_commands(&mut self) -> (groups: HashMap<u16, Vec<BatchCommand<V>>>)
        requires
            old(self).wf(),
        ensures
            final(self).wf(),
            final(self).pending() == Seq::<BatchCommand<V>>::empty(),
            forall|k: u16| #[trigger]
                groups@.contains_key(k) ==> groups@[k]@ == spec_group(old(self).pending(), k)
                    && groups@[k]@.len() > 0,
            forall|k: u16|
                !groups@.contains_key(k) ==> #[trigger] spec_group(old(self).pending(), k).len()
                    == 0,
    {
        let mut groups: HashMap<u16, Vec<BatchCommand<V>>> = HashMap::new();
        std::mem::swap(&mut groups, &mut self.pending_commands);
        self.last_batch_time = instant_now();
        self.total_pending = 0;
        self.arrived = Ghost(Seq::empty());
        proof {
            assert forall|k: u16| !self.pending_commands@.contains_key(k) implies #[trigger] spec_group(
                self.arrived@,
                k,
            ).len() == 0 by {
                lemma_group_empty::<V>(k);
            }
        }
        groups
    }

    /// Add a command to the group of its slave id and function code.
    pub fn add_command(&mut self, command: BatchCommand<V>)
        requires
            old(self).wf(),
            old(self).pending().len() < usize::MAX,
        ensures
            final(self).wf(),
            final(self).pending() == old(self).pending().push(command),
    {
        let ghost c = command;
        let ghost before = self.arrived@;
        let key = group_key(command.slave_id, command.function_code);
        let mut group = match self.pending_commands.remove(&key) {
            Some(g) => g,
            None => Vec::new(),
        };
        proof {
            if !old(self).pending_commands@.contains_key(key) {
                assert(group@ =~= spec_group(before, key));
            }
        }
        group.push(command);
        self.pending_commands.insert(key, group);
        self.total_pending = self.total_pending + 1;
        self.arrived = Ghost(before.push(c));
        proof {
            assert forall|k: u16| #[trigger]
                self.pending_commands@.contains_key(k) implies self.pending_commands@[k]@
                == spec_group(self.arrived@, k) && self.pending_commands@[k]@.len() > 0 by {
                lemma_group_push(before, c, k);
            }
            assert forall|k: u16| !self.pending_commands@.contains_key(k) implies #[trigger] spec_group(
                self.arrived@,
                k,
            ).len() == 0 by {
                lemma_group_push(before, c, k);
            }
        }
    }
}

impl<V> Default for CommandBatcher<V> {
    fn default() -> (b: Self)
        ensures
            b.wf(),
            b.pending() == Seq::<BatchCommand<V>>::empty(),
    {
        Self::new()
    }
}

// ── Consecutive registers ──────────────────────────────────────────────────────

/// The first register of command `i`.
pub open spec fn spec_first_reg<V>(s: Seq<BatchCommand<V>>, i: int) -> int {
    s[i].register_address as int
}

/// One past the last register of command `i`.
pub open spec fn spec_end_reg<V>(s: Seq<BatchCommand<V>>, i: int) -> int {
    s[i].register_address + spec_register_count(s[i].data_format)
}

/// Index `i` occurs among the first `n` entries of `p`.
pub open spec fn spec_lists(p: Seq<usize>, n: int, i: int) -> bool {
    exists|k: int| 0 <= k < n && #[trigger] p[k] == i
}

/// `p` lists each of the indices `0..n` exactly once.
pub open spec fn spec_is_order(p: Seq<usize>, n: int) -> bool {
    &&& p.len() == n
    &&& forall|k: int| 0 <= k < n ==> #[trigger] p[k] < n
    &&& forall|k: int, l: int| 0 <= k < l < n ==> #[trigger] p[k] != #[trigger] p[l]
    &&& forall|i: int| 0 <= i < n ==> #[trigger] spec_lists(p, n, i)
}

/// In the order `p`, the command at position `k + 1` starts where the one at
/// position `k` ends.
pub open spec fn spec_link<V>(s: Seq<BatchCommand<V>>, p: Seq<usize>, k: int) -> bool {
    spec_first_reg(s, p[k + 1] as int) == spec_end_reg(s, p[k] as int)
}

/// Taken in the order `p`, each command starts where the one before it ends.
pub open spec fn spec_chains<V>(s: Seq<BatchCommand<V>>, p: Seq<usize>) -> bool {
    forall|k: int| 0 <= k < p.len() - 1 ==> #[trigger] spec_link(s, p, k)
}

/// At least two commands, which can be put in an order in which each starts at
/// the register where the one before it ends: together they cover a run of
/// registers without gaps or overlaps.
pub open spec fn spec_strictly_consecutive<V>(s: Seq<BatchCommand<V>>) -> bool {
    s.len() >= 2 && exists|p: Seq<usize>| spec_is_order(p, s.len() as int) && spec_chains(s, p)
}

/// `p` lists the commands by register address, lowest first.
pub open spec fn spec_sorted_by_reg<V>(s: Seq<BatchCommand<V>>, p: Seq<usize>) -> bool {
    forall|k: int, l: int|
        0 <= k < l < p.len() ==> spec_first_reg(s, #[trigger] p[k] as int) <= spec_first_reg(
            s,
            #[trigger] p[l] as int,
        )
}

proof fn lemma_register_count_positive(f: DataFormat)
    ensures
        1 <= spec_register_count(f) <= 4,
{
}

/// Along a chain, a later command starts at or after the end of an earlier one.
proof fn lemma_chain_ascends<V>(s: Seq<BatchCommand<V>>, q: Seq<usize>, m: int, m2: int)
    requires
        spec_is_order(q, s.len() as int),
        spec_chains(s, q),
        0 <= m < m2 < q.len(),
    ensures
        spec_first_reg(s, q[m2] as int) >= spec_end_reg(s, q[m] as int),
    decreases m2 - m,
{
    assert(spec_link(s, q, m2 - 1));
    if m2 - 1 > m {
        lemma_chain_ascends(s, q, m, m2 - 1);
        lemma_register_count_positive(s[q[m2 - 1] as int].data_format);
    }
}

/// When the commands sorted by register break the chain at position `k`, no
/// order of them chains.
proof fn lemma_break_means_no_chain<V>(s: Seq<BatchCommand<V>>, p: Seq<usize>, k: int)
    requires
        spec_is_order(p, s.len() as int),
        spec_sorted_by_reg(s, p),
        0 <= k < s.len() - 1,
        !spec_link(s, p, k),
    ensures
        !(exists|q: Seq<usize>| spec_is_order(q, s.len() as int) && spec_chains(s, q)),
{
    let n = s.len() as int;
    if exists|q: Seq<usize>| spec_is_order(q, n) && spec_chains(s, q) {
        let q = choose|q: Seq<usize>| spec_is_order(q, n) && spec_chains(s, q);
        let a = p[k] as int;
        let b = p[k + 1] as int;
        assert(p[k] != p[k + 1]);
        assert(0 <= a < n && 0 <= b < n);
        assert(spec_lists(q, n, a));
        assert(spec_lists(q, n, b));
        let ma = choose|m: int| 0 <= m < n && #[trigger] q[m] == a;
        let mb = choose|m: int| 0 <= m < n && #[trigger] q[m] == b;
        assert(spec_first_reg(s, a) <= spec_first_reg(s, b));
        lemma_register_count_positive(s[a].data_format);
        lemma_register_count_positive(s[b].data_format);
        if mb < ma {
            lemma_chain_ascends(s, q, mb, ma);
            assert(false);
        } else {
            assert(ma < mb);
            lemma_chain_ascends(s, q, ma, mb);
            // The command after `a` in the chain starts at the end of `a`.
            assert(spec_link(s, q, ma));
            let j = q[ma + 1] as int;
            assert(0 <= j < n);
            assert(spec_first_reg(s, j) == spec_end_reg(s, a));
            assert(spec_lists(p, n, j));
            let kk = choose|x: int| 0 <= x < n && #[trigger] p[x] == j;
            if kk <= k {
                if kk < k {
                    assert(spec_first_reg(s, p[kk] as int) <= spec_first_reg(s, p[k] as int));
                }
                assert(false);
            } else {
                if kk > k + 1 {
                    assert(spec_first_reg(s, p[k + 1] as int) <= spec_first_reg(s, p[kk] as int));
                }
                assert(false);
            }
        }
    }
}

impl<V> CommandBatcher<V> {
    /// Whether the commands (two at least) cover a run of registers without gaps
    /// or overlaps, each counted with the registers of its data format: taken
    /// by register address, each starts where the one before it ends.
    pub fn are_strictly_consecutive(commands: &[BatchCommand<V>]) -> (r: bool)
        ensures
            r == spec_strictly_consecutive(commands@),
    {
        let n = commands.len();
        if n < 2 {
            return false;
        }
        // The indices, sorted by register address (insertion keeps equal
        // addresses in the order given).
        let mut order: Vec<usize> = Vec::new();
        let mut i: usize = 0;
        while i < n
            invariant
                n == commands@.len(),
                i <= n,
                spec_is_order(order@, i as int),
                spec_sorted_by_reg(commands@, order@),
            decreases n - i,
        {
            let a = commands[i].register_address;
            let mut pos: usize = 0;
            while pos < order.len()
                invariant
                    n == commands@.len(),
                    i < n,
                    a == commands@[i as int].register_address,
                    spec_is_order(order@, i as int),
                    pos <= order@.len(),
                    forall|k: int| 0 <= k < pos ==> spec_first_reg(commands@, #[trigger] order@[k] as int) <= a,
                ensures
                    pos <= order@.len(),
                    forall|k: int| 0 <= k < pos ==> spec_first_reg(commands@, #[trigger] order@[k] as int) <= a,
                    pos < order@.len() ==> spec_first_reg(commands@, order@[pos as int] as int) > a,
                decreases order@.len() - pos,
            {
                if commands[order[pos]].register_address > a {
                    break;
                }
                pos += 1;
            }
            let ghost o = order@;
            assert(forall|k: int| pos <= k < o.len() ==> spec_first_reg(commands@, #[trigger] o[k] as int) > a)
                by {
                if pos < o.len() {
                    assert forall|k: int| pos <= k < o.len() implies spec_first_reg(
                        commands@,
                        #[trigger] o[k] as int,
                    ) > a by {
                        if k > pos {
                            assert(spec_first_reg(commands@, o[pos as int] as int) <= spec_first_reg(
                                commands@,
                                o[k] as int,
                            ));
                        }
                    }
                }
            }
            order.insert(pos, i);
            proof {
                o.insert_ensures(pos as int, i);
                let o2 = order@;
                assert forall|k: int| 0 <= k < i + 1 implies #[trigger] o2[k] < i + 1 by {
                    if k > pos {
                        assert(o2[k] == o[k - 1]);
                    }
                }
                assert forall|k: int, l: int| 0 <= k < l < i + 1 implies #[trigger] o2[k] != #[trigger] o2[l] by {
                    if k < pos && l < pos {
                    } else if k < pos && l == pos {
                    } else if k < pos {
                        assert(o2[l] == o[l - 1]);
                    } else if k == pos {
                        assert(o2[l] == o[l - 1]);
                    } else {
                        assert(o2[k] == o[k - 1]);
                        assert(o2[l] == o[l - 1]);
                    }
                }
                assert forall|j: int| 0 <= j < i + 1 implies #[trigger] spec_lists(o2, i + 1, j) by {
                    if j == i {
                        assert(o2[pos as int] == j);
                    } else {
                        assert(spec_lists(o, i as int, j));
                        let k0 = choose|k: int| 0 <= k < i && #[trigger] o[k] == j;
                        if k0 < pos {
                            assert(o2[k0] == j);
                        } else {
                            assert(o2[k0 + 1] == j);
                        }
                    }
                }
                assert forall|k: int, l: int| 0 <= k < l < o2.len() implies spec_first_reg(
                    commands@,
                    #[trigger] o2[k] as int,
                ) <= spec_first_reg(commands@, #[trigger] o2[l] as int) by {
                    if k < pos && l < pos {
                    } else if k < pos && l == pos {
                    } else if k < pos {
                        assert(o2[l] == o[l - 1]);
                    } else if k == pos {
                        assert(o2[l] == o[l - 1]);
                    } else {
                        assert(o2[k] == o[k - 1]);
                        assert(o2[l] == o[l - 1]);
                    }
                }
            }
            i += 1;
        }
        // Walk the sorted order, each command expected at the end of the last.
        let mut expected: u32 = commands[order[0]].register_address as u32;
        let mut k: usize = 0;
        while k < n
            invariant
                n == commands@.len(),
                n >= 2,
                k <= n,
                spec_is_order(order@, n as int),
                spec_sorted_by_reg(commands@, order@),
                k == 0 ==> expected == spec_first_reg(commands@, order@[0] as int),
                k > 0 ==> expected == spec_end_reg(commands@, order@[k - 1] as int),
                forall|m: int| 0 <= m < k - 1 ==> #[trigger] spec_link(commands@, order@, m),
            decreases n - k,
        {
            let c = &commands[order[k]];
            if c.register_address as u32 != expected {
                proof {
                    lemma_break_means_no_chain(commands@, order@, k - 1);
                }
                return false;
            }
            proof {
                if k > 0 {
                    assert(spec_link(commands@, order@, k - 1));
                }
            }
            expected = expected + c.data_format.register_count() as u32;
            k += 1;
        }
        assert(spec_chains(commands@, order@));
        true
    }
}

} // verus!
