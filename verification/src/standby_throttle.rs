//! Throttling of sends to standby nodes. Sends between voters are never held up.

use std::collections::{HashMap, HashSet};

use vstd::prelude::*;

use crate::config::ClusterConfig;
use crate::type_config::NodeId;

verus! {

broadcast use vstd::std_specs::hash::group_hash_axioms;

/// How many sends to one standby may be under way where the configuration says 0.
pub const DEFAULT_MAX_INFLIGHT: u32 = 8;

/// The throttled nodes and the limits.
#[derive(Debug)]
pub struct StandbyThrottle {
    ids: HashSet<u64>,
    /// The number of ids: with none, a send looks no further.
    count: usize,
    delay_ms: u64,
    max_inflight: u32,
    /// The targets that have a gate, each with the number of sends its gate lets through.
    gates: HashMap<u64, usize>,
}

/// What a send does first.
#[derive(Clone, Copy, Debug, PartialEq, Eq, Structural)]
pub enum BeforeSend {
    /// Go ahead: the target is no standby.
    Pass,
    /// Wait so many milliseconds, then pass the target's gate.
    Throttled { delay_ms: u64 },
}

/// A target's gate.
#[derive(Clone, Copy, Debug, PartialEq, Eq, Structural)]
pub struct Gate {
    /// How many sends it lets through at once.
    pub capacity: usize,
    /// It is new; one that the target had before counts no more.
    pub fresh: bool,
}

impl StandbyThrottle {
    /// The throttled nodes.
    pub closed spec fn ids(&self) -> Set<NodeId> {
        self.ids@
    }

    pub closed spec fn delay(&self) -> u64 {
        self.delay_ms
    }

    pub closed spec fn limit(&self) -> u32 {
        self.max_inflight
    }

    /// The capacity of each gate there is.
    pub closed spec fn gates(&self) -> Map<NodeId, usize> {
        self.gates@
    }

    /// How many sends a gate lets through at once: as many as the limit says, at least one.
    pub open spec fn slots(&self) -> usize {
        if self.limit() < 1 {
            1
        } else {
            self.limit() as usize
        }
    }

    /// The count is the number of throttled nodes, and every gate has the limit's capacity.
    pub closed spec fn wf(&self) -> bool {
        &&& self.count == self.ids@.len()
        &&& self.ids@.finite()
        &&& forall|k: NodeId| #[trigger]
            self.gates@.contains_key(k) ==> self.gates@[k] == self.slots()
    }

    /// Updates delay, limit and ids from `config`; ids that were added before stay, and every
    /// gate is dropped, so that new ones have the new capacity.
    pub fn apply_config(&mut self, config: &ClusterConfig)
        requires
            old(self).wf(),
        ensures
            final(self).wf(),
            final(self).ids() == old(self).ids().union(config.standby_node_ids@.to_set()),
            final(self).delay() == config.standby_replicate_delay_ms,
            final(self).limit() == (if config.standby_max_inflight == 0 {
                DEFAULT_MAX_INFLIGHT
            } else {
                config.standby_max_inflight
            }),
            final(self).gates() == Map::<NodeId, usize>::empty(),
    {
        self.delay_ms = config.standby_replicate_delay_ms;
        self.max_inflight =
        if config.standby_max_inflight == 0 {
            DEFAULT_MAX_INFLIGHT
        } else {
            config.standby_max_inflight
        };
        let ghost seeds = config.standby_node_ids@;
        let mut i: usize = 0;
        assert(seeds.take(0).to_set() =~= Set::empty());
        assert(self.ids@ =~= old(self).ids@.union(seeds.take(0).to_set()));
        while i < config.standby_node_ids.len()
            invariant
                i <= seeds.len(),
                seeds == config.standby_node_ids@,
                self.ids@ == old(self).ids@.union(seeds.take(i as int).to_set()),
                self.ids@.finite(),
                self.delay_ms == config.standby_replicate_delay_ms,
                self.max_inflight == (if config.standby_max_inflight == 0 {
                    DEFAULT_MAX_INFLIGHT
                } else {
                    config.standby_max_inflight
                }),
            decreases seeds.len() - i,
        {
            let id: u64 = config.standby_node_ids[i];
            self.ids.insert(id);
            proof {
                let a = seeds.take(i as int);
                let b = seeds.take(i + 1);
                assert(b =~= a.push(id));
                assert forall|x: u64| b.to_set().contains(x) <==> a.to_set().insert(id).contains(x) by {
                    if b.contains(x) {
                        let k = choose|k: int| 0 <= k < b.len() && b[k] == x;
                        if k < a.len() {
                            assert(a[k] == x);
                        }
                    }
                    if a.contains(x) {
                        let k = choose|k: int| 0 <= k < a.len() && a[k] == x;
                        assert(b[k] == x);
                    }
                    assert(b[i as int] == id);
                }
                assert(self.ids@ =~= old(self).ids@.union(b.to_set()));
            }
            i = i + 1;
        }
        assert(seeds.take(i as int) =~= seeds);
        self.count = self.ids.len();
        self.gates.clear();
    }

    /// A throttle with the ids and limits of `config`.
    pub fn from_config(config: &ClusterConfig) -> (r: Self)
        ensures
            r.wf(),
            r.ids() == config.standby_node_ids@.to_set(),
            r.delay() == config.standby_replicate_delay_ms,
            r.limit() == (if config.standby_max_inflight == 0 {
                DEFAULT_MAX_INFLIGHT
            } else {
                config.standby_max_inflight
            }),
            r.gates() == Map::<NodeId, usize>::empty(),
    {
        let mut t = StandbyThrottle::default();
        t.apply_config(config);
        assert(t.ids() =~= config.standby_node_ids@.to_set());
        t
    }

    pub fn insert(&mut self, id: NodeId)
        requires
            old(self).wf(),
        ensures
            final(self).wf(),
            final(self).ids() == old(self).ids().insert(id),
            final(self).delay() == old(self).delay(),
            final(self).limit() == old(self).limit(),
            final(self).gates() == old(self).gates(),
    {
        self.ids.insert(id);
        self.count = self.ids.len();
    }

    /// Throttles `id` no more, and drops its gate.
    pub fn remove(&mut self, id: NodeId)
        requires
            old(self).wf(),
        ensures
            final(self).wf(),
            final(self).ids() == old(self).ids().remove(id),
            final(self).delay() == old(self).delay(),
            final(self).limit() == old(self).limit(),
            final(self).gates() == old(self).gates().remove(id),
    {
        self.ids.remove(&id);
        self.count = self.ids.len();
        self.gates.remove(&id);
        assert(self.gates@ =~= old(self).gates@.remove(id));
        assert(self.ids@ =~= old(self).ids@.remove(id));
    }

    pub fn contains(&self, id: NodeId) -> (r: bool)
        requires
            self.wf(),
        ensures
            r == self.ids().contains(id),
    {
        if self.count == 0 {
            assert(self.ids@ =~= Set::empty());
            return false;
        }
        self.ids.contains(&id)
    }

    pub fn standby_ids(&self) -> (r: &HashSet<NodeId>)
        ensures
            r@ == self.ids(),
    {
        &self.ids
    }

    pub fn delay_ms(&self) -> (r: u64)
        ensures
            r == self.delay(),
    {
        self.delay_ms
    }

    pub fn max_inflight(&self) -> (r: u32)
        ensures
            r == self.limit(),
    {
        self.max_inflight
    }

    /// What a send to `target` does first: nothing, unless `target` is throttled.
    pub fn before_send(&self, target: NodeId) -> (r: BeforeSend)
        requires
            self.wf(),
        ensures
            r == (if self.ids().contains(target) {
                BeforeSend::Throttled { delay_ms: self.delay() }
            } else {
                BeforeSend::Pass
            }),
    {
        if !self.contains(target) {
            return BeforeSend::Pass;
        }
        BeforeSend::Throttled { delay_ms: self.delay_ms }
    }

    /// What limits the sends to a throttled `target`: its limiter where there is one, else a new
    /// one that lets as many through at a time as the limit says, at least one.
    pub fn gate(&mut self, target: NodeId) -> (r: Gate)
        requires
            old(self).wf(),
        ensures
            final(self).wf(),
            final(self).ids() == old(self).ids(),
            final(self).delay() == old(self).delay(),
            final(self).limit() == old(self).limit(),
            r.fresh == !old(self).gates().contains_key(target),
            r.capacity == old(self).slots(),
            final(self).gates() == old(self).gates().insert(target, r.capacity),
    {
        match self.gates.get(&target) {
            Some(c) => {
                let capacity: usize = *c;
                assert(self.gates@ =~= self.gates@.insert(target, capacity));
                Gate { capacity, fresh: false }
            },
            None => {
                let capacity: usize = if self.max_inflight < 1 {
                    1
                } else {
                    self.max_inflight as usize
                };
                self.gates.insert(target, capacity);
                Gate { capacity, fresh: true }
            },
        }
    }
}

impl Default for StandbyThrottle {
    /// Nobody is throttled.
    fn default() -> (r: Self)
        ensures
            r.wf(),
            r.ids() == Set::<NodeId>::empty(),
            r.delay() == 0,
            r.limit() == DEFAULT_MAX_INFLIGHT,
            r.gates() == Map::<NodeId, usize>::empty(),
    {
        StandbyThrottle {
            ids: HashSet::new(),
            count: 0,
            delay_ms: 0,
            max_inflight: DEFAULT_MAX_INFLIGHT,
            gates: HashMap::new(),
        }
    }
}

/// The throttle, and how many permits of each target's gate are out.
pub ghost struct Sends {
    pub throttle: StandbyThrottle,
    pub out: Map<NodeId, nat>,
}

/// What can happen to them.
pub ghost enum SendsOp {
    Insert(NodeId),
    Remove(NodeId),
    /// The throttle was configured anew.
    Configured,
    /// A send asked for the target's gate.
    Gated(NodeId, Gate),
    /// A send took a permit of the target's gate.
    Took(NodeId),
    /// A permit of the target's gate came back.
    Gave(NodeId),
}

/// The throttle keeps its limits.
pub open spec fn same_limits(a: StandbyThrottle, b: StandbyThrottle) -> bool {
    a.limit() == b.limit() && a.delay() == b.delay()
}

/// What `op` makes of `before`. A gate gives a permit out only while fewer than its capacity are
/// out; a permit of a gate that was dropped counts no more.
pub open spec fn sends_move(before: Sends, op: SendsOp, after: Sends) -> bool {
    &&& before.throttle.wf()
    &&& after.throttle.wf()
    &&& match op {
        SendsOp::Insert(id) => {
            &&& same_limits(before.throttle, after.throttle)
            &&& after.throttle.gates() == before.throttle.gates()
            &&& after.out == before.out
        },
        SendsOp::Remove(id) => {
            &&& same_limits(before.throttle, after.throttle)
            &&& after.throttle.gates() == before.throttle.gates().remove(id)
            &&& after.out == before.out.remove(id)
        },
        SendsOp::Configured => {
            &&& after.throttle.gates() == Map::<NodeId, usize>::empty()
            &&& after.out == Map::<NodeId, nat>::empty()
        },
        SendsOp::Gated(target, gate) => {
            &&& same_limits(before.throttle, after.throttle)
            &&& gate.fresh == !before.throttle.gates().contains_key(target)
            &&& gate.capacity == before.throttle.slots()
            &&& after.throttle.gates() == before.throttle.gates().insert(target, gate.capacity)
            &&& after.out == (if gate.fresh {
                before.out.insert(target, 0)
            } else {
                before.out
            })
        },
        SendsOp::Took(target) => {
            &&& after.throttle == before.throttle
            &&& before.throttle.gates().contains_key(target)
            &&& before.out.contains_key(target)
            &&& before.out[target] < before.throttle.gates()[target]
            &&& after.out == before.out.insert(target, before.out[target] + 1)
        },
        SendsOp::Gave(target) => {
            &&& after.throttle == before.throttle
            &&& before.out.contains_key(target)
            &&& before.out[target] > 0
            &&& after.out == before.out.insert(target, (before.out[target] - 1) as nat)
        },
    }
}

/// Steps that follow on one another, from a throttle without gates.
pub open spec fn is_sends_run(states: Seq<Sends>, ops: Seq<SendsOp>) -> bool {
    &&& states.len() == ops.len() + 1
    &&& states[0].throttle.wf()
    &&& states[0].throttle.gates() == Map::<NodeId, usize>::empty()
    &&& states[0].out == Map::<NodeId, nat>::empty()
    &&& forall|i: int, j: int|
        0 <= i < ops.len() && j == i + 1 ==> sends_move(
            #[trigger] states[i],
            ops[i],
            #[trigger] states[j],
        )
}

proof fn lemma_gates_are_at_the_limit(t: StandbyThrottle, target: NodeId)
    requires
        t.wf(),
        t.gates().contains_key(target),
    ensures
        t.gates()[target] == t.slots(),
{
    assert(t.gates@.contains_key(target));
}

/// At no time are more sends to a throttled node under way through its gate than the limit allows;
/// a limit of 0 allows one.
pub proof fn law_sends_stay_within_the_limit(
    states: Seq<Sends>,
    ops: Seq<SendsOp>,
    n: int,
    target: NodeId,
)
    requires
        is_sends_run(states, ops),
        0 <= n < states.len(),
        states[n].out.contains_key(target),
    ensures
        states[n].throttle.gates().contains_key(target),
        states[n].out[target] <= states[n].throttle.slots(),
    decreases n,
{
    if n > 0 {
        let before = states[n - 1];
        assert(sends_move(before, ops[n - 1], states[n]));
        if before.out.contains_key(target) {
            law_sends_stay_within_the_limit(states, ops, n - 1, target);
            lemma_gates_are_at_the_limit(before.throttle, target);
        }
    }
}

/// A node keeps its gate, with the permits that are out, until it is throttled no more or the
/// throttle is configured anew: every later send is handed the same gate.
pub proof fn law_a_target_keeps_its_gate(
    states: Seq<Sends>,
    ops: Seq<SendsOp>,
    target: NodeId,
    first: Gate,
    i: int,
    j: int,
)
    requires
        is_sends_run(states, ops),
        0 <= i < j < ops.len(),
        ops[i] == SendsOp::Gated(target, first),
        ops[j] is Gated && ops[j]->Gated_0 == target,
        forall|k: int|
            i < k < j ==> #[trigger] ops[k] != SendsOp::Remove(target) && !(ops[k] is Configured),
    ensures
        ops[j]->Gated_1 == (Gate { capacity: first.capacity, fresh: false }),
{
    lemma_gate_stays(states, ops, target, i, j);
    assert(sends_move(states[i], ops[i], states[i + 1]));
    assert(sends_move(states[j], ops[j], states[j + 1]));
}

proof fn lemma_gate_stays(
    states: Seq<Sends>,
    ops: Seq<SendsOp>,
    target: NodeId,
    i: int,
    j: int,
)
    requires
        is_sends_run(states, ops),
        0 <= i < j <= ops.len(),
        ops[i] is Gated && ops[i]->Gated_0 == target,
        forall|k: int|
            i < k < j ==> #[trigger] ops[k] != SendsOp::Remove(target) && !(ops[k] is Configured),
    ensures
        states[j].throttle.gates().contains_key(target),
        states[j].throttle.slots() == states[i].throttle.slots(),
    decreases j - i,
{
    assert(sends_move(states[j - 1], ops[j - 1], states[j]));
    if j > i + 1 {
        lemma_gate_stays(states, ops, target, i, j - 1);
    }
}

} // verus!
