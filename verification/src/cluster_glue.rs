//! Who has created which group, and who sets its membership up.

use std::collections::{HashMap, HashSet};

use vstd::prelude::*;

use crate::type_config::{GroupId, NodeId};

verus! {

broadcast use vstd::std_specs::hash::group_hash_axioms;

/// Lets the nodes of one process set up the membership of a group once, when all of its members
/// have created it.
#[derive(Debug)]
pub struct ClusterGlue {
    ready: HashMap<u64, HashSet<u64>>,
    claimed_init: HashSet<u64>,
}

impl ClusterGlue {
    /// The nodes that have created `group`.
    pub closed spec fn ready(&self, group: GroupId) -> Set<NodeId> {
        if self.ready@.contains_key(group) {
            self.ready@[group]@
        } else {
            Set::empty()
        }
    }

    /// The groups whose setup has been claimed.
    pub closed spec fn claimed(&self) -> Set<GroupId> {
        self.claimed_init@
    }

    /// No node has created a group, and no setup is claimed.
    pub open spec fn is_new(&self) -> bool {
        &&& forall|g: GroupId| #[trigger] self.ready(g) == Set::<NodeId>::empty()
        &&& self.claimed() == Set::<GroupId>::empty()
    }

    pub fn new() -> (r: Self)
        ensures
            r.is_new(),
    {
        ClusterGlue { ready: HashMap::new(), claimed_init: HashSet::new() }
    }

    /// Notes that `node_id` has created `group`; `true` where all of `members` have.
    pub fn mark_ready(&mut self, group: GroupId, node_id: NodeId, members: &[NodeId]) -> (all: bool)
        ensures
            final(self).ready(group) == old(self).ready(group).insert(node_id),
            ready_alike_but(*final(self), *old(self), group),
            final(self).claimed() == old(self).claimed(),
            all == all_among(members@, final(self).ready(group)),
    {
        let mut set = match self.ready.remove(&group) {
            Some(s) => s,
            None => HashSet::new(),
        };
        assert(set@ == old(self).ready(group));
        set.insert(node_id);
        let mut all = true;
        let mut i: usize = 0;
        while i < members.len()
            invariant
                i <= members@.len(),
                all == (forall|j: int| 0 <= j < i ==> set@.contains(#[trigger] members@[j])),
            decreases members@.len() - i,
        {
            let m: u64 = members[i];
            if !set.contains(&m) {
                all = false;
            }
            i = i + 1;
        }
        self.ready.insert(group, set);
        all
    }

    /// Claims the setup of `group`; `true` for the first claim.
    pub fn try_claim_init(&mut self, group: GroupId) -> (first: bool)
        ensures
            first == !old(self).claimed().contains(group),
            final(self).claimed() == old(self).claimed().insert(group),
            ready_alike(*final(self), *old(self)),
    {
        self.claimed_init.insert(group)
    }
}

/// Every one of `members` is in `nodes`.
pub open spec fn all_among(members: Seq<NodeId>, nodes: Set<NodeId>) -> bool {
    forall|i: int| 0 <= i < members.len() ==> nodes.contains(#[trigger] members[i])
}

/// The same nodes have created each group.
pub open spec fn ready_alike(a: ClusterGlue, b: ClusterGlue) -> bool {
    forall|g: GroupId| #[trigger] a.ready(g) == b.ready(g)
}

/// The same nodes have created each group other than `group`.
pub open spec fn ready_alike_but(a: ClusterGlue, b: ClusterGlue, group: GroupId) -> bool {
    forall|g: GroupId| g != group ==> #[trigger] a.ready(g) == b.ready(g)
}

/// What a run of claims returns, one after the other.
pub open spec fn claim_results(claimed: Set<GroupId>, groups: Seq<GroupId>) -> Seq<bool>
    decreases groups.len(),
{
    if groups.len() == 0 {
        Seq::empty()
    } else {
        seq![!claimed.contains(groups[0])] + claim_results(
            claimed.insert(groups[0]),
            groups.drop_first(),
        )
    }
}

/// Of all the claims of a group the first succeeds, and no other.
pub proof fn law_setup_is_claimed_once(claimed: Set<GroupId>, groups: Seq<GroupId>, i: int)
    requires
        0 <= i < groups.len(),
    ensures
        claim_results(claimed, groups).len() == groups.len(),
        claim_results(claimed, groups)[i] <==> !claimed.contains(groups[i]) && forall|j: int|
            0 <= j < i ==> #[trigger] groups[j] != groups[i],
    decreases groups.len(),
{
    reveal_with_fuel(claim_results, 2);
    let rest = groups.drop_first();
    let after = claimed.insert(groups[0]);
    if rest.len() > 0 {
        law_setup_is_claimed_once(after, rest, if i > 0 { i - 1 } else { 0 });
    }
    if i > 0 {
        assert(claim_results(claimed, groups)[i] == claim_results(after, rest)[i - 1]);
        assert(rest[i - 1] == groups[i]);
        if forall|j: int| 0 <= j < i ==> #[trigger] groups[j] != groups[i] {
            assert(groups[0] != groups[i]);
            assert forall|j: int| 0 <= j < i - 1 implies #[trigger] rest[j] != rest[i - 1] by {
                assert(rest[j] == groups[j + 1]);
            }
        }
        if claim_results(claimed, groups)[i] {
            assert forall|j: int| 0 <= j < i implies #[trigger] groups[j] != groups[i] by {
                if j > 0 {
                    assert(rest[j - 1] == groups[j]);
                }
            }
        }
    }
}

} // verus!
