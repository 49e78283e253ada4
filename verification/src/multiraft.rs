//! One node of the cluster with its Raft groups.

use std::collections::{BTreeMap, BTreeSet};

use vstd::prelude::*;

use crate::catalog;
use crate::catalog::{DirItem, SnapshotCatalog};
use crate::cluster_glue::ClusterGlue;
use crate::config::ClusterConfig;
use crate::error;
use crate::error::MultiRaftError;
use crate::router::Router;
use crate::snapshot::{SnapshotAdvertisement, SnapshotRuntime};
use crate::standby_throttle::StandbyThrottle;
use crate::text;
use crate::type_config::{GroupId, NodeId};

verus! {

broadcast use vstd::std_specs::btree::group_btree_axioms;

/// How a node reaches the others.
#[derive(Clone, Copy, Debug, PartialEq, Eq, Structural)]
pub enum NetBackend {
    /// Through the router of its process.
    InProcess,
    /// Over gRPC.
    Grpc,
}

/// What is known of a local group: as its Raft last reported it.
#[derive(Debug)]
pub struct GroupView {
    pub leader: Option<NodeId>,
    /// This node leads the group.
    pub is_leader: bool,
    pub voters: BTreeSet<NodeId>,
    pub learners: BTreeSet<NodeId>,
    /// Index and term up to which the state machine has come.
    pub applied: Option<(u64, u64)>,
}

/// A node with its groups.
#[derive(Debug)]
pub struct MultiRaft {
    pub node_id: NodeId,
    pub config: ClusterConfig,
    pub net: NetBackend,
    pub groups: BTreeMap<GroupId, GroupView>,
    pub snapshot_rt: SnapshotRuntime,
}

/// The nodes of one process: their router, and what lets them set groups up together.
#[derive(Debug)]
pub struct SharedFabric {
    pub router: Router,
    pub glue: ClusterGlue,
}

/// The address of the first peer with the id `id`.
pub open spec fn addr_of(peers: Seq<(NodeId, String)>, id: NodeId) -> Option<Seq<char>>
    decreases peers.len(),
{
    if peers.len() == 0 {
        None
    } else if peers[0].0 == id {
        Some(peers[0].1@)
    } else {
        addr_of(peers.drop_first(), id)
    }
}

/// The address of the first peer with the id `id`.
pub fn find_addr(peers: &Vec<(NodeId, String)>, id: NodeId) -> (r: Option<String>)
    ensures
        match (r, addr_of(peers@, id)) {
            (Some(a), Some(b)) => a@ == b,
            (None, None) => true,
            _ => false,
        },
{
    let mut i: usize = 0;
    assert(peers@.skip(0) =~= peers@);
    while i < peers.len()
        invariant
            i <= peers@.len(),
            addr_of(peers@.skip(i as int), id) == addr_of(peers@, id),
        decreases peers@.len() - i,
    {
        assert(peers@.skip(i as int)[0] == peers@[i as int]);
        assert(peers@.skip(i as int).drop_first() =~= peers@.skip(i + 1));
        if peers[i].0 == id {
            return Some(peers[i].1.clone());
        }
        i = i + 1;
    }
    None
}

/// The channels of nodes that are started in order.
pub open spec fn seeded_channels(
    seeds: Seq<(ClusterConfig, u64, Vec<SnapshotAdvertisement>)>,
) -> Map<NodeId, u64>
    decreases seeds.len(),
{
    if seeds.len() == 0 {
        Map::empty()
    } else {
        seeded_channels(seeds.drop_last()).insert(seeds.last().0.node_id, seeds.last().1)
    }
}

/// The nodes that the configurations of started nodes throttle.
pub open spec fn seeded_standbys(
    seeds: Seq<(ClusterConfig, u64, Vec<SnapshotAdvertisement>)>,
) -> Set<NodeId>
    decreases seeds.len(),
{
    if seeds.len() == 0 {
        Set::empty()
    } else {
        seeded_standbys(seeds.drop_last()).union(seeds.last().0.standby_node_ids@.to_set())
    }
}

/// The delay and the limit of sends to throttled nodes are those that `config` sets.
pub open spec fn throttles_as(throttle: StandbyThrottle, config: ClusterConfig) -> bool {
    &&& throttle.delay() == config.standby_replicate_delay_ms
    &&& throttle.limit() == (if config.standby_max_inflight == 0 {
        crate::standby_throttle::DEFAULT_MAX_INFLIGHT
    } else {
        config.standby_max_inflight
    })
}

impl SharedFabric {
    pub open spec fn wf(&self) -> bool {
        self.router.wf()
    }

    pub fn new() -> (r: Self)
        ensures
            r.wf(),
            r.router.channels() == Map::<NodeId, u64>::empty(),
            r.router.links() == Set::<NodeId>::empty(),
            r.router.throttle.ids() == Set::<NodeId>::empty(),
            r.glue.is_new(),
    {
        SharedFabric { router: Router::new(), glue: ClusterGlue::new() }
    }

    pub fn router(&self) -> (r: &Router)
        ensures
            *r == self.router,
    {
        &self.router
    }

    /// Starts a node: it is connected through the channel `tx`, the throttle takes its limits and
    /// standbys over, and it has no group yet. `kept` are the advertisements kept on its disk.
    pub fn start_node(
        &mut self,
        config: ClusterConfig,
        tx: u64,
        kept: Vec<SnapshotAdvertisement>,
    ) -> (r: MultiRaft)
        requires
            old(self).wf(),
        ensures
            final(self).wf(),
            final(self).router.channels() == old(self).router.channels().insert(config.node_id, tx),
            final(self).router.links() == old(self).router.links().insert(config.node_id),
            final(self).router.throttle.ids() == old(self).router.throttle.ids().union(
                config.standby_node_ids@.to_set(),
            ),
            throttles_as(final(self).router.throttle, config),
            final(self).glue == old(self).glue,
            r.is_started(config, NetBackend::InProcess, kept),
    {
        self.router.register_node(config.node_id, tx);
        self.router.throttle.apply_config(&config);
        MultiRaft::started(config, NetBackend::InProcess, kept)
    }
}

impl MultiRaft {
    /// A node that has just been started: it has no group.
    pub open spec fn is_started(
        &self,
        config: ClusterConfig,
        net: NetBackend,
        kept: Vec<SnapshotAdvertisement>,
    ) -> bool {
        &&& self.node_id == config.node_id
        &&& self.config == config
        &&& self.net == net
        &&& self.groups@ == Map::<GroupId, GroupView>::empty()
        &&& self.snapshot_rt.data_dir@ == config.data_dir@
        &&& config.data_dir@.len() > 0 ==> self.snapshot_rt.ads == kept
        &&& config.data_dir@.len() == 0 ==> self.snapshot_rt.ads@.len() == 0
        &&& self.snapshot_rt.catalog is Some <==> config.snapshot_mode
            == crate::config::SnapshotMode::StandbyOffload && config.data_dir@.len() > 0
        &&& self.snapshot_rt.catalog matches Some(c) ==> c.spec_root() == text::joined(
            config.data_dir@,
            "snapshots"@,
        ) && c.spec_keep() == (if config.snapshot_keep < 1 {
            1
        } else {
            config.snapshot_keep
        })
        &&& match (self.snapshot_rt.admin_advertise_addr, config.admin_advertise_addr) {
            (Some(a), Some(b)) => a@ == b@,
            (None, None) => true,
            _ => false,
        }
    }

    fn started(config: ClusterConfig, net: NetBackend, kept: Vec<SnapshotAdvertisement>) -> (r:
        MultiRaft)
        ensures
            r.is_started(config, net, kept),
    {
        let snapshot_rt = SnapshotRuntime::new(&config, kept);
        MultiRaft { node_id: config.node_id, config, net, groups: BTreeMap::new(), snapshot_rt }
    }

    /// Starts one node with a fabric of its own.
    pub fn start(config: ClusterConfig, tx: u64, kept: Vec<SnapshotAdvertisement>) -> (r: (
        SharedFabric,
        MultiRaft,
    ))
        ensures
            r.0.wf(),
            r.0.router.channels() == Map::<NodeId, u64>::empty().insert(config.node_id, tx),
            r.0.router.links() == Set::<NodeId>::empty().insert(config.node_id),
            r.0.router.throttle.ids() == config.standby_node_ids@.to_set(),
            throttles_as(r.0.router.throttle, config),
            r.0.glue.is_new(),
            r.1.is_started(config, NetBackend::InProcess, kept),
    {
        let mut fabric = SharedFabric::new();
        let node = fabric.start_node(config, tx, kept);
        assert(fabric.router.throttle.ids() =~= config.standby_node_ids@.to_set());
        (fabric, node)
    }

    /// Starts nodes that share one fabric, in order.
    pub fn start_cluster(seeds: Vec<(ClusterConfig, u64, Vec<SnapshotAdvertisement>)>) -> (r: (
        SharedFabric,
        Vec<MultiRaft>,
    ))
        ensures
            r.0.wf(),
            r.1@.len() == seeds@.len(),
            forall|i: int|
                0 <= i < seeds@.len() ==> (#[trigger] r.1@[i]).is_started(
                    seeds@[i].0,
                    NetBackend::InProcess,
                    seeds@[i].2,
                ),
            r.0.router.channels() == seeded_channels(seeds@),
            r.0.router.links() == seeded_channels(seeds@).dom(),
            r.0.router.throttle.ids() == seeded_standbys(seeds@),
            seeds@.len() > 0 ==> throttles_as(r.0.router.throttle, seeds@.last().0),
            r.0.glue.is_new(),
    {
        let mut fabric = SharedFabric::new();
        let mut nodes: Vec<MultiRaft> = Vec::new();
        assert(seeds@.take(0) =~= Seq::empty());
        for seed in it: seeds
            invariant
                it.seq() == seeds@,
                fabric.wf(),
                nodes@.len() == it.index(),
                forall|i: int|
                    0 <= i < it.index() ==> (#[trigger] nodes@[i]).is_started(
                        seeds@[i].0,
                        NetBackend::InProcess,
                        seeds@[i].2,
                    ),
                fabric.router.channels() == seeded_channels(seeds@.take(it.index() as int)),
                fabric.router.links() == seeded_channels(seeds@.take(it.index() as int)).dom(),
                fabric.router.throttle.ids() == seeded_standbys(seeds@.take(it.index() as int)),
                it.index() > 0 ==> throttles_as(fabric.router.throttle, seeds@[it.index() - 1].0),
                fabric.glue.is_new(),
        {
            proof {
                let next = seeds@.take(it.index() + 1);
                assert(next.drop_last() =~= seeds@.take(it.index() as int));
                assert(next.last() == seed);
            }
            let (config, tx, kept) = seed;
            nodes.push(fabric.start_node(config, tx, kept));
        }
        assert(seeds@.take(seeds@.len() as int) =~= seeds@);
        (fabric, nodes)
    }

    /// Starts one node that reaches the others over gRPC: the address it binds, its throttle, and
    /// the node. A node that is not among the peers has no address.
    pub fn start_grpc(config: ClusterConfig, kept: Vec<SnapshotAdvertisement>) -> (r: Result<
        (String, StandbyThrottle, MultiRaft),
        MultiRaftError,
    >)
        ensures
            match r {
                Ok((addr, throttle, node)) => {
                    &&& addr_of(config.peers@, config.node_id) == Some(addr@)
                    &&& throttle.wf()
                    &&& throttle.ids() == config.standby_node_ids@.to_set()
                    &&& throttles_as(throttle, config)
                    &&& node.is_started(config, NetBackend::Grpc, kept)
                },
                Err(e) => addr_of(config.peers@, config.node_id) is None && error::is_other(
                    e,
                    "start_grpc: node "@ + text::decimal(config.node_id as nat)
                        + " missing from config.peers"@,
                ),
            },
    {
        match find_addr(&config.peers, config.node_id) {
            Some(addr) => {
                let throttle = StandbyThrottle::from_config(&config);
                Ok((addr, throttle, MultiRaft::started(config, NetBackend::Grpc, kept)))
            },
            None => {
                let mut m = "start_grpc: node ".to_owned();
                m.append(text::decimal_text(config.node_id).as_str());
                m.append(" missing from config.peers");
                Err(MultiRaftError::Other(m))
            },
        }
    }

    pub fn node_id(&self) -> (r: NodeId)
        ensures
            r == self.node_id,
    {
        self.node_id
    }

    /// Whether this node answers reads from its own state.
    pub fn stale_queries_enabled(&self) -> (r: bool)
        ensures
            r == self.config.enable_stale_queries,
    {
        self.config.enable_stale_queries
    }

    /// What is known of `group`; nothing where this node has no such group.
    pub open spec fn view_of(&self, group: GroupId) -> Option<GroupView> {
        if self.groups@.contains_key(group) {
            Some(self.groups@[group])
        } else {
            None
        }
    }

    /// What is known of `group`, or that it is unknown.
    pub fn raft(&self, group: GroupId) -> (r: Result<&GroupView, MultiRaftError>)
        ensures
            match r {
                Ok(v) => self.view_of(group) == Some(*v),
                Err(e) => self.view_of(group) is None && e == MultiRaftError::UnknownGroup(group),
            },
    {
        match self.groups.get(&group) {
            Some(v) => Ok(v),
            None => Err(MultiRaftError::UnknownGroup(group)),
        }
    }

    /// Takes over what the Raft of `group` reports; a group that this node does not have is passed
    /// over.
    pub fn observe(&mut self, group: GroupId, view: GroupView)
        ensures
            *final(self) == (MultiRaft { groups: final(self).groups, ..*old(self) }),
            final(self).groups@ == (if old(self).groups@.contains_key(group) {
                old(self).groups@.insert(group, view)
            } else {
                old(self).groups@
            }),
    {
        if self.groups.contains_key(&group) {
            self.groups.insert(group, view);
        }
    }

    pub fn is_leader(&self, group: GroupId) -> (r: bool)
        ensures
            r == (self.view_of(group) matches Some(v) && v.is_leader),
    {
        match self.groups.get(&group) {
            Some(v) => v.is_leader,
            None => false,
        }
    }

    pub fn leader(&self, group: GroupId) -> (r: Option<NodeId>)
        ensures
            r == (match self.view_of(group) {
                Some(v) => v.leader,
                None => None,
            }),
    {
        match self.groups.get(&group) {
            Some(v) => v.leader,
            None => None,
        }
    }

    /// The voters of `group`.
    pub fn voter_ids(&self, group: GroupId) -> (r: Option<&BTreeSet<NodeId>>)
        ensures
            match r {
                Some(s) => self.view_of(group) matches Some(v) && v.voters == *s,
                None => self.view_of(group) is None,
            },
    {
        match self.groups.get(&group) {
            Some(v) => Some(&v.voters),
            None => None,
        }
    }

    /// The learners of `group`.
    pub fn learner_ids(&self, group: GroupId) -> (r: Option<&BTreeSet<NodeId>>)
        ensures
            match r {
                Some(s) => self.view_of(group) matches Some(v) && v.learners == *s,
                None => self.view_of(group) is None,
            },
    {
        match self.groups.get(&group) {
            Some(v) => Some(&v.learners),
            None => None,
        }
    }

    /// Index and term up to which the state machine of `group` has come.
    pub fn local_applied(&self, group: GroupId) -> (r: Option<(u64, u64)>)
        ensures
            r == (match self.view_of(group) {
                Some(v) => v.applied,
                None => None,
            }),
    {
        match self.groups.get(&group) {
            Some(v) => v.applied,
            None => None,
        }
    }

    /// Records an advertisement. `true`: the advertisements are then to be written to disk.
    pub fn record_snapshot_ad(&mut self, ad: SnapshotAdvertisement) -> (persist: bool)
        ensures
            *final(self) == (MultiRaft { snapshot_rt: final(self).snapshot_rt, ..*old(self) }),
            final(self).snapshot_rt == (SnapshotRuntime {
                ads: final(self).snapshot_rt.ads,
                ..old(self).snapshot_rt
            }),
            final(self).snapshot_rt.ads@ == crate::snapshot::with_ad(old(self).snapshot_rt.ads@, ad),
            persist == (old(self).snapshot_rt.data_dir@.len() > 0),
    {
        self.snapshot_rt.record_ad(ad)
    }

    /// All advertisements this node knows of.
    pub fn snapshot_ads(&self) -> (r: &Vec<SnapshotAdvertisement>)
        ensures
            *r == self.snapshot_rt.ads,
    {
        &self.snapshot_rt.ads
    }

    /// The newest advertisement for `group` that can be fetched.
    pub fn best_snapshot_ad(&self, group: GroupId) -> (r: Option<&SnapshotAdvertisement>)
        ensures
            match r {
                Some(a) => exists|p: int| #[trigger]
                    crate::snapshot::is_best(self.snapshot_rt.ads@, group, p) && *a
                        == self.snapshot_rt.ads@[p],
                None => crate::snapshot::none_fetchable(self.snapshot_rt.ads@, group),
            },
    {
        self.snapshot_rt.best_snapshot_ad(group)
    }

    /// The nodes that replication throttles.
    pub fn standby_throttle_ids<'a>(&self, throttle: &'a StandbyThrottle) -> (r: &'a std::collections::HashSet<
        NodeId,
    >)
        ensures
            r@ == throttle.ids(),
    {
        throttle.standby_ids()
    }

    /// Ends the node: once its groups are shut down it has none, and a node of this process is
    /// disconnected. A group that does not shut down is an error, and nothing changes.
    pub fn shutdown(&mut self, router: &mut Router, failed: Option<String>) -> (r: Result<
        (),
        MultiRaftError,
    >)
        requires
            old(router).wf(),
        ensures
            final(router).wf(),
            match failed {
                Some(m) => {
                    &&& r matches Err(e)
                    &&& error::is_other(e, "shutdown: "@ + m@)
                    &&& *final(self) == *old(self)
                    &&& *final(router) == *old(router)
                },
                None => {
                    &&& r is Ok
                    &&& *final(self) == (MultiRaft { groups: final(self).groups, ..*old(self) })
                    &&& final(self).groups@ == Map::<GroupId, GroupView>::empty()
                    &&& old(self).net == NetBackend::Grpc ==> *final(router) == *old(router)
                    &&& old(self).net == NetBackend::InProcess ==> {
                        &&& final(router).channels() == old(router).channels().remove(
                            old(self).node_id,
                        )
                        &&& final(router).links() == old(router).links()
                        &&& final(router).throttle == old(router).throttle
                    }
                },
            },
    {
        match failed {
            Some(m) => Err(MultiRaftError::Other(text::concat("shutdown: ", m.as_str()))),
            None => {
                self.groups.clear();
                if self.net == NetBackend::InProcess {
                    router.unregister_node(self.node_id);
                }
                Ok(())
            },
        }
    }

    /// The catalog of durable snapshots, where this node keeps one.
    pub fn snapshot_catalog(&self) -> (r: Option<&SnapshotCatalog>)
        ensures
            match r {
                Some(c) => self.snapshot_rt.catalog == Some(*c),
                None => self.snapshot_rt.catalog is None,
            },
    {
        self.snapshot_rt.catalog.as_ref()
    }

    /// The position of the newest durable snapshot of a group among the items of its directory;
    /// none without a catalog, or where the directory cannot be listed.
    pub fn latest_catalog_entry(&self, items: &Vec<DirItem>) -> (r: Option<usize>)
        ensures
            r is Some <==> self.snapshot_rt.catalog is Some && catalog::all_readable(items@)
                && catalog::any_counts(items@),
            r matches Some(n) ==> exists|l: catalog::Listing, p: int|
                catalog::lists(items@, l) && #[trigger] catalog::is_newest(l.entries@, p) && n
                    == l.from@[p],
    {
        let c = match &self.snapshot_rt.catalog {
            Some(c) => c,
            None => {
                return None;
            },
        };
        let l = match c.list(items) {
            Ok(l) => l,
            Err(_) => {
                proof {
                    let k = choose|k: int| #[trigger] catalog::first_unreadable(items@, k);
                    assert(catalog::counts(items@[k]));
                }
                return None;
            },
        };
        match c.latest(&l.entries) {
            Some(p) => {
                let n: usize = l.from[p];
                assert(catalog::counts(items@[n as int]));
                Some(n)
            },
            None => {
                proof {
                    assert forall|i: int| 0 <= i < items@.len() implies !catalog::counts(
                        #[trigger] items@[i],
                    ) by {
                        if catalog::counts(items@[i]) {
                            assert(crate::order::has_position(l.from@, i));
                        }
                    }
                }
                None
            },
        }
    }

    /// How many links to other nodes there are: those of the process, or those over gRPC.
    pub fn unique_peer_links(&self, router: &Router, grpc_links: usize) -> (r: usize)
        ensures
            r == (match self.net {
                NetBackend::InProcess => router.links().len(),
                NetBackend::Grpc => grpc_links as nat,
            }),
    {
        match self.net {
            NetBackend::InProcess => router.unique_peer_links(),
            NetBackend::Grpc => grpc_links,
        }
    }

    /// What waiting for the recovery of `group` comes to, by what its Raft answers.
    pub fn wait_for_recovery(&self, group: GroupId, reply: Result<(), String>) -> (r: Result<
        (),
        MultiRaftError,
    >)
        ensures
            match r {
                Ok(_) => self.view_of(group) is Some && reply is Ok,
                Err(e) => if self.view_of(group) is None {
                    e == MultiRaftError::UnknownGroup(group)
                } else {
                    reply matches Err(m) && error::is_other(e, "wait_for_recovery: "@ + m@)
                },
            },
    {
        match self.raft(group) {
            Err(e) => Err(e),
            Ok(_) => match reply {
                Ok(done) => Ok(done),
                Err(m) => Err(
                    MultiRaftError::Other(text::concat("wait_for_recovery: ", m.as_str())),
                ),
            },
        }
    }
}

/// No two of the started nodes have the same id.
pub open spec fn ids_differ(seeds: Seq<(ClusterConfig, u64, Vec<SnapshotAdvertisement>)>) -> bool {
    forall|i: int, j: int|
        0 <= i < j < seeds.len() ==> (#[trigger] seeds[i]).0.node_id != (
        #[trigger] seeds[j]).0.node_id
}

/// A started node has the id `id`.
pub open spec fn is_seeded(
    seeds: Seq<(ClusterConfig, u64, Vec<SnapshotAdvertisement>)>,
    id: NodeId,
) -> bool {
    exists|i: int| 0 <= i < seeds.len() && (#[trigger] seeds[i]).0.node_id == id
}

proof fn lemma_seeded_ids(
    seeds: Seq<(ClusterConfig, u64, Vec<SnapshotAdvertisement>)>,
    id: NodeId,
)
    ensures
        seeded_channels(seeds).contains_key(id) <==> is_seeded(seeds, id),
    decreases seeds.len(),
{
    if seeds.len() > 0 {
        let rest = seeds.drop_last();
        lemma_seeded_ids(rest, id);
        if is_seeded(rest, id) {
            let i = choose|i: int| 0 <= i < rest.len() && (#[trigger] rest[i]).0.node_id == id;
            assert(seeds[i].0.node_id == id);
        }
        if is_seeded(seeds, id) {
            let i = choose|i: int| 0 <= i < seeds.len() && (#[trigger] seeds[i]).0.node_id == id;
            if i < rest.len() {
                assert(rest[i].0.node_id == id);
            }
        }
        assert(seeds[seeds.len() - 1] == seeds.last());
    }
}

/// There is one link for each node that was started, however many groups they have: a group is set
/// up without the router. Nodes that are started under one id share a link.
pub proof fn law_links_grow_with_nodes(
    seeds: Seq<(ClusterConfig, u64, Vec<SnapshotAdvertisement>)>,
)
    ensures
        seeded_channels(seeds).dom().finite(),
        forall|id: NodeId| #[trigger]
            seeded_channels(seeds).dom().contains(id) <==> is_seeded(seeds, id),
        seeded_channels(seeds).dom().len() <= seeds.len(),
        ids_differ(seeds) ==> seeded_channels(seeds).dom().len() == seeds.len(),
    decreases seeds.len(),
{
    assert forall|id: NodeId| #[trigger]
        seeded_channels(seeds).dom().contains(id) <==> is_seeded(seeds, id) by {
        lemma_seeded_ids(seeds, id);
    }
    if seeds.len() > 0 {
        let init = seeds.drop_last();
        let last = seeds.last().0.node_id;
        law_links_grow_with_nodes(init);
        let rest = seeded_channels(init);
        assert(seeded_channels(seeds).dom() =~= rest.dom().insert(last));
        if ids_differ(seeds) {
            assert forall|i: int, j: int| 0 <= i < j < init.len() implies (
            #[trigger] init[i]).0.node_id != (#[trigger] init[j]).0.node_id by {
                assert(seeds[i].0.node_id != seeds[j].0.node_id);
            }
            if rest.dom().contains(last) {
                let i = choose|i: int|
                    0 <= i < init.len() && (#[trigger] init[i]).0.node_id == last;
                assert(seeds[i].0.node_id != seeds[seeds.len() - 1].0.node_id);
            }
        }
    }
}

/// What a watcher of a group's leader has last passed on.
#[derive(Debug)]
pub struct LeaderWatch {
    pub last: Option<Option<NodeId>>,
}

impl LeaderWatch {
    pub fn new() -> (r: Self)
        ensures
            r.last is None,
    {
        LeaderWatch { last: None }
    }

    /// Takes note of the current leader; `true` where it is to be passed on: the first report, and
    /// each that differs from the one before.
    pub fn observe(&mut self, current: Option<NodeId>) -> (notify: bool)
        ensures
            notify == (old(self).last != Some(current)),
            final(self).last == Some(current),
    {
        let same = match self.last {
            None => false,
            Some(None) => current.is_none(),
            Some(Some(a)) => match current {
                Some(b) => a == b,
                None => false,
            },
        };
        self.last = Some(current);
        !same
    }
}

/// The leader that the first of the nodes with one reports, where some node leads.
pub open spec fn agreed_leader(seen: Seq<(Option<NodeId>, bool)>) -> Option<NodeId>
    decreases seen.len(),
{
    if seen.len() == 0 {
        None
    } else if seen[0].0 is Some {
        seen[0].0
    } else {
        agreed_leader(seen.drop_first())
    }
}

/// One of the nodes leads.
pub open spec fn some_leads(seen: Seq<(Option<NodeId>, bool)>) -> bool {
    exists|i: int| 0 <= i < seen.len() && (#[trigger] seen[i]).1
}

/// The leader of a group, as far as its nodes have found one: what each of them takes for the
/// leader, and whether it leads itself.
pub fn leader_seen(seen: &Vec<(Option<NodeId>, bool)>) -> (r: Option<NodeId>)
    ensures
        r == (if some_leads(seen@) {
            agreed_leader(seen@)
        } else {
            None
        }),
{
    let mut leads = false;
    let mut i: usize = 0;
    while i < seen.len()
        invariant
            i <= seen@.len(),
            leads == exists|j: int| 0 <= j < i && (#[trigger] seen@[j]).1,
        decreases seen@.len() - i,
    {
        if seen[i].1 {
            leads = true;
        }
        i = i + 1;
    }
    if !leads {
        return None;
    }
    let mut k: usize = 0;
    assert(seen@.skip(0) =~= seen@);
    while k < seen.len()
        invariant
            k <= seen@.len(),
            exists|j: int| 0 <= j < seen@.len() && (#[trigger] seen@[j]).1,
            agreed_leader(seen@.skip(k as int)) == agreed_leader(seen@),
        decreases seen@.len() - k,
    {
        assert(seen@.skip(k as int)[0] == seen@[k as int]);
        assert(seen@.skip(k as int).drop_first() =~= seen@.skip(k + 1));
        if seen[k].0.is_some() {
            return seen[k].0;
        }
        k = k + 1;
    }
    None
}

} // verus!
