//! Setting a Raft group up on a node: its Raft settings, its log, its snapshots, its membership.

use std::collections::BTreeMap;

use vstd::prelude::*;

use crate::catalog::CatalogEntry;
use crate::cluster_glue::ClusterGlue;
use crate::config::{ClusterConfig, FileLogSyncLevel, NodeRole, SnapshotMode};
use crate::error;
use crate::error::MultiRaftError;
use crate::multiraft;
use crate::multiraft::{GroupView, MultiRaft, NetBackend};
use crate::snapshot::SnapshotRuntime;
use crate::stream_control::FileLogStreamOptions;
use crate::text;
use crate::type_config::{GroupId, NodeId};

verus! {

broadcast use vstd::std_specs::btree::group_btree_axioms;

/// When Raft itself takes snapshots.
#[derive(Clone, Copy, Debug, PartialEq, Eq, Structural)]
pub enum SnapshotPolicy {
    Never,
    /// After so many log entries since the last one.
    LogsSinceLast(u64),
}

/// The settings of a group's Raft.
#[derive(Clone, Copy, Debug, PartialEq, Eq, Structural)]
pub struct RaftSettings {
    pub heartbeat_interval: u64,
    pub election_timeout_min: u64,
    pub election_timeout_max: u64,
    pub max_in_snapshot_log_to_keep: u64,
    pub snapshot_policy: SnapshotPolicy,
    /// A follower may come back with a shorter log than the leader last saw.
    pub allow_log_reversion: bool,
    pub api_batch_linger_ms: u64,
    pub api_batch_capacity: u64,
    pub max_append_entries: u64,
    pub max_payload_entries: u64,
}

/// Why settings are refused.
#[derive(Debug)]
pub enum SettingsError {
    /// The shortest election timeout is not below the longest.
    ElectionTimeout { min: u64, max: u64 },
    /// The shortest election timeout is not above the heartbeat interval.
    BelowHeartbeat { election_timeout_min: u64, heartbeat_interval: u64 },
    /// No entry may go into an append.
    NoPayload,
    /// Another reason.
    Other(String),
}

/// The text of `e`.
pub open spec fn settings_error_text(e: SettingsError) -> Seq<char> {
    match e {
        SettingsError::ElectionTimeout { min, max } => "election timeout: min("@ + text::decimal(
            min as nat,
        ) + ") must be < max("@ + text::decimal(max as nat) + ")"@,
        SettingsError::BelowHeartbeat { election_timeout_min, heartbeat_interval } =>
        "election_timeout_min("@ + text::decimal(election_timeout_min as nat)
            + ") must be > heartbeat_interval("@ + text::decimal(heartbeat_interval as nat) + ")"@,
        SettingsError::NoPayload => "max_payload_entries must be > 0"@,
        SettingsError::Other(m) => m@,
    }
}

impl SettingsError {
    pub fn message(&self) -> (r: String)
        ensures
            r@ == settings_error_text(*self),
    {
        match self {
            SettingsError::ElectionTimeout { min, max } => {
                let mut m = "election timeout: min(".to_owned();
                m.append(text::decimal_text(*min).as_str());
                m.append(") must be < max(");
                m.append(text::decimal_text(*max).as_str());
                m.append(")");
                m
            },
            SettingsError::BelowHeartbeat { election_timeout_min, heartbeat_interval } => {
                let mut m = "election_timeout_min(".to_owned();
                m.append(text::decimal_text(*election_timeout_min).as_str());
                m.append(") must be > heartbeat_interval(");
                m.append(text::decimal_text(*heartbeat_interval).as_str());
                m.append(")");
                m
            },
            SettingsError::NoPayload => "max_payload_entries must be > 0".to_owned(),
            SettingsError::Other(m) => m.clone(),
        }
    }
}

/// The settings are accepted: timeouts in order and above the heartbeat, and room for entries.
pub open spec fn accepted(s: RaftSettings) -> bool {
    &&& s.heartbeat_interval < s.election_timeout_min < s.election_timeout_max
    &&& s.max_payload_entries > 0
}

/// `e` is the first objection to `s`.
pub open spec fn is_objection(s: RaftSettings, e: SettingsError) -> bool {
    match e {
        SettingsError::ElectionTimeout { min, max } => {
            &&& s.election_timeout_min >= s.election_timeout_max
            &&& min == s.election_timeout_min
            &&& max == s.election_timeout_max
        },
        SettingsError::BelowHeartbeat { election_timeout_min, heartbeat_interval } => {
            &&& s.election_timeout_min < s.election_timeout_max
            &&& s.election_timeout_min <= s.heartbeat_interval
            &&& election_timeout_min == s.election_timeout_min
            &&& heartbeat_interval == s.heartbeat_interval
        },
        SettingsError::NoPayload => {
            &&& s.heartbeat_interval < s.election_timeout_min < s.election_timeout_max
            &&& s.max_payload_entries == 0
        },
        SettingsError::Other(_) => false,
    }
}

/// Calls `openraft::Config::validate` on a configuration with these settings and the defaults of
/// `openraft` for the rest. It looks at the two election timeouts, the heartbeat interval and the
/// payload limit, in this order; the default backoff, which it parses last, is a valid one.
#[verifier::external_body]
fn validate(s: &RaftSettings) -> (r: Result<(), SettingsError>)
    ensures
        match r {
            Ok(_) => accepted(*s),
            Err(e) => is_objection(*s, e),
        },
{
    let config = openraft::Config {
        heartbeat_interval: s.heartbeat_interval,
        election_timeout_min: s.election_timeout_min,
        election_timeout_max: s.election_timeout_max,
        max_payload_entries: s.max_payload_entries,
        ..Default::default()
    };
    match config.validate() {
        Ok(_) => Ok(()),
        Err(openraft::ConfigError::ElectionTimeout { min, max }) => Err(SettingsError::ElectionTimeout { min, max }),
        Err(openraft::ConfigError::ElectionTimeoutLTHeartBeat { election_timeout_min, heartbeat_interval }) => Err(SettingsError::BelowHeartbeat { election_timeout_min, heartbeat_interval }),
        Err(openraft::ConfigError::MaxPayloadIs0) => Err(SettingsError::NoPayload),
        Err(e) => Err(SettingsError::Other(e.to_string())),
    }
}

/// A batch limit, or its default where it is 0.
pub open spec fn or_default(value: u64, default: u64) -> u64 {
    if value == 0 {
        default
    } else {
        value
    }
}

/// The settings that a node's configuration gives its groups. Where standbys build the snapshots,
/// Raft takes none itself.
pub open spec fn settings_of(c: ClusterConfig) -> RaftSettings {
    RaftSettings {
        heartbeat_interval: c.heartbeat_interval_ms,
        election_timeout_min: c.election_timeout_min_ms,
        election_timeout_max: c.election_timeout_max_ms,
        max_in_snapshot_log_to_keep: 0,
        snapshot_policy: if c.snapshot_mode == SnapshotMode::StandbyOffload {
            SnapshotPolicy::Never
        } else {
            SnapshotPolicy::LogsSinceLast(5000)
        },
        allow_log_reversion: true,
        api_batch_linger_ms: c.api_batch_linger_ms,
        api_batch_capacity: or_default(c.api_batch_capacity, 4096),
        max_append_entries: or_default(c.max_append_entries, 4096),
        max_payload_entries: or_default(c.max_payload_entries, 300),
    }
}

fn pick(value: u64, default: u64) -> (r: u64)
    ensures
        r == or_default(value, default),
{
    if value == 0 {
        default
    } else {
        value
    }
}

/// The settings for the groups of a node.
pub fn raft_settings(c: &ClusterConfig) -> (r: RaftSettings)
    ensures
        r == settings_of(*c),
{
    RaftSettings {
        heartbeat_interval: c.heartbeat_interval_ms,
        election_timeout_min: c.election_timeout_min_ms,
        election_timeout_max: c.election_timeout_max_ms,
        max_in_snapshot_log_to_keep: 0,
        snapshot_policy: if c.snapshot_mode == SnapshotMode::StandbyOffload {
            SnapshotPolicy::Never
        } else {
            SnapshotPolicy::LogsSinceLast(5000)
        },
        allow_log_reversion: true,
        api_batch_linger_ms: c.api_batch_linger_ms,
        api_batch_capacity: pick(c.api_batch_capacity, 4096),
        max_append_entries: pick(c.max_append_entries, 4096),
        max_payload_entries: pick(c.max_payload_entries, 300),
    }
}

/// Where a group keeps its log.
#[derive(Debug)]
pub enum LogPlan {
    Memory,
    /// In files below `dir`.
    File {
        dir: String,
        coalesce_us: u64,
        sync_level: FileLogSyncLevel,
        stream: FileLogStreamOptions,
    },
}

/// How a group is set up on a node.
#[derive(Debug)]
pub struct GroupPlan {
    pub settings: RaftSettings,
    /// Raft may dump the state machine for a snapshot.
    pub allow_hot_build: bool,
    /// A trigger entry has this node build a snapshot for its catalog.
    pub build_on_trigger: bool,
    pub log: LogPlan,
    pub net: NetBackend,
}

/// The node is a standby in a cluster where standbys build the snapshots.
pub open spec fn builds_snapshots(c: ClusterConfig) -> bool {
    c.role == NodeRole::Standby && c.snapshot_mode == SnapshotMode::StandbyOffload
}

/// `log` is where `c` has a group keep its log.
pub open spec fn is_log_of(c: ClusterConfig, group: GroupId, log: LogPlan) -> bool {
    match log {
        LogPlan::Memory => c.data_dir@.len() == 0,
        LogPlan::File { dir, coalesce_us, sync_level, stream } => {
            &&& c.data_dir@.len() > 0
            &&& dir@ == text::joined(c.data_dir@, "group-"@ + text::decimal(group as nat))
            &&& coalesce_us == c.file_log_coalesce_us
            &&& sync_level == c.file_log_sync_level
            &&& stream == (FileLogStreamOptions {
                stream_buf_bytes: c.file_log_stream_buf_bytes,
                stream_flush_ms: c.file_log_stream_flush_ms,
                hold_overlap: c.file_log_hold_overlap,
            })
        },
    }
}

/// What became of setting a group up on this node.
#[derive(Debug)]
pub enum SpawnReply {
    /// Its Raft runs.
    Running,
    /// Its log could not be opened.
    LogFailed(String),
    /// Its Raft did not start.
    RaftFailed(String),
}

/// What creating a group does first.
#[derive(Clone, Copy, Debug, PartialEq, Eq, Structural)]
pub enum CreateStep {
    /// Set the group up on this node.
    Spawn,
    /// It is set up already.
    Present,
}

/// What creating a group does once it is set up.
#[derive(Debug)]
pub enum JoinStep {
    /// Nothing: its membership comes from elsewhere.
    Done,
    /// Set its membership up with these nodes and their addresses.
    Initialize(BTreeMap<NodeId, String>),
}

/// What came of setting a group's membership up.
#[derive(Debug)]
pub enum InitReply {
    Done,
    /// It has been set up before.
    NotAllowed,
    Failed(String),
}

/// What a node knows of a group whose Raft has not reported yet.
pub open spec fn is_blank(v: GroupView) -> bool {
    &&& v.leader is None
    &&& !v.is_leader
    &&& v.voters@ == Set::<NodeId>::empty()
    &&& v.learners@ == Set::<NodeId>::empty()
    &&& v.applied is None
}

impl MultiRaft {
    /// How `group` is set up on this node. Settings that Raft refuses are an error, and so is a
    /// standby that is to build snapshots without a catalog.
    pub fn spawn_local_group(&self, group: GroupId) -> (r: Result<GroupPlan, MultiRaftError>)
        ensures
            ({
                let s = settings_of(self.config);
                let no_catalog = builds_snapshots(self.config) && self.snapshot_rt.catalog is None;
                match r {
                    Ok(plan) => {
                        &&& accepted(s)
                        &&& !no_catalog
                        &&& plan.settings == s
                        &&& plan.allow_hot_build == (self.config.snapshot_mode
                            != SnapshotMode::StandbyOffload)
                        &&& plan.build_on_trigger == builds_snapshots(self.config)
                        &&& is_log_of(self.config, group, plan.log)
                        &&& plan.net == self.net
                    },
                    Err(e) => {
                        ||| exists|o: SettingsError| #[trigger]
                            is_objection(s, o) && error::is_other(e, settings_error_text(o))
                        ||| accepted(s) && no_catalog && error::is_other(
                            e,
                            "StandbyOffload Standby requires non-empty data_dir for SnapshotCatalog"@,
                        )
                    },
                }
            }),
    {
        let settings = raft_settings(&self.config);
        match validate(&settings) {
            Err(o) => {
                assert(is_objection(settings_of(self.config), o));
                return Err(MultiRaftError::Other(o.message()));
            },
            Ok(()) => {},
        }
        let offload = self.config.snapshot_mode == SnapshotMode::StandbyOffload;
        let build_on_trigger = self.config.role == NodeRole::Standby && offload;
        if build_on_trigger && self.snapshot_rt.catalog.is_none() {
            return Err(
                MultiRaftError::Other(
                    "StandbyOffload Standby requires non-empty data_dir for SnapshotCatalog".to_owned(),
                ),
            );
        }
        let log = if self.config.data_dir.as_str().is_empty() {
            LogPlan::Memory
        } else {
            let name = text::concat("group-", text::decimal_text(group).as_str());
            LogPlan::File {
                dir: text::join_path(self.config.data_dir.as_str(), name.as_str()),
                coalesce_us: self.config.file_log_coalesce_us,
                sync_level: self.config.file_log_sync_level,
                stream: FileLogStreamOptions {
                    stream_buf_bytes: self.config.file_log_stream_buf_bytes,
                    stream_flush_ms: self.config.file_log_stream_flush_ms,
                    hold_overlap: self.config.file_log_hold_overlap,
                },
            }
        };
        Ok(
            GroupPlan {
                settings,
                allow_hot_build: !offload,
                build_on_trigger,
                log,
                net: self.net,
            },
        )
    }

    /// Notes that the Raft of `group` runs on this node, where its log opened and it started; else
    /// the group is not there, and the error says which of the two failed.
    pub fn group_spawned(&mut self, group: GroupId, reply: SpawnReply) -> (r: Result<
        (),
        MultiRaftError,
    >)
        ensures
            match reply {
                SpawnReply::Running => {
                    &&& r is Ok
                    &&& *final(self) == (MultiRaft { groups: final(self).groups, ..*old(self) })
                    &&& final(self).groups@.dom() == old(self).groups@.dom().insert(group)
                    &&& forall|g: GroupId|
                        g != group && old(self).groups@.contains_key(g) ==> final(self).groups@[g]
                            == #[trigger] old(self).groups@[g]
                    &&& is_blank(final(self).groups@[group])
                },
                SpawnReply::LogFailed(m) => {
                    &&& *final(self) == *old(self)
                    &&& r matches Err(e)
                    &&& error::is_other(e, "open file log: "@ + m@)
                },
                SpawnReply::RaftFailed(m) => {
                    &&& *final(self) == *old(self)
                    &&& r matches Err(e)
                    &&& error::is_other(e, m@)
                },
            },
    {
        match reply {
            SpawnReply::Running => {
                self.groups.insert(
                    group,
                    GroupView {
                        leader: None,
                        is_leader: false,
                        voters: std::collections::BTreeSet::new(),
                        learners: std::collections::BTreeSet::new(),
                        applied: None,
                    },
                );
                Ok(())
            },
            SpawnReply::LogFailed(m) => Err(
                MultiRaftError::Other(text::concat("open file log: ", m.as_str())),
            ),
            SpawnReply::RaftFailed(m) => Err(MultiRaftError::Other(m)),
        }
    }

    /// Records the advertisement of a snapshot that this node has built for `group`. `true`: the
    /// advertisements are then to be written to disk.
    pub fn standby_snapshot_built(&mut self, group: GroupId, entry: CatalogEntry) -> (persist: bool)
        ensures
            *final(self) == (MultiRaft { snapshot_rt: final(self).snapshot_rt, ..*old(self) }),
            final(self).snapshot_rt == (SnapshotRuntime {
                ads: final(self).snapshot_rt.ads,
                ..old(self).snapshot_rt
            }),
            exists|ad: crate::snapshot::SnapshotAdvertisement| #[trigger]
                is_ad_for(old(self).snapshot_rt, group, entry, ad) && final(self).snapshot_rt.ads@
                    == crate::snapshot::with_ad(old(self).snapshot_rt.ads@, ad),
            persist == (old(self).snapshot_rt.data_dir@.len() > 0),
    {
        let ad = self.snapshot_rt.advertise(group, entry);
        assert(is_ad_for(self.snapshot_rt, group, entry, ad));
        self.snapshot_rt.record_ad(ad)
    }

    /// Whether `group` can be created on this node with these members, and what is done first.
    /// There must be members, and a voter must be one of them.
    pub fn create_group(&self, group: GroupId, members: &[NodeId]) -> (r: Result<
        CreateStep,
        MultiRaftError,
    >)
        ensures
            ({
                let outside = self.config.role != NodeRole::Standby && !members@.contains(
                    self.node_id,
                );
                match r {
                    Ok(step) => {
                        &&& members@.len() > 0
                        &&& !outside
                        &&& step == (if self.groups@.contains_key(group) {
                            CreateStep::Present
                        } else {
                            CreateStep::Spawn
                        })
                    },
                    Err(e) => if members@.len() == 0 {
                        error::is_other(e, "create_group requires at least one member"@)
                    } else {
                        outside && error::is_other(
                            e,
                            "local node "@ + text::decimal(self.node_id as nat)
                                + " is not in members ["@ + text::number_list(members@) + "]"@,
                        )
                    },
                }
            }),
    {
        if members.len() == 0 {
            return Err(
                MultiRaftError::Other("create_group requires at least one member".to_owned()),
            );
        }
        if self.config.role != NodeRole::Standby && !contains_id(members, self.node_id) {
            let mut m = "local node ".to_owned();
            m.append(text::decimal_text(self.node_id).as_str());
            m.append(" is not in members [");
            m.append(text::number_list_text(members).as_str());
            m.append("]");
            return Err(MultiRaftError::Other(m));
        }
        if self.groups.contains_key(&group) {
            Ok(CreateStep::Present)
        } else {
            Ok(CreateStep::Spawn)
        }
    }

    /// What follows once `group` is set up on this node. A standby waits to be added. In one
    /// process the membership is set up by one node, once every member has the group; over gRPC
    /// each node tries.
    pub fn join_group(&self, glue: &mut ClusterGlue, group: GroupId, members: &[NodeId]) -> (r:
        JoinStep)
        ensures
            ({
                let standby = self.config.role == NodeRole::Standby;
                let local = !standby && self.net == NetBackend::InProcess;
                let ready = old(glue).ready(group).insert(self.node_id);
                let all_ready = forall|i: int|
                    0 <= i < members@.len() ==> ready.contains(#[trigger] members@[i]);
                &&& r is Done <==> standby || (local && !(all_ready && !old(
                    glue,
                ).claimed().contains(group)))
                &&& r matches JoinStep::Initialize(nodes) ==> is_membership(
                    nodes@,
                    self.config.peers@,
                    members@,
                )
                &&& final(glue).claimed() == (if local && all_ready {
                    old(glue).claimed().insert(group)
                } else {
                    old(glue).claimed()
                })
                &&& final(glue).ready(group) == (if local {
                    ready
                } else {
                    old(glue).ready(group)
                })
                &&& forall|g: GroupId|
                    g != group ==> #[trigger] final(glue).ready(g) == old(glue).ready(g)
            }),
    {
        if self.config.role == NodeRole::Standby {
            return JoinStep::Done;
        }
        match self.net {
            NetBackend::InProcess => {
                let all_ready = glue.mark_ready(group, self.node_id, members);
                if all_ready && glue.try_claim_init(group) {
                    JoinStep::Initialize(self.membership_nodes(members))
                } else {
                    JoinStep::Done
                }
            },
            NetBackend::Grpc => JoinStep::Initialize(self.membership_nodes(members)),
        }
    }

    /// What setting the membership up comes to: that it was set up before is no error.
    pub fn initialized(reply: InitReply) -> (r: Result<(), MultiRaftError>)
        ensures
            match reply {
                InitReply::Done => r is Ok,
                InitReply::NotAllowed => r is Ok,
                InitReply::Failed(m) => r matches Err(e) && error::is_other(
                    e,
                    "initialize group: "@ + m@,
                ),
            },
    {
        match reply {
            InitReply::Done => Ok(()),
            InitReply::NotAllowed => Ok(()),
            InitReply::Failed(m) => Err(
                MultiRaftError::Other(text::concat("initialize group: ", m.as_str())),
            ),
        }
    }

    /// Each member with its address; empty for one that is no peer.
    pub fn membership_nodes(&self, members: &[NodeId]) -> (r: BTreeMap<NodeId, String>)
        ensures
            is_membership(r@, self.config.peers@, members@),
    {
        let mut nodes: BTreeMap<NodeId, String> = BTreeMap::new();
        let mut i: usize = 0;
        while i < members.len()
            invariant
                i <= members@.len(),
                is_membership(nodes@, self.config.peers@, members@.take(i as int)),
            decreases members@.len() - i,
        {
            let id: u64 = members[i];
            let addr = self.peer_addr(id);
            let ghost before = nodes@;
            nodes.insert(id, addr);
            proof {
                let a = members@.take(i as int);
                let b = members@.take(i + 1);
                assert(b =~= a.push(id));
                assert forall|x: NodeId| nodes@.contains_key(x) <==> b.contains(x) by {
                    if b.contains(x) {
                        let k = choose|k: int| 0 <= k < b.len() && b[k] == x;
                        if k < a.len() {
                            assert(a[k] == x);
                            assert(a.contains(x));
                        }
                    }
                    if a.contains(x) {
                        let k = choose|k: int| 0 <= k < a.len() && a[k] == x;
                        assert(b[k] == x);
                    }
                    assert(b[i as int] == id);
                }
            }
            i = i + 1;
        }
        assert(members@.take(i as int) =~= members@);
        nodes
    }

    /// The address of the peer `id`; empty where there is no such peer.
    pub fn peer_addr(&self, id: NodeId) -> (r: String)
        ensures
            r@ == addr_or_empty(self.config.peers@, id),
    {
        match multiraft::find_addr(&self.config.peers, id) {
            Some(a) => a,
            None => String::new(),
        }
    }
}

/// `ad` advertises the snapshot `entry` of `group`.
pub open spec fn is_ad_for(
    rt: SnapshotRuntime,
    group: GroupId,
    entry: CatalogEntry,
    ad: crate::snapshot::SnapshotAdvertisement,
) -> bool {
    &&& ad.group == group
    &&& ad.last_index == entry.last_index
    &&& ad.last_term == entry.last_term
    &&& ad.snapshot_id == entry.snapshot_id
    &&& ad.size == entry.size
    &&& ad.sha256_hex == entry.sha256_hex
    &&& ad.fetch_url@ == crate::snapshot::advertised_url(rt.admin_advertise_addr, group)
}

/// The address of the first peer with the id `id`; empty where there is no such peer.
pub open spec fn addr_or_empty(peers: Seq<(NodeId, String)>, id: NodeId) -> Seq<char> {
    match multiraft::addr_of(peers, id) {
        Some(a) => a,
        None => Seq::empty(),
    }
}

/// `nodes` are the members, each with its address.
pub open spec fn is_membership(
    nodes: Map<NodeId, String>,
    peers: Seq<(NodeId, String)>,
    members: Seq<NodeId>,
) -> bool {
    &&& forall|id: NodeId| #[trigger] nodes.contains_key(id) <==> members.contains(id)
    &&& forall|id: NodeId| #[trigger]
        nodes.contains_key(id) ==> nodes[id]@ == addr_or_empty(peers, id)
}

/// Groups keep their logs in directories of their own.
pub proof fn law_groups_have_their_own_logs(data_dir: Seq<char>, a: GroupId, b: GroupId)
    requires
        text::joined(data_dir, "group-"@ + text::decimal(a as nat)) == text::joined(
            data_dir,
            "group-"@ + text::decimal(b as nat),
        ),
    ensures
        a == b,
{
    let da = text::decimal(a as nat);
    let db = text::decimal(b as nat);
    let ja = text::joined(data_dir, "group-"@ + da);
    let jb = text::joined(data_dir, "group-"@ + db);
    let head = if data_dir.len() == 0 || data_dir.last() == '/' {
        data_dir + "group-"@
    } else {
        data_dir + "/"@ + "group-"@
    };
    assert(ja =~= head + da);
    assert(jb =~= head + db);
    assert(ja.skip(head.len() as int) =~= da);
    assert(jb.skip(head.len() as int) =~= db);
    text::lemma_decimal_injective(a as nat, b as nat);
}

/// Whether `id` is among `ids`.
pub fn contains_id(ids: &[NodeId], id: NodeId) -> (r: bool)
    ensures
        r == ids@.contains(id),
{
    let mut i: usize = 0;
    while i < ids.len()
        invariant
            i <= ids@.len(),
            forall|j: int| 0 <= j < i ==> #[trigger] ids@[j] != id,
        decreases ids@.len() - i,
    {
        if ids[i] == id {
            return true;
        }
        i = i + 1;
    }
    false
}

} // verus!
