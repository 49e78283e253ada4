//! Cluster configuration.

use vstd::prelude::*;

use crate::text;
use crate::type_config::NodeId;

verus! {

/// Local Raft role of this node.
#[derive(Clone, Copy, Debug, PartialEq, Eq, Structural)]
pub enum NodeRole {
    Voter,
    /// A learner that never leads; builds snapshots away from the voters.
    Standby,
}

impl Default for NodeRole {
    fn default() -> (r: Self)
        ensures
            r == NodeRole::Voter,
    {
        NodeRole::Voter
    }
}

/// How snapshots are made in this cluster.
#[derive(Clone, Copy, Debug, PartialEq, Eq, Structural)]
pub enum SnapshotMode {
    /// Voters may dump the state machine while they serve.
    Disabled,
    /// Voters never do; standbys build durable snapshots on their own time.
    StandbyOffload,
}

impl Default for SnapshotMode {
    fn default() -> (r: Self)
        ensures
            r == SnapshotMode::Disabled,
    {
        SnapshotMode::Disabled
    }
}

/// How hard each durable log write is pushed to the disk.
///
/// It is independent of group commit: coalescing batches the writes, then this level decides how
/// hard they hit the disk.
#[derive(Clone, Copy, Debug, PartialEq, Eq, Structural)]
pub enum FileLogSyncLevel {
    /// Written only: the data may sit in the page cache, and a power loss can take the tail.
    Os,
    /// File data forced to stable storage.
    Data,
    /// Data and metadata forced to stable storage.
    All,
}

impl Default for FileLogSyncLevel {
    fn default() -> (r: Self)
        ensures
            r == FileLogSyncLevel::Os,
    {
        FileLogSyncLevel::Os
    }
}

impl FileLogSyncLevel {
    /// The level's number: 0, 1 or 2, by rising strength.
    pub open spec fn number(self) -> u8 {
        match self {
            FileLogSyncLevel::Os => 0,
            FileLogSyncLevel::Data => 1,
            FileLogSyncLevel::All => 2,
        }
    }

    /// The level with number `v`, if there is one.
    pub fn from_u8(v: u8) -> (r: Option<Self>)
        ensures
            r is Some <==> v <= 2,
            r matches Some(level) ==> level.number() == v,
    {
        match v {
            0 => Some(FileLogSyncLevel::Os),
            1 => Some(FileLogSyncLevel::Data),
            2 => Some(FileLogSyncLevel::All),
            _ => None,
        }
    }

    pub fn as_u8(self) -> (r: u8)
        ensures
            r == self.number(),
    {
        match self {
            FileLogSyncLevel::Os => 0,
            FileLogSyncLevel::Data => 1,
            FileLogSyncLevel::All => 2,
        }
    }
}

/// Reading a level's number gives the level back, and no other level has that number.
pub proof fn law_sync_level_numbers(a: FileLogSyncLevel, b: FileLogSyncLevel)
    ensures
        a.number() <= 2,
        a.number() == b.number() <==> a == b,
{
}

/// Static membership and timing of the cluster, as one node sees it.
#[derive(Clone, Debug)]
pub struct ClusterConfig {
    pub node_id: NodeId,
    /// Every node with its socket address, `host:port`.
    pub peers: Vec<(NodeId, String)>,
    /// Empty: the log stays in memory. Else the log of a group is kept in `group-<id>` below it.
    pub data_dir: String,
    pub heartbeat_interval_ms: u64,
    pub election_timeout_min_ms: u64,
    pub election_timeout_max_ms: u64,
    /// Voter, or standby learner.
    pub role: NodeRole,
    pub snapshot_mode: SnapshotMode,
    /// How many durable snapshots to keep for each group.
    pub snapshot_keep: usize,
    /// Address that snapshot fetch URLs advertise.
    pub admin_advertise_addr: Option<String>,
    /// How many sends to one standby may be under way; 0 stands for the default.
    pub standby_max_inflight: u32,
    /// Delay before each send to a standby.
    pub standby_replicate_delay_ms: u64,
    /// The nodes throttled as standbys from the start.
    pub standby_node_ids: Vec<NodeId>,
    /// Chunk size of ranged snapshot downloads, in bytes.
    pub snapshot_fetch_chunk_bytes: usize,
    /// How often a standby pulls from its upstream.
    pub daisy_sync_interval_ms: u64,
    /// Base URL of the standby to pull snapshots from.
    pub daisy_upstream_base: Option<String>,
    /// Whether this node answers reads from its own, perhaps stale, state.
    pub enable_stale_queries: bool,
    /// Group-commit window of the log file in microseconds; 0 flushes each append at once.
    pub file_log_coalesce_us: u64,
    pub file_log_sync_level: FileLogSyncLevel,
    /// Pending bytes that force a flush at `Os`, or with `file_log_hold_overlap`; 0 sets no such
    /// threshold.
    pub file_log_stream_buf_bytes: usize,
    /// Longest time to hold pending bytes at `Os`; 0 sets no timer.
    pub file_log_stream_flush_ms: u64,
    /// Hold overlapping appends until the timer or a cap, rather than flush early.
    pub file_log_hold_overlap: bool,
    pub api_batch_linger_ms: u64,
    /// 0 stands for the default.
    pub api_batch_capacity: u64,
    /// 0 stands for the default.
    pub max_append_entries: u64,
    /// 0 stands for the default.
    pub max_payload_entries: u64,
    /// How often transition policies are asked; 0 turns them off.
    pub transition_poll_interval_ms: u64,
}

/// The lowest port that test addresses use.
pub const TEST_PORT_BASE: u64 = 19000;

/// The highest node id that has a test address.
pub const TEST_MAX_ID: u64 = 46535;

/// The address of node `id` in tests: the loopback host, and a port of its own.
pub open spec fn test_addr(id: NodeId) -> Seq<char> {
    "127.0.0.1:"@ + text::decimal((TEST_PORT_BASE + id) as nat)
}

/// Each id stands with its test address, in order.
pub open spec fn test_peers(peers: Seq<(NodeId, String)>, ids: Seq<NodeId>) -> bool {
    &&& peers.len() == ids.len()
    &&& forall|i: int|
        0 <= i < ids.len() ==> (#[trigger] peers[i]).0 == ids[i] && peers[i].1@ == test_addr(ids[i])
}

impl ClusterConfig {
    /// Defaults for tests within one process: a memory log, and addresses on the loopback host.
    pub fn for_test(node_id: NodeId, peer_ids: &[NodeId]) -> (r: Self)
        requires
            forall|i: int| 0 <= i < peer_ids@.len() ==> #[trigger] peer_ids@[i] <= TEST_MAX_ID,
        ensures
            r.node_id == node_id,
            test_peers(r.peers@, peer_ids@),
            r.data_dir@.len() == 0,
            r.heartbeat_interval_ms == 100,
            r.election_timeout_min_ms == 300,
            r.election_timeout_max_ms == 600,
            r.role == NodeRole::Voter,
            r.snapshot_mode == SnapshotMode::Disabled,
            r.snapshot_keep == 2,
            r.admin_advertise_addr is None,
            r.standby_max_inflight == 8,
            r.standby_replicate_delay_ms == 0,
            r.standby_node_ids@.len() == 0,
            r.snapshot_fetch_chunk_bytes == 65536,
            r.daisy_sync_interval_ms == 2000,
            r.daisy_upstream_base is None,
            !r.enable_stale_queries,
            r.file_log_coalesce_us == 0,
            r.file_log_sync_level == FileLogSyncLevel::Os,
            r.file_log_stream_buf_bytes == 0,
            r.file_log_stream_flush_ms == 0,
            !r.file_log_hold_overlap,
            r.api_batch_linger_ms == 0,
            r.api_batch_capacity == 0,
            r.max_append_entries == 0,
            r.max_payload_entries == 0,
            r.transition_poll_interval_ms == 0,
    {
        let mut peers: Vec<(NodeId, String)> = Vec::new();
        let mut i: usize = 0;
        while i < peer_ids.len()
            invariant
                i <= peer_ids@.len(),
                forall|j: int| 0 <= j < peer_ids@.len() ==> #[trigger] peer_ids@[j] <= TEST_MAX_ID,
                test_peers(peers@, peer_ids@.take(i as int)),
            decreases peer_ids@.len() - i,
        {
            let id: u64 = peer_ids[i];
            let addr = text::concat("127.0.0.1:", text::decimal_text(TEST_PORT_BASE + id).as_str());
            peers.push((id, addr));
            i = i + 1;
        }
        assert(peer_ids@.take(i as int) =~= peer_ids@);
        ClusterConfig {
            node_id,
            peers,
            data_dir: String::new(),
            heartbeat_interval_ms: 100,
            election_timeout_min_ms: 300,
            election_timeout_max_ms: 600,
            role: NodeRole::Voter,
            snapshot_mode: SnapshotMode::Disabled,
            snapshot_keep: 2,
            admin_advertise_addr: None,
            standby_max_inflight: 8,
            standby_replicate_delay_ms: 0,
            standby_node_ids: Vec::new(),
            snapshot_fetch_chunk_bytes: 65536,
            daisy_sync_interval_ms: 2000,
            daisy_upstream_base: None,
            enable_stale_queries: false,
            file_log_coalesce_us: 0,
            file_log_sync_level: FileLogSyncLevel::Os,
            file_log_stream_buf_bytes: 0,
            file_log_stream_flush_ms: 0,
            file_log_hold_overlap: false,
            api_batch_linger_ms: 0,
            api_batch_capacity: 0,
            max_append_entries: 0,
            max_payload_entries: 0,
            transition_poll_interval_ms: 0,
        }
    }

    /// The same configuration, with local stale reads switched on or off.
    pub fn with_stale_queries(self, enabled: bool) -> (r: Self)
        ensures
            r == (ClusterConfig { enable_stale_queries: enabled, ..self }),
    {
        let mut r = self;
        r.enable_stale_queries = enabled;
        r
    }
}

} // verus!
