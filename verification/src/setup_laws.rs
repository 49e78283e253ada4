//! What a node is once it is started, and how its groups are set up.

use std::collections::{BTreeMap, BTreeSet};

use vstd::prelude::*;

use crate::catalog::SnapshotCatalog;
use crate::cluster_glue::ClusterGlue;
use crate::config::{ClusterConfig, FileLogSyncLevel, NodeRole, SnapshotMode};
use crate::error::MultiRaftError;
use crate::file_log::{FileLogInner, HardState};
use crate::flush::{flush_pipeline, FlushAction, FlushEvent, FlushStage};
use crate::group_setup;
use crate::group_setup::{
    raft_settings, CreateStep, GroupPlan, InitReply, JoinStep, RaftSettings,
    SnapshotPolicy, SpawnReply,
};
use crate::log_open::{AppendPlan, FileLogStore};
use crate::log_table::{LogEntry, LogTable};
use crate::multiraft;
use crate::multiraft::{
    leader_seen, GroupView, LeaderWatch, MultiRaft, NetBackend, SharedFabric,
};
use crate::router::{Router, RouterError};
use crate::snapshot::{SnapshotAdvertisement, SnapshotRuntime};
use crate::standby_throttle::StandbyThrottle;
use crate::stream_control::{AfterAppend, FileLogStreamOptions};
use crate::text;
use crate::type_config::{GroupId, NodeId};

verus! {

/// The level that the configuration names reaches the disk. A group of a node with a data directory
/// keeps its log in files; the store that is opened by the group's plan hands what is appended out
/// to be written at exactly that level, with the window and the stream settings of the
/// configuration. At `Data` and `All` without a window an append is flushed before it is answered.
pub proof fn law_configured_level_reaches_the_disk<K: Copy>(
    node: &MultiRaft,
    group: GroupId,
    plan: GroupPlan,
    hard: HardState,
    log: LogTable,
    store: FileLogStore,
    appending: &mut FileLogStore,
    entries: Vec<LogEntry>,
    callback: u64,
    out: AppendPlan,
    flushing: &mut FileLogInner,
    r: (FlushStage<K>, FlushAction<K>),
)
    requires
        node.config.data_dir@.len() > 0,
        call_ensures(MultiRaft::spawn_local_group, (node, group), Ok(plan)),
        log.wf(),
        plan.log is File ==> call_ensures(
            FileLogStore::open_with_full_options,
            (
                plan.log->dir,
                plan.log->coalesce_us,
                plan.log->sync_level,
                plan.log->stream,
                hard,
                log,
            ),
            store,
        ),
        *old(appending) == store,
        entries@.len() > 0,
        call_ensures(FileLogStore::append, (appending, entries, callback), Ok(out)),
        *old(flushing) == final(appending).inner,
        call_ensures(
            flush_pipeline::<K>,
            (flushing, FlushStage::<K>::Ready, FlushEvent::<K>::Proceed),
            r,
        ),
    ensures
        plan.log is File,
        r.1 is Write,
        r.1->Write_sync_level == node.config.file_log_sync_level,
        r.1->buf@.len() > 0,
        store.control.coalesce_us == node.config.file_log_coalesce_us,
        store.control.stream.stream_buf_bytes == node.config.file_log_stream_buf_bytes,
        store.control.stream.stream_flush_ms == node.config.file_log_stream_flush_ms,
        store.control.stream.hold_overlap == node.config.file_log_hold_overlap,
        store.inner.hard() == hard,
        store.inner.log == log,
        node.config.file_log_coalesce_us == 0 && node.config.file_log_sync_level
            != FileLogSyncLevel::Os ==> out.then_flush == AfterAppend::FlushNow,
        node.config.file_log_coalesce_us == 0 && node.config.file_log_stream_buf_bytes == 0
            && node.config.file_log_stream_flush_ms == 0 ==> out.then_flush
            == AfterAppend::FlushNow,
        node.config.file_log_coalesce_us > 0 ==> out.then_flush is Defer,
{
    let v = crate::log_table::entry_views(entries@);
    crate::file_log::lemma_encoded_nonempty(v);
}

/// Configurations that differ in a setting of the log file give plans that differ in it.
pub proof fn law_plans_tell_log_settings_apart(
    a: &MultiRaft,
    b: &MultiRaft,
    group: GroupId,
    p: GroupPlan,
    q: GroupPlan,
)
    requires
        a.config.data_dir@.len() > 0,
        b.config.data_dir@.len() > 0,
        call_ensures(MultiRaft::spawn_local_group, (a, group), Ok(p)),
        call_ensures(MultiRaft::spawn_local_group, (b, group), Ok(q)),
    ensures
        p.log is File && q.log is File,
        p.log->sync_level == q.log->sync_level <==> a.config.file_log_sync_level
            == b.config.file_log_sync_level,
        p.log->coalesce_us == q.log->coalesce_us <==> a.config.file_log_coalesce_us
            == b.config.file_log_coalesce_us,
        p.log->stream == q.log->stream <==> a.config.file_log_stream_buf_bytes
            == b.config.file_log_stream_buf_bytes && a.config.file_log_stream_flush_ms
            == b.config.file_log_stream_flush_ms && a.config.file_log_hold_overlap
            == b.config.file_log_hold_overlap,
{
}

/// Each group has a log of its own: in memory exactly where the node has no data directory, else in
/// a directory below it that no other group has.
pub proof fn law_each_group_has_its_log(
    node: &MultiRaft,
    a: GroupId,
    b: GroupId,
    p: GroupPlan,
    q: GroupPlan,
)
    requires
        call_ensures(MultiRaft::spawn_local_group, (node, a), Ok(p)),
        call_ensures(MultiRaft::spawn_local_group, (node, b), Ok(q)),
    ensures
        p.log is Memory <==> node.config.data_dir@.len() == 0,
        p.log is File ==> p.log->dir@.len() > node.config.data_dir@.len()
            && node.config.data_dir@ == p.log->dir@.take(node.config.data_dir@.len() as int),
        p.log is File && a != b ==> p.log->dir@ != q.log->dir@,
{
    if p.log is File {
        let d = node.config.data_dir@;
        let name = "group-"@ + text::decimal(a as nat);
        reveal_strlit("group-");
        assert(p.log->dir@.take(d.len() as int) =~= d);
        if p.log->dir@ == q.log->dir@ {
            group_setup::law_groups_have_their_own_logs(d, a, b);
        }
    }
}

/// The Raft settings of a group are those that the configuration names: its timeouts as they are,
/// its batch limits or their defaults where they are 0, and no snapshots by Raft itself where
/// standbys build them.
pub proof fn law_settings_follow_the_configuration(c: &ClusterConfig, s: RaftSettings)
    requires
        call_ensures(raft_settings, (c,), s),
    ensures
        s.heartbeat_interval == c.heartbeat_interval_ms,
        s.election_timeout_min == c.election_timeout_min_ms,
        s.election_timeout_max == c.election_timeout_max_ms,
        s.api_batch_linger_ms == c.api_batch_linger_ms,
        c.api_batch_capacity > 0 ==> s.api_batch_capacity == c.api_batch_capacity,
        c.api_batch_capacity == 0 ==> s.api_batch_capacity == 4096,
        c.max_append_entries > 0 ==> s.max_append_entries == c.max_append_entries,
        c.max_append_entries == 0 ==> s.max_append_entries == 4096,
        c.max_payload_entries > 0 ==> s.max_payload_entries == c.max_payload_entries,
        c.max_payload_entries == 0 ==> s.max_payload_entries == 300,
        s.max_in_snapshot_log_to_keep == 0,
        s.allow_log_reversion,
        s.snapshot_policy == SnapshotPolicy::Never <==> c.snapshot_mode
            == SnapshotMode::StandbyOffload,
        c.snapshot_mode == SnapshotMode::Disabled ==> s.snapshot_policy
            == SnapshotPolicy::LogsSinceLast(5000),
{
}

/// A group is set up exactly where its timeouts lie in order above the heartbeat and a standby that
/// is to build snapshots has a catalog to keep them in. It then runs with the node's settings and
/// over its network; voters dump their state only where no standby builds snapshots, and a trigger
/// has a snapshot built on standbys alone.
pub proof fn law_groups_are_set_up_where_they_can_run(
    node: &MultiRaft,
    group: GroupId,
    r: Result<GroupPlan, MultiRaftError>,
    s: RaftSettings,
)
    requires
        call_ensures(MultiRaft::spawn_local_group, (node, group), r),
        call_ensures(raft_settings, (&node.config,), s),
    ensures
        r is Ok <==> {
            &&& node.config.heartbeat_interval_ms < node.config.election_timeout_min_ms
            &&& node.config.election_timeout_min_ms < node.config.election_timeout_max_ms
            &&& node.snapshot_rt.catalog is None ==> node.config.role == NodeRole::Voter
                || node.config.snapshot_mode == SnapshotMode::Disabled
        },
        r is Ok ==> r->Ok_0.settings == s,
        r is Ok ==> r->Ok_0.net == node.net,
        r is Ok ==> (r->Ok_0.allow_hot_build <==> node.config.snapshot_mode
            == SnapshotMode::Disabled),
        r is Ok ==> (r->Ok_0.build_on_trigger <==> node.config.role == NodeRole::Standby
            && node.config.snapshot_mode == SnapshotMode::StandbyOffload),
        r is Ok ==> !(r->Ok_0.build_on_trigger && r->Ok_0.allow_hot_build),
        r is Err ==> r->Err_0 is Other,
{
}

/// A group that was set up is there, and nothing is known of it yet; one that failed is not. Other
/// groups are not touched either way. A group that is there is not set up again.
pub proof fn law_a_group_is_set_up_once(
    node: &mut MultiRaft,
    group: GroupId,
    reply: SpawnReply,
    r: Result<(), MultiRaftError>,
    after: &MultiRaft,
    members: &[NodeId],
    step: CreateStep,
    other: GroupId,
)
    requires
        old(node).view_of(group) is None,
        call_ensures(MultiRaft::group_spawned, (node, group, reply), r),
        *after == *final(node),
        call_ensures(MultiRaft::create_group, (after, group, members), Ok(step)),
        other != group,
    ensures
        r is Ok <==> reply is Running,
        step == CreateStep::Present <==> reply is Running,
        step == CreateStep::Spawn <==> !(reply is Running),
        final(node).view_of(group) is Some <==> reply is Running,
        reply is Running ==> {
            let v = final(node).view_of(group)->Some_0;
            v.leader is None && !v.is_leader && v.voters@.len() == 0 && v.learners@.len() == 0
                && v.applied is None
        },
        final(node).view_of(other) == old(node).view_of(other),
        final(node).config == old(node).config,
        final(node).node_id == old(node).node_id,
        final(node).snapshot_rt == old(node).snapshot_rt,
{
    broadcast use vstd::set::group_set_axioms;

    if old(node).groups@.contains_key(other) {
        assert(final(node).groups@.dom().contains(other) <==> old(node).groups@.dom().contains(
            other,
        ));
        assert(final(node).groups@[other] == old(node).groups@[other]);
    } else {
        assert(!old(node).groups@.dom().contains(other));
        assert(!final(node).groups@.dom().contains(other));
    }
    assert(final(node).groups@.dom().contains(group) <==> reply is Running);
}

/// A group can be created where it has members, and a voter is one of them.
pub proof fn law_voters_create_only_their_groups(
    node: &MultiRaft,
    group: GroupId,
    members: &[NodeId],
    r: Result<CreateStep, MultiRaftError>,
)
    requires
        call_ensures(MultiRaft::create_group, (node, group, members), r),
    ensures
        r is Ok <==> members@.len() > 0 && (node.config.role == NodeRole::Standby
            || members@.contains(node.node_id)),
        r is Err ==> r->Err_0 is Other,
{
}

/// Of the nodes of a process one sets a group's membership up: once it has, none of the others does.
pub proof fn law_one_node_sets_the_membership_up(
    a: &MultiRaft,
    b: &MultiRaft,
    glue: &mut ClusterGlue,
    later: &mut ClusterGlue,
    group: GroupId,
    members: &[NodeId],
    first: JoinStep,
    second: JoinStep,
)
    requires
        a.net == NetBackend::InProcess,
        b.net == NetBackend::InProcess,
        call_ensures(MultiRaft::join_group, (a, glue, group, members), first),
        *old(later) == *final(glue),
        call_ensures(MultiRaft::join_group, (b, later, group, members), second),
        first is Initialize,
    ensures
        second is Done,
        a.config.role == NodeRole::Voter,
{
}

/// Where no node has claimed a group yet, the voter that is the last of its members to have it sets
/// the membership up; before that none does. A standby never does, and over gRPC every voter tries.
pub proof fn law_last_member_sets_the_membership_up(
    node: &MultiRaft,
    glue: &mut ClusterGlue,
    group: GroupId,
    members: &[NodeId],
    r: JoinStep,
)
    requires
        call_ensures(MultiRaft::join_group, (node, glue, group, members), r),
        !old(glue).claimed().contains(group),
    ensures
        node.config.role == NodeRole::Standby ==> r is Done,
        node.config.role == NodeRole::Voter && node.net == NetBackend::Grpc ==> r is Initialize,
        node.config.role == NodeRole::Voter && node.net == NetBackend::InProcess ==> (
        r is Initialize <==> forall|i: int|
            0 <= i < members@.len() ==> (#[trigger] members@[i]) == node.node_id || old(glue).ready(
                group,
            ).contains(members@[i])),
        node.config.role == NodeRole::Voter && node.net == NetBackend::InProcess
            ==> final(glue).ready(group).contains(node.node_id),
        forall|g: GroupId| g != group ==> #[trigger] final(glue).ready(g) == old(glue).ready(g),
{
    let ready = old(glue).ready(group).insert(node.node_id);
    if forall|i: int| 0 <= i < members@.len() ==> ready.contains(#[trigger] members@[i]) {
        assert forall|i: int| 0 <= i < members@.len() implies (#[trigger] members@[i])
            == node.node_id || old(glue).ready(group).contains(members@[i]) by {
            assert(ready.contains(members@[i]));
        }
    }
    if forall|i: int|
        0 <= i < members@.len() ==> (#[trigger] members@[i]) == node.node_id || old(glue).ready(
            group,
        ).contains(members@[i]) {
        assert forall|i: int| 0 <= i < members@.len() implies ready.contains(
            #[trigger] members@[i],
        ) by {
            assert(members@[i] == node.node_id || old(glue).ready(group).contains(members@[i]));
        }
    }
}

/// The membership holds the members and no other node, each with the address under which the
/// configuration first names it.
pub proof fn law_membership_is_of_the_members(
    node: &MultiRaft,
    members: &[NodeId],
    nodes: BTreeMap<NodeId, String>,
    id: NodeId,
    p: int,
)
    requires
        call_ensures(MultiRaft::membership_nodes, (node, members), nodes),
    ensures
        nodes@.contains_key(id) <==> members@.contains(id),
        members@.contains(id) && 0 <= p < node.config.peers@.len() && node.config.peers@[p].0 == id
            && (forall|i: int| 0 <= i < p ==> (#[trigger] node.config.peers@[i]).0 != id)
            ==> nodes@[id]@ == node.config.peers@[p].1@,
        members@.contains(id) && (forall|i: int|
            0 <= i < node.config.peers@.len() ==> (#[trigger] node.config.peers@[i]).0 != id)
            ==> nodes@[id]@.len() == 0,
{
    lemma_addr_of(node.config.peers@, id, p);
}

/// The first peer with an id gives the address, and where there is none there is no address.
proof fn lemma_addr_of(peers: Seq<(NodeId, String)>, id: NodeId, p: int)
    ensures
        0 <= p < peers.len() && peers[p].0 == id && (forall|i: int|
            0 <= i < p ==> (#[trigger] peers[i]).0 != id) ==> multiraft::addr_of(peers, id) == Some(
            peers[p].1@,
        ),
        (forall|i: int| 0 <= i < peers.len() ==> (#[trigger] peers[i]).0 != id)
            ==> multiraft::addr_of(peers, id) is None,
        multiraft::addr_of(peers, id) is Some ==> exists|i: int|
            0 <= i < peers.len() && (#[trigger] peers[i]).0 == id,
    decreases peers.len(),
{
    if peers.len() > 0 {
        let rest = peers.drop_first();
        lemma_addr_of(rest, id, p - 1);
        assert forall|i: int| 0 <= i < rest.len() implies #[trigger] rest[i] == peers[i + 1] by {}
        if exists|i: int| 0 <= i < rest.len() && (#[trigger] rest[i]).0 == id {
            let i = choose|i: int| 0 <= i < rest.len() && (#[trigger] rest[i]).0 == id;
            assert(peers[i + 1].0 == id);
        }
        if 0 < p < peers.len() && peers[p].0 == id && (forall|i: int|
            0 <= i < p ==> (#[trigger] peers[i]).0 != id) {
            assert(peers[0].0 != id);
            assert(rest[p - 1] == peers[p]);
            assert forall|i: int| 0 <= i < p - 1 implies (#[trigger] rest[i]).0 != id by {
                assert(peers[i + 1].0 != id);
            }
        }
        if forall|i: int| 0 <= i < peers.len() ==> (#[trigger] peers[i]).0 != id {
            assert(peers[0].0 != id);
            assert forall|i: int| 0 <= i < rest.len() implies (#[trigger] rest[i]).0 != id by {
                assert(peers[i + 1].0 != id);
            }
        }
    }
}

/// That a membership was set up before is no failure; any other is.
pub proof fn law_only_failures_of_setup_are_errors(
    reply: InitReply,
    r: Result<(), MultiRaftError>,
)
    requires
        call_ensures(MultiRaft::initialized, (reply,), r),
    ensures
        r is Err <==> reply is Failed,
        r is Err ==> r->Err_0 is Other && r->Err_0->Other_0@.len() >= reply->Failed_0@.len()
            && r->Err_0->Other_0@.skip(r->Err_0->Other_0@.len() - reply->Failed_0@.len())
            == reply->Failed_0@,
{
    if reply is Failed {
        let m = reply->Failed_0@;
        let t = "initialize group: "@ + m;
        assert(t.skip(t.len() - m.len()) =~= m);
    }
}

/// A node that is started has no group; it is reached through its channel, and counts as one link.
/// It keeps the advertisements on its disk exactly where it has one. Where standbys build snapshots
/// it has a catalog below its data directory, which keeps at least one snapshot and as many as
/// configured; so a started standby with a data directory never lacks one.
pub proof fn law_started_node(
    config: ClusterConfig,
    tx: u64,
    kept: Vec<SnapshotAdvertisement>,
    r: (SharedFabric, MultiRaft),
    router: &Router,
    sent: Result<u64, RouterError>,
    group: GroupId,
)
    requires
        call_ensures(MultiRaft::start, (config, tx, kept), r),
        *router == r.0.router,
        call_ensures(Router::send_call, (router, config.node_id), sent),
    ensures
        sent == Ok::<u64, RouterError>(tx),
        r.1.node_id == config.node_id,
        r.1.config == config,
        r.1.net == NetBackend::InProcess,
        r.1.view_of(group) is None,
        r.0.router.links().len() == 1,
        config.data_dir@.len() > 0 ==> r.1.snapshot_rt.ads@ == kept@,
        config.data_dir@.len() == 0 ==> r.1.snapshot_rt.ads@.len() == 0,
        config.data_dir@.len() == 0 ==> r.1.snapshot_rt.catalog is None,
        config.snapshot_mode == SnapshotMode::Disabled ==> r.1.snapshot_rt.catalog is None,
        config.data_dir@.len() > 0 && config.snapshot_mode == SnapshotMode::StandbyOffload ==> {
            &&& r.1.snapshot_rt.catalog is Some
            &&& r.1.snapshot_rt.catalog->Some_0.spec_keep() >= 1
            &&& r.1.snapshot_rt.catalog->Some_0.spec_keep() >= config.snapshot_keep
            &&& config.snapshot_keep >= 1 ==> r.1.snapshot_rt.catalog->Some_0.spec_keep()
                == config.snapshot_keep
            &&& r.1.snapshot_rt.catalog->Some_0.spec_root().take(config.data_dir@.len() as int)
                == config.data_dir@
        },
        config.admin_advertise_addr is Some <==> r.1.snapshot_rt.admin_advertise_addr is Some,
        config.admin_advertise_addr is Some ==> r.1.snapshot_rt.admin_advertise_addr->Some_0@
            == config.admin_advertise_addr->Some_0@,
        r.1.snapshot_rt.data_dir@ == config.data_dir@,
        forall|id: NodeId| #[trigger]
            r.0.router.throttle.ids().contains(id) <==> config.standby_node_ids@.contains(id),
        r.0.router.throttle.delay() == config.standby_replicate_delay_ms,
        config.standby_max_inflight > 0 ==> r.0.router.throttle.limit()
            == config.standby_max_inflight,
        config.standby_max_inflight == 0 ==> r.0.router.throttle.limit() == 8,
{
    let d = config.data_dir@;
    if r.1.snapshot_rt.catalog is Some {
        assert(r.1.snapshot_rt.catalog->Some_0.spec_root().take(d.len() as int) =~= d);
    }
    assert(r.0.router.links() =~= set![config.node_id]);
    assert forall|id: NodeId| #[trigger]
        r.0.router.throttle.ids().contains(id) <==> config.standby_node_ids@.contains(id) by {
        assert(config.standby_node_ids@.to_set().contains(id) <==> config.standby_node_ids@.contains(
            id,
        ));
    }
}

/// A node that is started in a fabric joins those that are there: they keep their channels, and
/// their standbys stay throttled.
pub proof fn law_starting_a_node_adds_it(
    fabric: &mut SharedFabric,
    config: ClusterConfig,
    tx: u64,
    kept: Vec<SnapshotAdvertisement>,
    node: MultiRaft,
    id: NodeId,
)
    requires
        old(fabric).wf(),
        call_ensures(SharedFabric::start_node, (fabric, config, tx, kept), node),
    ensures
        final(fabric).wf(),
        node.node_id == config.node_id,
        node.net == NetBackend::InProcess,
        node.config == config,
        final(fabric).router.channels().contains_key(config.node_id),
        final(fabric).router.channels()[config.node_id] == tx,
        id != config.node_id && old(fabric).router.channels().contains_key(id)
            ==> final(fabric).router.channels().contains_key(id)
            && final(fabric).router.channels()[id] == old(
            fabric,
        ).router.channels()[id],
        old(fabric).router.links().contains(id) ==> final(fabric).router.links().contains(id),
        final(fabric).router.links().contains(id) ==> old(fabric).router.links().contains(id) || id
            == config.node_id,
        old(fabric).router.throttle.ids().contains(id)
            ==> final(fabric).router.throttle.ids().contains(id),
        config.standby_node_ids@.contains(id) ==> final(fabric).router.throttle.ids().contains(id),
        final(fabric).router.throttle.ids().contains(id) ==> old(
            fabric,
        ).router.throttle.ids().contains(id) || config.standby_node_ids@.contains(id),
        final(fabric).glue == old(fabric).glue,
{
    assert(config.standby_node_ids@.to_set().contains(id) <==> config.standby_node_ids@.contains(
        id,
    ));
}

/// The nodes of a cluster are those that were asked for, in order, and the channel of each is the
/// one it was given last.
pub proof fn law_cluster_has_its_nodes(
    seeds: Vec<(ClusterConfig, u64, Vec<SnapshotAdvertisement>)>,
    r: (SharedFabric, Vec<MultiRaft>),
    i: int,
)
    requires
        call_ensures(MultiRaft::start_cluster, (seeds,), r),
        0 <= i < seeds@.len(),
    ensures
        r.1@.len() == seeds@.len(),
        r.1@[i].node_id == seeds@[i].0.node_id,
        r.1@[i].config == seeds@[i].0,
        r.1@[i].net == NetBackend::InProcess,
        r.0.router.links().contains(seeds@[i].0.node_id),
        (forall|j: int| i < j < seeds@.len() ==> (#[trigger] seeds@[j]).0.node_id
            != seeds@[i].0.node_id) ==> r.0.router.channels().contains_key(seeds@[i].0.node_id)
            && r.0.router.channels()[seeds@[i].0.node_id] == seeds@[i].1,
        multiraft::ids_differ(seeds@) ==> r.0.router.links().len() == seeds@.len(),
        forall|id: NodeId| #[trigger]
            seeds@[i].0.standby_node_ids@.contains(id) ==> r.0.router.throttle.ids().contains(id),
{
    multiraft::law_links_grow_with_nodes(seeds@);
    assert(multiraft::is_seeded(seeds@, seeds@[i].0.node_id));
    lemma_seeded_channel(seeds@, i);
    assert forall|id: NodeId| #[trigger]
        seeds@[i].0.standby_node_ids@.contains(id) implies r.0.router.throttle.ids().contains(
        id,
    ) by {
        lemma_seeded_standby(seeds@, i, id);
    }
}

proof fn lemma_seeded_channel(
    seeds: Seq<(ClusterConfig, u64, Vec<SnapshotAdvertisement>)>,
    i: int,
)
    requires
        0 <= i < seeds.len(),
    ensures
        (forall|j: int| i < j < seeds.len() ==> (#[trigger] seeds[j]).0.node_id
            != seeds[i].0.node_id) ==> multiraft::seeded_channels(seeds).contains_key(
            seeds[i].0.node_id,
        ) && multiraft::seeded_channels(seeds)[seeds[i].0.node_id] == seeds[i].1,
    decreases seeds.len(),
{
    if i < seeds.len() - 1 && (forall|j: int| i < j < seeds.len() ==> (
    #[trigger] seeds[j]).0.node_id != seeds[i].0.node_id) {
        let init = seeds.drop_last();
        assert forall|j: int| i < j < init.len() implies (#[trigger] init[j]).0.node_id
            != init[i].0.node_id by {
            assert(seeds[j].0.node_id != seeds[i].0.node_id);
        }
        lemma_seeded_channel(init, i);
        assert(seeds[seeds.len() - 1].0.node_id != seeds[i].0.node_id);
    }
}

proof fn lemma_seeded_standby(
    seeds: Seq<(ClusterConfig, u64, Vec<SnapshotAdvertisement>)>,
    i: int,
    id: NodeId,
)
    requires
        0 <= i < seeds.len(),
        seeds[i].0.standby_node_ids@.contains(id),
    ensures
        multiraft::seeded_standbys(seeds).contains(id),
    decreases seeds.len(),
{
    if i < seeds.len() - 1 {
        lemma_seeded_standby(seeds.drop_last(), i, id);
    } else {
        assert(seeds.last().0.standby_node_ids@.to_set().contains(id));
    }
}

/// A node over gRPC binds the address under which the configuration first names it; it starts
/// exactly where there is one.
pub proof fn law_grpc_node_binds_its_address(
    config: ClusterConfig,
    kept: Vec<SnapshotAdvertisement>,
    r: Result<(String, StandbyThrottle, MultiRaft), MultiRaftError>,
    p: int,
)
    requires
        call_ensures(MultiRaft::start_grpc, (config, kept), r),
    ensures
        r is Ok <==> exists|i: int|
            0 <= i < config.peers@.len() && (#[trigger] config.peers@[i]).0 == config.node_id,
        r is Ok && 0 <= p < config.peers@.len() && config.peers@[p].0 == config.node_id && (forall|
            i: int,
        |
            0 <= i < p ==> (#[trigger] config.peers@[i]).0 != config.node_id) ==> r->Ok_0.0@
            == config.peers@[p].1@,
        r is Ok ==> r->Ok_0.2.node_id == config.node_id && r->Ok_0.2.net == NetBackend::Grpc
            && r->Ok_0.2.config == config,
        r is Ok ==> forall|id: NodeId| #[trigger]
            r->Ok_0.1.ids().contains(id) <==> config.standby_node_ids@.contains(id),
        r is Ok ==> r->Ok_0.1.delay() == config.standby_replicate_delay_ms,
{
    lemma_addr_of(config.peers@, config.node_id, p);
    if exists|i: int|
        0 <= i < config.peers@.len() && (#[trigger] config.peers@[i]).0 == config.node_id {
        let i = choose|i: int|
            0 <= i < config.peers@.len() && (#[trigger] config.peers@[i]).0 == config.node_id;
        lemma_first_peer(config.peers@, config.node_id, i);
    }
    if r is Ok {
        assert forall|id: NodeId| #[trigger]
            r->Ok_0.1.ids().contains(id) <==> config.standby_node_ids@.contains(id) by {
            assert(config.standby_node_ids@.to_set().contains(id)
                <==> config.standby_node_ids@.contains(id));
        }
    }
}

/// A peer with the id means that there is an address for it.
proof fn lemma_first_peer(peers: Seq<(NodeId, String)>, id: NodeId, i: int)
    requires
        0 <= i < peers.len(),
        peers[i].0 == id,
    ensures
        multiraft::addr_of(peers, id) is Some,
    decreases peers.len(),
{
    if peers[0].0 != id {
        assert(peers.drop_first()[i - 1] == peers[i]);
        lemma_first_peer(peers.drop_first(), id, i - 1);
    }
}

/// What Raft reports of a group is what is then read of it: leader, voters, learners and how far it
/// has come. Reports on a group that the node does not have change nothing, and other groups keep
/// what was known of them.
pub proof fn law_reports_are_read_back(
    node: &mut MultiRaft,
    group: GroupId,
    view: GroupView,
    after: &MultiRaft,
    leads: bool,
    leader: Option<NodeId>,
    voters: Option<&BTreeSet<NodeId>>,
    learners: Option<&BTreeSet<NodeId>>,
    applied: Option<(u64, u64)>,
    other: GroupId,
)
    requires
        call_ensures(MultiRaft::observe, (node, group, view), ()),
        *after == *final(node),
        call_ensures(MultiRaft::is_leader, (after, group), leads),
        call_ensures(MultiRaft::leader, (after, group), leader),
        call_ensures(MultiRaft::voter_ids, (after, group), voters),
        call_ensures(MultiRaft::learner_ids, (after, group), learners),
        call_ensures(MultiRaft::local_applied, (after, group), applied),
        other != group,
    ensures
        old(node).view_of(group) is Some ==> {
            &&& leads == view.is_leader
            &&& leader == view.leader
            &&& voters is Some && voters->Some_0@ == view.voters@
            &&& learners is Some && learners->Some_0@ == view.learners@
            &&& applied == view.applied
        },
        old(node).view_of(group) is None
            ==> final(node).groups@ == old(node).groups@ && !leads && leader is None
            && voters is None && learners is None && applied is None,
        final(node).view_of(other) == old(node).view_of(other),
        final(node).config == old(node).config,
        final(node).snapshot_rt == old(node).snapshot_rt,
{
}

/// A node that shuts down has no group any more, and within a process it is not connected any more;
/// all other nodes are. A group that does not shut down leaves everything as it was.
pub proof fn law_shutdown_disconnects_the_node(
    node: &mut MultiRaft,
    router: &mut Router,
    failed: Option<String>,
    r: Result<(), MultiRaftError>,
    group: GroupId,
    other: NodeId,
)
    requires
        old(router).wf(),
        call_ensures(MultiRaft::shutdown, (node, router, failed), r),
        other != old(node).node_id,
    ensures
        r is Ok <==> failed is None,
        r is Ok ==> final(node).view_of(group) is None,
        r is Ok && old(node).net == NetBackend::InProcess
            ==> !final(router).channels().contains_key(old(node).node_id),
        final(router).channels().contains_key(other) <==> old(router).channels().contains_key(other),
        final(router).channels().contains_key(other) ==> final(router).channels()[other] == old(
            router,
        ).channels()[other],
        final(router).links() == old(router).links(),
        r is Err ==> *final(node) == *old(node),
        final(node).config == old(node).config,
        final(node).snapshot_rt == old(node).snapshot_rt,
{
}

/// A leader is passed on when it is first seen and whenever it changes, and not in between.
pub proof fn law_leader_changes_are_passed_on(
    watch: LeaderWatch,
    one: &mut LeaderWatch,
    two: &mut LeaderWatch,
    a: Option<NodeId>,
    b: Option<NodeId>,
    first: bool,
    second: bool,
)
    requires
        call_ensures(LeaderWatch::new, (), watch),
        *old(one) == watch,
        call_ensures(LeaderWatch::observe, (one, a), first),
        *old(two) == *final(one),
        call_ensures(LeaderWatch::observe, (two, b), second),
    ensures
        first,
        second <==> a != b,
{
}

/// The leader that is seen is the first that a node reports, and only where some node leads.
pub proof fn law_leader_is_seen_once_one_leads(
    seen: &Vec<(Option<NodeId>, bool)>,
    r: Option<NodeId>,
    i: int,
    l: int,
)
    requires
        call_ensures(leader_seen, (seen,), r),
        0 <= i < seen@.len(),
        forall|j: int| 0 <= j < i ==> (#[trigger] seen@[j]).0 is None,
    ensures
        0 <= l < seen@.len() && seen@[l].1 && seen@[i].0 is Some ==> r == seen@[i].0,
        seen@[i].0 is None && i == seen@.len() - 1 ==> r is None,
        (forall|j: int| 0 <= j < seen@.len() ==> !(#[trigger] seen@[j]).1) ==> r is None,
{
    lemma_agreed_leader(seen@, i);
    if 0 <= l < seen@.len() && seen@[l].1 {
        assert(multiraft::some_leads(seen@));
    }
}

proof fn lemma_agreed_leader(seen: Seq<(Option<NodeId>, bool)>, i: int)
    requires
        0 <= i < seen.len(),
        forall|j: int| 0 <= j < i ==> (#[trigger] seen[j]).0 is None,
    ensures
        seen[i].0 is Some ==> multiraft::agreed_leader(seen) == seen[i].0,
        seen[i].0 is None && i == seen.len() - 1 ==> multiraft::agreed_leader(seen) is None,
    decreases i,
{
    if i > 0 {
        let rest = seen.drop_first();
        assert(seen[0].0 is None);
        assert forall|j: int| 0 <= j < i - 1 implies (#[trigger] rest[j]).0 is None by {
            assert(rest[j] == seen[j + 1]);
        }
        lemma_agreed_leader(rest, i - 1);
    } else if seen.len() == 1 {
        reveal_with_fuel(multiraft::agreed_leader, 2);
        assert(seen.drop_first().len() == 0);
    }
}

/// Waiting for a recovery ends well exactly where the node has the group and its Raft has recovered.
pub proof fn law_recovery_is_waited_for(
    node: &MultiRaft,
    group: GroupId,
    reply: Result<(), String>,
    r: Result<(), MultiRaftError>,
)
    requires
        call_ensures(MultiRaft::wait_for_recovery, (node, group, reply), r),
    ensures
        r is Ok <==> node.groups@.contains_key(group) && reply is Ok,
        !node.groups@.contains_key(group) ==> r->Err_0 == MultiRaftError::UnknownGroup(group),
        node.groups@.contains_key(group) && reply is Err ==> r->Err_0 is Other
            && crate::request_laws::ends_with(r->Err_0->Other_0@, reply->Err_0@),
{
    if reply is Err {
        crate::request_laws::lemma_ends_with("wait_for_recovery: "@, reply->Err_0@);
    }
}

/// A node tells of itself what it was configured with, of its links what its network has, and of its
/// groups what their Raft reported.
pub proof fn law_node_tells_of_itself(
    node: &MultiRaft,
    id: NodeId,
    stale: bool,
    catalog: Option<&SnapshotCatalog>,
    ads: &Vec<SnapshotAdvertisement>,
    router: &Router,
    grpc_links: usize,
    links: usize,
    router_links: usize,
    group: GroupId,
    view: Result<&GroupView, MultiRaftError>,
    throttle: &StandbyThrottle,
    ids: &std::collections::HashSet<NodeId>,
    other: NodeId,
    throttled: bool,
)
    requires
        call_ensures(MultiRaft::node_id, (node,), id),
        call_ensures(MultiRaft::stale_queries_enabled, (node,), stale),
        call_ensures(MultiRaft::snapshot_catalog, (node,), catalog),
        call_ensures(MultiRaft::snapshot_ads, (node,), ads),
        call_ensures(MultiRaft::unique_peer_links, (node, router, grpc_links), links),
        call_ensures(Router::unique_peer_links, (router,), router_links),
        call_ensures(MultiRaft::raft, (node, group), view),
        call_ensures(MultiRaft::standby_throttle_ids, (node, throttle), ids),
        call_ensures(StandbyThrottle::contains, (throttle, other), throttled),
    ensures
        id == node.node_id,
        stale == node.config.enable_stale_queries,
        catalog is Some <==> node.snapshot_rt.catalog is Some,
        catalog is Some ==> *catalog->Some_0 == node.snapshot_rt.catalog->Some_0,
        ads@ == node.snapshot_rt.ads@,
        node.net == NetBackend::InProcess ==> links == router_links,
        node.net == NetBackend::Grpc ==> links == grpc_links,
        view is Ok <==> node.groups@.contains_key(group),
        view is Ok ==> *view->Ok_0 == node.groups@[group],
        view is Err ==> view->Err_0 == MultiRaftError::UnknownGroup(group),
        throttled <==> ids@.contains(other),
{
}

/// In a test configuration every node has the address of its id, so that different nodes have
/// different ones; nothing that is optional is switched on.
pub proof fn law_test_nodes_have_their_addresses(
    node_id: NodeId,
    peer_ids: &[NodeId],
    r: ClusterConfig,
    i: int,
    j: int,
)
    requires
        forall|k: int| 0 <= k < peer_ids@.len() ==> #[trigger] peer_ids@[k] <= 46535,
        call_ensures(ClusterConfig::for_test, (node_id, peer_ids), r),
        0 <= i < peer_ids@.len(),
        0 <= j < peer_ids@.len(),
    ensures
        r.node_id == node_id,
        r.peers@.len() == peer_ids@.len(),
        r.peers@[i].0 == peer_ids@[i],
        peer_ids@[i] != peer_ids@[j] ==> r.peers@[i].1@ != r.peers@[j].1@,
        r.peers@[i].1@ == "127.0.0.1:"@ + text::decimal((19000 + peer_ids@[i]) as nat),
        r.heartbeat_interval_ms < r.election_timeout_min_ms < r.election_timeout_max_ms,
        r.role == NodeRole::Voter,
        r.data_dir@.len() == 0,
        !r.enable_stale_queries,
        r.standby_node_ids@.len() == 0,
        r.daisy_upstream_base is None,
        r.admin_advertise_addr is None,
        r.transition_poll_interval_ms == 0,
        r.file_log_sync_level == FileLogSyncLevel::Os,
        r.heartbeat_interval_ms == 100,
        r.election_timeout_min_ms == 300,
        r.election_timeout_max_ms == 600,
        r.snapshot_mode == SnapshotMode::Disabled,
        r.snapshot_keep == 2,
        r.standby_max_inflight == 8,
        r.standby_replicate_delay_ms == 0,
        r.snapshot_fetch_chunk_bytes == 65536,
        r.daisy_sync_interval_ms == 2000,
        r.file_log_coalesce_us == 0,
        r.file_log_stream_buf_bytes == 0,
        r.file_log_stream_flush_ms == 0,
        !r.file_log_hold_overlap,
        r.api_batch_linger_ms == 0,
        r.api_batch_capacity == 0,
        r.max_append_entries == 0,
        r.max_payload_entries == 0,
{
    assert(r.peers@[i].0 == peer_ids@[i]);
    assert(r.peers@[j].0 == peer_ids@[j]);
    let head = "127.0.0.1:"@;
    let a = text::decimal((19000 + peer_ids@[i]) as nat);
    let b = text::decimal((19000 + peer_ids@[j]) as nat);
    if r.peers@[i].1@ == r.peers@[j].1@ {
        assert((head + a).skip(head.len() as int) =~= a);
        assert((head + b).skip(head.len() as int) =~= b);
        text::lemma_decimal_injective(
            (19000 + peer_ids@[i]) as nat,
            (19000 + peer_ids@[j]) as nat,
        );
    }
}

/// A node that sets a membership up does so with all of the members and no one else, each under the
/// address that the node has for it.
pub proof fn law_membership_is_set_up_with_the_members(
    node: &MultiRaft,
    glue: &mut ClusterGlue,
    group: GroupId,
    members: &[NodeId],
    nodes: BTreeMap<NodeId, String>,
    id: NodeId,
    addr: String,
    listed: bool,
)
    requires
        call_ensures(
            MultiRaft::join_group,
            (node, glue, group, members),
            JoinStep::Initialize(nodes),
        ),
        call_ensures(MultiRaft::peer_addr, (node, id), addr),
        call_ensures(group_setup::contains_id, (members, id), listed),
    ensures
        nodes@.contains_key(id) <==> members@.contains(id),
        listed <==> members@.contains(id),
        nodes@.contains_key(id) ==> nodes@[id]@ == addr@,
{
}

/// Unless it is said otherwise a node is a voter, voters take their own snapshots, the log is left to
/// the page cache, nothing is buffered, and nobody is throttled; a log without a hard state has
/// neither vote nor commit point nor purge point.
pub proof fn law_defaults_are_the_plain_ones(
    role: NodeRole,
    mode: SnapshotMode,
    level: FileLogSyncLevel,
    stream: FileLogStreamOptions,
    throttle: &StandbyThrottle,
    id: NodeId,
    throttled: bool,
    delay: u64,
    limit: u32,
    hard: HardState,
    router: &Router,
    reached: Result<u64, RouterError>,
    own: &StandbyThrottle,
    fabric: &SharedFabric,
    shared: &Router,
)
    requires
        call_ensures(<NodeRole as Default>::default, (), role),
        call_ensures(<SnapshotMode as Default>::default, (), mode),
        call_ensures(<FileLogSyncLevel as Default>::default, (), level),
        call_ensures(<FileLogStreamOptions as Default>::default, (), stream),
        call_ensures(<StandbyThrottle as Default>::default, (), *throttle),
        call_ensures(StandbyThrottle::contains, (throttle, id), throttled),
        call_ensures(StandbyThrottle::delay_ms, (throttle,), delay),
        call_ensures(StandbyThrottle::max_inflight, (throttle,), limit),
        call_ensures(<HardState as Default>::default, (), hard),
        call_ensures(Router::new, (), *router),
        call_ensures(Router::send_call, (router, id), reached),
        call_ensures(Router::throttle, (router,), own),
        call_ensures(SharedFabric::router, (fabric,), shared),
    ensures
        role == NodeRole::Voter,
        mode == SnapshotMode::Disabled,
        level == FileLogSyncLevel::Os,
        stream.stream_buf_bytes == 0,
        stream.stream_flush_ms == 0,
        !stream.hold_overlap,
        !throttled,
        delay == 0,
        limit == 8,
        hard.vote is None,
        hard.committed is None,
        hard.last_purged_log_id is None,
        reached is Err,
        *own == router.throttle,
        *shared == fabric.router,
{
}

/// The two nodes keep the same advertisements, below the same directory, under the same address, with
/// catalogs in the same place that keep as much.
pub open spec fn keeps_alike(a: SnapshotRuntime, b: SnapshotRuntime) -> bool {
    &&& a.ads@ == b.ads@
    &&& a.data_dir@ == b.data_dir@
    &&& a.admin_advertise_addr is Some <==> b.admin_advertise_addr is Some
    &&& a.admin_advertise_addr is Some ==> a.admin_advertise_addr->Some_0@
        == b.admin_advertise_addr->Some_0@
    &&& a.catalog is Some <==> b.catalog is Some
    &&& a.catalog is Some ==> a.catalog->Some_0.spec_root() == b.catalog->Some_0.spec_root()
        && a.catalog->Some_0.spec_keep() == b.catalog->Some_0.spec_keep()
}

/// However a node is started, it is the same node: alone, in a fabric with others, as one of a
/// cluster, or over gRPC.
pub proof fn law_nodes_start_alike(
    config: ClusterConfig,
    tx: u64,
    kept: Vec<SnapshotAdvertisement>,
    alone: (SharedFabric, MultiRaft),
    fabric: &mut SharedFabric,
    with_others: MultiRaft,
    seeds: Vec<(ClusterConfig, u64, Vec<SnapshotAdvertisement>)>,
    cluster: (SharedFabric, Vec<MultiRaft>),
    i: int,
    grpc: (String, StandbyThrottle, MultiRaft),
    c: &ClusterConfig,
    rt: SnapshotRuntime,
    group: GroupId,
)
    requires
        old(fabric).wf(),
        call_ensures(MultiRaft::start, (config, tx, kept), alone),
        call_ensures(SharedFabric::start_node, (fabric, config, tx, kept), with_others),
        call_ensures(MultiRaft::start_cluster, (seeds,), cluster),
        0 <= i < seeds@.len(),
        seeds@[i] == (config, tx, kept),
        call_ensures(MultiRaft::start_grpc, (config, kept), Ok(grpc)),
        *c == config,
        call_ensures(SnapshotRuntime::new, (c, kept), rt),
    ensures
        keeps_alike(alone.1.snapshot_rt, rt),
        keeps_alike(with_others.snapshot_rt, rt),
        keeps_alike(cluster.1@[i].snapshot_rt, rt),
        keeps_alike(grpc.2.snapshot_rt, rt),
        with_others.groups@ == alone.1.groups@,
        cluster.1@[i].groups@ == alone.1.groups@,
        grpc.2.groups@ == alone.1.groups@,
        !with_others.groups@.contains_key(group),
        cluster.1@[i].config == config,
        rt.catalog is Some ==> rt.catalog->Some_0.spec_root() == text::joined(
            config.data_dir@,
            "snapshots"@,
        ),
        alone.0.glue.ready(group) == Set::<NodeId>::empty(),
        !alone.0.glue.claimed().contains(group),
        cluster.0.glue.ready(group) == Set::<NodeId>::empty(),
        !cluster.0.glue.claimed().contains(group),
{
    assert(cluster.1@[i].is_started(seeds@[i].0, NetBackend::InProcess, seeds@[i].2));
    assert(alone.1.snapshot_rt.ads@ =~= rt.ads@);
    assert(with_others.snapshot_rt.ads@ =~= rt.ads@);
    assert(cluster.1@[i].snapshot_rt.ads@ =~= rt.ads@);
    assert(grpc.2.snapshot_rt.ads@ =~= rt.ads@);
}

/// The throttle of a fabric has the limits of the node that was started last, and that of a node over
/// gRPC its own; a new fabric throttles nobody and reaches nobody.
pub proof fn law_fabric_throttles_as_its_last_node(
    fabric: &mut SharedFabric,
    config: ClusterConfig,
    tx: u64,
    kept: Vec<SnapshotAdvertisement>,
    node: MultiRaft,
    seeds: Vec<(ClusterConfig, u64, Vec<SnapshotAdvertisement>)>,
    cluster: (SharedFabric, Vec<MultiRaft>),
    grpc: (String, StandbyThrottle, MultiRaft),
    throttle: StandbyThrottle,
    c: &ClusterConfig,
    fresh: SharedFabric,
    id: NodeId,
    group: GroupId,
)
    requires
        old(fabric).wf(),
        call_ensures(SharedFabric::start_node, (fabric, config, tx, kept), node),
        call_ensures(MultiRaft::start_cluster, (seeds,), cluster),
        seeds@.len() > 0,
        seeds@.last().0 == config,
        call_ensures(MultiRaft::start_grpc, (config, kept), Ok(grpc)),
        *c == config,
        call_ensures(StandbyThrottle::from_config, (c,), throttle),
        call_ensures(SharedFabric::new, (), fresh),
    ensures
        final(fabric).router.throttle.delay() == throttle.delay(),
        final(fabric).router.throttle.limit() == throttle.limit(),
        cluster.0.router.throttle.delay() == throttle.delay(),
        cluster.0.router.throttle.limit() == throttle.limit(),
        grpc.1.delay() == throttle.delay(),
        grpc.1.limit() == throttle.limit(),
        grpc.1.ids() == throttle.ids(),
        !fresh.router.channels().contains_key(id),
        !fresh.router.links().contains(id),
        !fresh.router.throttle.ids().contains(id),
        fresh.glue.ready(group) == Set::<NodeId>::empty(),
        !fresh.glue.claimed().contains(group),
{
}

} // verus!
