//! How failures are worded, with the numbers and names at fault.

use vstd::prelude::*;

use crate::config::ClusterConfig;
use crate::error::MultiRaftError;
use crate::group_setup::{CreateStep, GroupPlan, InitReply, SpawnReply};
use crate::membership::{change_outcome, ChangeReply, RoleStep};
use crate::multiraft::MultiRaft;
use crate::proposals::{ReadReply, StreamItem, WriteReply};
use crate::recovery;
use crate::recovery::{DaisyAction, DaisyEvent, DaisyMode, DaisyStage, PullError};
use crate::router::{CallKind, RaftReply, Router, RouterError, SendStatus, SendStep};
use crate::snapshot::SnapshotAdvertisement;
use crate::standby_throttle::StandbyThrottle;
use crate::text;
use crate::transition_loop::promote_standby_once;
use crate::type_config::{GroupId, NodeId};

verus! {

/// The error is told as `t`.
pub open spec fn says(e: MultiRaftError, t: Seq<char>) -> bool {
    e is Other && e->Other_0@ == t
}

/// A failed write is told as such, one of many by where it failed.
pub proof fn law_failed_writes_are_told(
    reply: WriteReply,
    one: MultiRaftError,
    why: String,
    items: &Vec<StreamItem>,
    refused: MultiRaftError,
    broken: MultiRaftError,
)
    requires
        reply is Failed,
        call_ensures(MultiRaft::client_write_one, (reply,), Err(one)),
        call_ensures(MultiRaft::many_outcome, (Some(why), items), Err(refused)),
        items@.len() > 0,
        items@[0] is Broken,
        call_ensures(MultiRaft::many_outcome, (None::<String>, items), Err(broken)),
    ensures
        says(one, "client_write: "@ + reply->Failed_0@),
        says(refused, "client_write_many: "@ + why@),
        says(broken, "client_write_many stream: "@ + items@[0]->Broken_0@),
{
    let k = choose|k: int| #[trigger]
        crate::proposals::first_not_applied(items@, k) && crate::proposals::is_fault_of(
            broken,
            items@[k],
        );
    if k > 0 {
        assert(items@[0] is Applied);
    }
}

/// A read that cannot be served is told with the reason, or with the group whose state machine is
/// missing.
pub proof fn law_failed_reads_are_told(
    node: &MultiRaft,
    group: GroupId,
    why: String,
    present: bool,
    failed: Result<(), MultiRaftError>,
    missing: Result<(), MultiRaftError>,
    waited: Result<(), MultiRaftError>,
)
    requires
        node.groups@.contains_key(group),
        call_ensures(
            MultiRaft::read_linearizable,
            (node, group, ReadReply::Failed(why), present),
            failed,
        ),
        call_ensures(
            MultiRaft::read_linearizable,
            (node, group, ReadReply::Confirmed, false),
            missing,
        ),
        call_ensures(MultiRaft::wait_for_recovery, (node, group, Err::<(), String>(why)), waited),
    ensures
        failed is Err && says(failed->Err_0, "ensure_linearizable: "@ + why@),
        missing is Err && says(
            missing->Err_0,
            "read_linearizable: fsm missing for group "@ + text::decimal(group as nat),
        ),
        waited is Err && says(waited->Err_0, "wait_for_recovery: "@ + why@),
{
}

/// A membership change that fails is told by its name, and whether it is to be tried again.
pub proof fn law_failed_changes_are_told(
    label: &str,
    why: String,
    r: Result<(), MultiRaftError>,
    node: &MultiRaft,
    a: &mut StandbyThrottle,
    b: &mut StandbyThrottle,
    c: &mut StandbyThrottle,
    d: &mut StandbyThrottle,
    id: NodeId,
    added: Result<(), MultiRaftError>,
    promoted: Result<(), MultiRaftError>,
    demoted: Result<(), MultiRaftError>,
    in_round: Result<(), MultiRaftError>,
)
    requires
        call_ensures(change_outcome, (label, ChangeReply::Failed(why)), r),
        call_ensures(
            MultiRaft::add_standby_once,
            (node, a, id, ChangeReply::Failed(why)),
            added,
        ),
        call_ensures(
            MultiRaft::promote_standby_once,
            (node, b, id, ChangeReply::Failed(why)),
            promoted,
        ),
        call_ensures(
            MultiRaft::demote_to_standby_once,
            (node, c, id, ChangeReply::Failed(why)),
            demoted,
        ),
        call_ensures(promote_standby_once, (d, id, ChangeReply::Failed(why)), in_round),
        !text::contains_text(why@, "configuration change"@),
    ensures
        r is Err && says(r->Err_0, label@ + ": "@ + why@),
        added is Err && says(added->Err_0, "add_learner: "@ + why@),
        promoted is Err && says(promoted->Err_0, "promote_standby change_membership: "@ + why@),
        demoted is Err && says(demoted->Err_0, "demote_to_standby change_membership: "@ + why@),
        in_round is Err && says(
            in_round->Err_0,
            "transition promote change_membership: "@ + why@,
        ),
{
    reveal_strlit(": ");
    reveal_strlit("add_learner");
    reveal_strlit("add_learner: ");
    assert("add_learner"@ + ": "@ =~= "add_learner: "@);
    reveal_strlit("promote_standby change_membership");
    reveal_strlit("promote_standby change_membership: ");
    assert("promote_standby change_membership"@ + ": "@ =~= "promote_standby change_membership: "@);
    reveal_strlit("demote_to_standby change_membership");
    reveal_strlit("demote_to_standby change_membership: ");
    assert("demote_to_standby change_membership"@ + ": "@
        =~= "demote_to_standby change_membership: "@);
}

/// One that met another change says that it is to be tried again once the membership settles.
pub proof fn law_pending_changes_are_told(
    label: &str,
    why: String,
    r: Result<(), MultiRaftError>,
)
    requires
        call_ensures(change_outcome, (label, ChangeReply::Failed(why)), r),
        text::contains_text(why@, "configuration change"@),
    ensures
        r is Err && says(
            r->Err_0,
            label@ + ": "@ + why@ + " (retry after membership settles)"@,
        ),
{
}

/// A node that cannot be promoted is told with its id and the group.
pub proof fn law_refused_promotion_is_told(
    node: &MultiRaft,
    throttle: &mut StandbyThrottle,
    group: GroupId,
    id: NodeId,
    r: Result<RoleStep, MultiRaftError>,
)
    requires
        call_ensures(MultiRaft::promote_standby, (node, throttle, group, id), r),
        node.groups@.contains_key(group),
        r is Err,
    ensures
        says(
            r->Err_0,
            "promote_standby: node "@ + text::decimal(id as nat) + " is not a learner in group "@
                + text::decimal(group as nat),
        ),
{
}

/// What goes wrong when a group is set up is told with what failed.
pub proof fn law_failed_setup_is_told(
    a: &mut MultiRaft,
    b: &mut MultiRaft,
    group: GroupId,
    why: String,
    log: Result<(), MultiRaftError>,
    raft: Result<(), MultiRaftError>,
    init: Result<(), MultiRaftError>,
    node: &MultiRaft,
    members: &[NodeId],
    created: Result<CreateStep, MultiRaftError>,
)
    requires
        call_ensures(MultiRaft::group_spawned, (a, group, SpawnReply::LogFailed(why)), log),
        call_ensures(MultiRaft::group_spawned, (b, group, SpawnReply::RaftFailed(why)), raft),
        call_ensures(MultiRaft::initialized, (InitReply::Failed(why),), init),
        call_ensures(MultiRaft::create_group, (node, group, members), created),
    ensures
        log is Err && says(log->Err_0, "open file log: "@ + why@),
        raft is Err && says(raft->Err_0, why@),
        init is Err && says(init->Err_0, "initialize group: "@ + why@),
        members@.len() == 0 ==> created is Err && says(
            created->Err_0,
            "create_group requires at least one member"@,
        ),
        members@.len() > 0 && created is Err ==> says(
            created->Err_0,
            "local node "@ + text::decimal(node.node_id as nat) + " is not in members ["@
                + text::number_list(members@) + "]"@,
        ),
{
}

/// A node over gRPC that is not among the peers is told with its id.
pub proof fn law_unnamed_node_is_told(
    config: ClusterConfig,
    kept: Vec<SnapshotAdvertisement>,
    e: MultiRaftError,
)
    requires
        call_ensures(MultiRaft::start_grpc, (config, kept), Err(e)),
    ensures
        says(
            e,
            "start_grpc: node "@ + text::decimal(config.node_id as nat)
                + " missing from config.peers"@,
        ),
{
}

/// A pull from upstream that fails is told with what it was doing.
pub proof fn law_failed_pulls_are_told(
    node: &mut MultiRaft,
    mode: DaisyMode,
    group: GroupId,
    stage: DaisyStage,
    event: DaisyEvent,
    r: (DaisyStage, DaisyAction),
    asking: &MultiRaft,
    asked: Result<String, MultiRaftError>,
)
    requires
        recovery::daisy_awaits(stage, event),
        call_ensures(MultiRaft::daisy_sync_once, (node, mode, group, stage, event), r),
        call_ensures(MultiRaft::sync_from_daisy_upstream, (asking, group), asked),
    ensures
        event is Written && event->Written_0 is Err ==> says(
            r.1->result->Err_0,
            "daisy catalog write: "@ + event->Written_0->Err_0@,
        ),
        event is Installed && event->Installed_0 is Err && mode == DaisyMode::Request ==> says(
            r.1->result->Err_0,
            "install_durable_snapshot: "@ + event->Installed_0->Err_0@,
        ),
        event is Installed && event->Installed_0 is Err && mode == DaisyMode::Round ==> says(
            r.1->result->Err_0,
            "daisy install: "@ + event->Installed_0->Err_0@,
        ),
        event is Fetched && r.1 is Return && r.1->result is Err && mode == DaisyMode::Request
            ==> says(
            r.1->result->Err_0,
            "sync_from_daisy_upstream: SnapshotCatalog required (StandbyOffload + data_dir)"@,
        ),
        event is Fetched && r.1 is Return && r.1->result is Err && mode == DaisyMode::Round
            ==> says(
            r.1->result->Err_0,
            "daisy sync: SnapshotCatalog required (StandbyOffload + data_dir)"@,
        ),
        asked is Err ==> says(
            asked->Err_0,
            "sync_from_daisy_upstream: daisy_upstream_base not set"@,
        ),
{
}

/// A snapshot that cannot be had from a standby's catalog is told with the reason.
pub proof fn law_failed_installs_are_told(
    why: String,
    latest: Result<crate::catalog::CatalogEntry, MultiRaftError>,
    none: Result<crate::catalog::CatalogEntry, MultiRaftError>,
    read: Result<Vec<u8>, MultiRaftError>,
    missing: Result<Vec<u8>, MultiRaftError>,
    node: &MultiRaft,
    group: GroupId,
    installed: Result<(), PullError>,
)
    requires
        call_ensures(
            MultiRaft::try_install_from_standby_catalog,
            (Err::<Option<crate::catalog::CatalogEntry>, String>(why),),
            latest,
        ),
        call_ensures(
            MultiRaft::try_install_from_standby_catalog,
            (Ok::<Option<crate::catalog::CatalogEntry>, String>(None),),
            none,
        ),
        call_ensures(
            MultiRaft::standby_catalog_data,
            (Err::<Option<Vec<u8>>, String>(why),),
            read,
        ),
        call_ensures(
            MultiRaft::standby_catalog_data,
            (Ok::<Option<Vec<u8>>, String>(None),),
            missing,
        ),
        node.groups@.contains_key(group),
        call_ensures(
            MultiRaft::install_durable_snapshot,
            (node, group, Err::<(), String>(why)),
            installed,
        ),
    ensures
        latest is Err && says(latest->Err_0, "catalog latest: "@ + why@),
        none is Err && says(none->Err_0, "no snapshot in standby catalog"@),
        read is Err && says(read->Err_0, "catalog read: "@ + why@),
        missing is Err && says(missing->Err_0, "snapshot data missing"@),
        installed is Err && installed->Err_0 is Failed && installed->Err_0->Failed_0@
            == "install_durable_snapshot: "@ + why@,
{
}

/// A call that does not get through is told with the node, or with what is wrong about its reply.
pub proof fn law_failed_calls_are_told<R>(
    router: &Router,
    to_node: NodeId,
    r: Result<u64, RouterError>,
    send: SendStep,
    kind: CallKind,
    missing: Result<R, RouterError>,
    other: CallKind,
    result: Result<R, String>,
    mismatch: Result<R, RouterError>,
    e: &RouterError,
    t: &str,
)
    requires
        call_ensures(Router::send_call, (router, to_node), r),
        call_ensures(Router::after_try_send, (SendStatus::Closed,), send),
        call_ensures(Router::unpack::<R>, (kind, RaftReply::<R>::MissingGroup), missing),
        other != kind,
        call_ensures(
            Router::unpack::<R>,
            (kind, RaftReply::<R>::Answer { kind: other, result }),
            mismatch,
        ),
        call_ensures(RouterError::message, (e,), t),
    ensures
        r is Err ==> r->Err_0.0@ == "node "@ + text::decimal(to_node as nat) + " not connected"@,
        send is Fail && send->Fail_0.0@ == "node channel closed"@,
        missing is Err && missing->Err_0.0@ == "missing group"@,
        mismatch is Err && mismatch->Err_0.0@ == "reply type mismatch"@,
        t@ == e.0@,
{
}

/// A node that does not shut down is told with the reason, and stays as it is.
pub proof fn law_failed_shutdown_is_told(
    node: &mut MultiRaft,
    router: &mut Router,
    why: String,
    r: Result<(), MultiRaftError>,
)
    requires
        call_ensures(MultiRaft::shutdown, (node, router, Some(why)), r),
    ensures
        r is Err && says(r->Err_0, "shutdown: "@ + why@),
        *final(node) == *old(node),
        *final(router) == *old(router),
{
}

/// Settings that Raft refuses are told with the numbers at fault, the election timeouts first; a
/// standby without a catalog is told what it needs.
pub proof fn law_refused_settings_are_told(
    node: &MultiRaft,
    group: GroupId,
    r: Result<GroupPlan, MultiRaftError>,
)
    requires
        call_ensures(MultiRaft::spawn_local_group, (node, group), r),
    ensures
        node.config.election_timeout_min_ms >= node.config.election_timeout_max_ms ==> r is Err
            && says(
            r->Err_0,
            "election timeout: min("@ + text::decimal(node.config.election_timeout_min_ms as nat)
                + ") must be < max("@ + text::decimal(node.config.election_timeout_max_ms as nat)
                + ")"@,
        ),
        node.config.election_timeout_min_ms < node.config.election_timeout_max_ms
            && node.config.election_timeout_min_ms <= node.config.heartbeat_interval_ms ==> r is Err
            && says(
            r->Err_0,
            "election_timeout_min("@ + text::decimal(node.config.election_timeout_min_ms as nat)
                + ") must be > heartbeat_interval("@ + text::decimal(
                node.config.heartbeat_interval_ms as nat,
            ) + ")"@,
        ),
        node.config.heartbeat_interval_ms < node.config.election_timeout_min_ms
            && node.config.election_timeout_min_ms < node.config.election_timeout_max_ms && r is Err
            ==> says(
            r->Err_0,
            "StandbyOffload Standby requires non-empty data_dir for SnapshotCatalog"@,
        ),
{
}

} // verus!
