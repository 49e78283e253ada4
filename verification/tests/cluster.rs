//! Nodes, groups, membership, recovery, proposals and the transition loop.

use std::collections::{BTreeMap, BTreeSet};

use multiraft::catalog::{CatalogEntry, DirItem, MetaFile, MetaFound};
use multiraft::cluster_glue::ClusterGlue;
use multiraft::config::{ClusterConfig, NodeRole, SnapshotMode};
use multiraft::duration::Duration;
use multiraft::error::MultiRaftError;
use multiraft::group_setup::{
    CreateStep, InitReply, JoinStep, LogPlan, SettingsError, SnapshotPolicy,
    SpawnReply,
};
use multiraft::membership::{
    membership_err_retryable, retry_on_membership_pending, ChangeReply, RetryStep, RoleStep,
    ThrottleWatch,
};
use multiraft::multiraft::{
    leader_seen, GroupView, LeaderWatch, MultiRaft, NetBackend, SharedFabric,
};
use multiraft::node::{
    after_hand_over, handle_node_message, reply_to, worker_for, DispatchStep, HandleStep,
};
use multiraft::plugin::{
    PluginContext, PluginRegistry, ProposeStage, TransitionAction, TransitionContext,
    TransitionPlugin, TransitionSnapshot,
};
use multiraft::plugin_metrics::SegmentedLatencyMetrics;
use multiraft::plugin_ops::premium_registry;
use multiraft::plugin_transition::LagPromotePolicy;
use multiraft::proposals::{ReadReply, StreamItem, WriteReply};
use multiraft::recovery::{
    log_pos_newer, DaisyAction, DaisyEvent, DaisyMode, DaisyStage, FetchedSnapshot, PullError,
    RecoverStep, TempDir,
};
use multiraft::router::{CallKind, RaftReply, Router, SendStatus, SendStep};
use multiraft::snapshot::{RecoverOutcome, SnapshotAdvertisement, STANDBY_SNAPSHOT_TRIGGER};
use multiraft::stage_metrics::{durations_for_index, record_openraft_stages, LogSegment};
use multiraft::standby_throttle::StandbyThrottle;
use multiraft::transition_loop::{
    ask_transition, candidates, promote_standby_once, spawn_transition_loop, transition_enabled,
};
use multiraft::type_config::LogId;

fn view(is_leader: bool, voters: &[u64], learners: &[u64], applied: Option<(u64, u64)>) -> GroupView {
    GroupView {
        leader: if is_leader { Some(1) } else { None },
        is_leader,
        voters: voters.iter().copied().collect(),
        learners: learners.iter().copied().collect(),
        applied,
    }
}

/// Node 1 of 1, 2, 3, with group 0 as `v`.
fn node(v: GroupView) -> MultiRaft {
    let config = ClusterConfig::for_test(1, &[1, 2, 3]);
    let (_, mut n) = MultiRaft::start(config, 77, Vec::new());
    n.group_spawned(0, SpawnReply::Running).unwrap();
    n.observe(0, v);
    n
}

fn offload(data_dir: &str, role: NodeRole) -> MultiRaft {
    let mut config = ClusterConfig::for_test(4, &[1, 2, 3, 4]);
    config.role = role;
    config.snapshot_mode = SnapshotMode::StandbyOffload;
    config.data_dir = data_dir.to_string();
    config.admin_advertise_addr = Some("127.0.0.1:21103".to_string());
    config.daisy_upstream_base = Some("http://up:1/".to_string());
    MultiRaft::start(config, 1, Vec::new()).1
}

fn text(e: MultiRaftError) -> String {
    match e {
        MultiRaftError::Other(m) => m,
        other => panic!("{other:?}"),
    }
}

#[test]
fn nodes_share_one_link_each() {
    let seeds = (1u64..=3)
        .map(|id| (ClusterConfig::for_test(id, &[1, 2, 3]), 10 + id, Vec::new()))
        .collect();
    let (mut fabric, mut nodes) = MultiRaft::start_cluster(seeds);
    assert_eq!(nodes.len(), 3);
    assert_eq!(nodes[2].node_id(), 3);
    assert_eq!(fabric.router().unique_peer_links(), 3);
    assert_eq!(fabric.router().send_call(2).unwrap(), 12);
    // Groups add no links.
    for group in 0..10 {
        nodes[0].group_spawned(group, SpawnReply::Running).unwrap();
    }
    assert_eq!(nodes[0].unique_peer_links(fabric.router(), 99), 3);
    // A node that shuts down is gone; a restart opens no new link.
    nodes[1].group_spawned(0, SpawnReply::Running).unwrap();
    assert!(nodes[1].shutdown(&mut fabric.router, None).is_ok());
    assert!(!fabric.router().has_node(2));
    assert_eq!(fabric.router().send_call(2).unwrap_err().message(), "node 2 not connected");
    assert!(nodes[1].raft(0).is_err());
    fabric.start_node(ClusterConfig::for_test(2, &[1, 2, 3]), 22, Vec::new());
    assert_eq!(fabric.router().unique_peer_links(), 3);
    assert_eq!(fabric.router().send_call(2).unwrap(), 22);
    // A group that does not shut down keeps the node as it is.
    let e = nodes[0].shutdown(&mut fabric.router, Some("stuck".to_string())).unwrap_err();
    assert_eq!(text(e), "shutdown: stuck");
    assert!(fabric.router().has_node(1));
    assert!(nodes[0].raft(0).is_ok());
}

#[test]
fn grpc_needs_an_own_address() {
    let config = ClusterConfig::for_test(2, &[1, 2]);
    let (addr, throttle, n) = MultiRaft::start_grpc(config, Vec::new()).unwrap();
    assert_eq!(addr, "127.0.0.1:19002");
    assert!(throttle.standby_ids().is_empty());
    assert_eq!(n.net, NetBackend::Grpc);
    assert_eq!(n.unique_peer_links(&Router::new(), 5), 5);
    let config = ClusterConfig::for_test(9, &[1, 2]);
    let e = MultiRaft::start_grpc(config, Vec::new()).unwrap_err();
    assert_eq!(text(e), "start_grpc: node 9 missing from config.peers");
}

#[test]
fn replies_are_unpacked() {
    assert!(matches!(Router::after_try_send(SendStatus::Sent), SendStep::AwaitReply));
    assert!(matches!(Router::after_try_send(SendStatus::Full), SendStep::AwaitRoom));
    match Router::after_try_send(SendStatus::Closed) {
        SendStep::Fail(e) => assert_eq!(e.message(), "node channel closed"),
        other => panic!("{other:?}"),
    }
    let ok: RaftReply<u8> = reply_to(CallKind::Vote, Ok(7));
    assert_eq!(Router::unpack(CallKind::Vote, ok).unwrap(), 7);
    let bad: RaftReply<u8> = reply_to(CallKind::Append, Err("fatal".to_string()));
    assert_eq!(Router::unpack(CallKind::Append, bad).unwrap_err().message(), "fatal");
    let other: RaftReply<u8> = reply_to(CallKind::Vote, Ok(7));
    assert_eq!(Router::unpack(CallKind::Append, other).unwrap_err().message(), "reply type mismatch");
    let none: RaftReply<u8> = RaftReply::MissingGroup;
    assert_eq!(Router::unpack(CallKind::Snapshot, none).unwrap_err().message(), "missing group");
}

#[test]
fn messages_go_to_the_workers() {
    assert_eq!(worker_for(0), 0);
    assert_eq!(worker_for(33), 1);
    assert_eq!(worker_for(u64::MAX), 31);
    assert!(matches!(after_hand_over(SendStatus::Sent), DispatchStep::Next));
    assert!(matches!(after_hand_over(SendStatus::Full), DispatchStep::AwaitRoom));
    assert!(matches!(after_hand_over(SendStatus::Closed), DispatchStep::Stop));
    let step: HandleStep<u8> = handle_node_message(true, CallKind::Transfer);
    assert!(matches!(step, HandleStep::Call(CallKind::Transfer)));
    let step: HandleStep<u8> = handle_node_message(false, CallKind::Transfer);
    assert!(matches!(step, HandleStep::Reply(RaftReply::MissingGroup)));
}

#[test]
fn membership_is_set_up_once() {
    let mut glue = ClusterGlue::new();
    assert!(!glue.mark_ready(0, 1, &[1, 2]));
    assert!(!glue.mark_ready(1, 2, &[1, 2]));
    assert!(glue.mark_ready(0, 2, &[1, 2]));
    assert!(glue.try_claim_init(0));
    assert!(!glue.try_claim_init(0));
    assert!(glue.try_claim_init(1));
}

#[test]
fn creating_groups() {
    let seeds = (1u64..=2)
        .map(|id| (ClusterConfig::for_test(id, &[1, 2]), id, Vec::new()))
        .collect();
    let (mut fabric, nodes) = MultiRaft::start_cluster(seeds);
    assert_eq!(nodes[0].create_group(0, &[1, 2]).unwrap(), CreateStep::Spawn);
    assert_eq!(
        text(nodes[0].create_group(0, &[]).unwrap_err()),
        "create_group requires at least one member"
    );
    assert_eq!(
        text(nodes[0].create_group(0, &[2, 3]).unwrap_err()),
        "local node 1 is not in members [2, 3]"
    );
    assert!(matches!(nodes[0].join_group(&mut fabric.glue, 0, &[1, 2]), JoinStep::Done));
    match nodes[1].join_group(&mut fabric.glue, 0, &[1, 2]) {
        JoinStep::Initialize(members) => {
            assert_eq!(members.get(&2).unwrap(), "127.0.0.1:19002");
            assert_eq!(members.len(), 2);
        }
        other => panic!("{other:?}"),
    }
    assert!(matches!(nodes[0].join_group(&mut fabric.glue, 0, &[1, 2]), JoinStep::Done));
    assert!(MultiRaft::initialized(InitReply::Done).is_ok());
    assert!(MultiRaft::initialized(InitReply::NotAllowed).is_ok());
    assert_eq!(
        text(MultiRaft::initialized(InitReply::Failed("x".to_string())).unwrap_err()),
        "initialize group: x"
    );
    // A standby may create a group that it is no member of, and does not set it up.
    let standby = offload("/d", NodeRole::Standby);
    assert_eq!(standby.create_group(0, &[1, 2, 3]).unwrap(), CreateStep::Spawn);
    assert!(matches!(standby.join_group(&mut fabric.glue, 5, &[1, 2, 3]), JoinStep::Done));
}

#[test]
fn groups_are_planned() {
    let n = node(view(true, &[1], &[], None));
    let plan = n.spawn_local_group(3).unwrap();
    assert_eq!(plan.settings.snapshot_policy, SnapshotPolicy::LogsSinceLast(5000));
    assert_eq!(plan.settings.max_payload_entries, 300);
    assert_eq!(plan.settings.api_batch_capacity, 4096);
    assert!(plan.allow_hot_build && !plan.build_on_trigger);
    assert!(matches!(plan.log, LogPlan::Memory));

    let mut n = offload("/d", NodeRole::Standby);
    n.config.max_payload_entries = 7;
    let plan = n.spawn_local_group(3).unwrap();
    assert_eq!(plan.settings.snapshot_policy, SnapshotPolicy::Never);
    assert_eq!(plan.settings.max_payload_entries, 7);
    assert!(!plan.allow_hot_build && plan.build_on_trigger);
    match plan.log {
        LogPlan::File { dir, .. } => assert_eq!(dir, "/d/group-3"),
        other => panic!("{other:?}"),
    }
    assert_eq!(
        text(offload("", NodeRole::Standby).spawn_local_group(3).unwrap_err()),
        "StandbyOffload Standby requires non-empty data_dir for SnapshotCatalog"
    );
    assert!(offload("", NodeRole::Voter).spawn_local_group(3).is_ok());
}

#[test]
fn raft_refuses_bad_settings() {
    let mut n = node(view(true, &[1], &[], None));
    n.config.election_timeout_min_ms = 600;
    n.config.election_timeout_max_ms = 600;
    assert_eq!(
        text(n.spawn_local_group(0).unwrap_err()),
        "election timeout: min(600) must be < max(600)"
    );
    n.config.election_timeout_max_ms = 900;
    n.config.heartbeat_interval_ms = 600;
    assert_eq!(
        text(n.spawn_local_group(0).unwrap_err()),
        "election_timeout_min(600) must be > heartbeat_interval(600)"
    );
    n.config.heartbeat_interval_ms = 599;
    assert!(n.spawn_local_group(0).is_ok());
    // The texts are those of openraft.
    for (config, want) in [
        (
            openraft::Config { election_timeout_min: 5, election_timeout_max: 4, ..Default::default() },
            SettingsError::ElectionTimeout { min: 5, max: 4 },
        ),
        (
            openraft::Config {
                heartbeat_interval: 9,
                election_timeout_min: 8,
                election_timeout_max: 10,
                ..Default::default()
            },
            SettingsError::BelowHeartbeat { election_timeout_min: 8, heartbeat_interval: 9 },
        ),
        (
            openraft::Config { max_payload_entries: 0, ..Default::default() },
            SettingsError::NoPayload,
        ),
    ] {
        assert_eq!(config.validate().unwrap_err().to_string(), want.message());
    }
}

#[test]
fn standbys_are_added_promoted_and_demoted() {
    let n = node(view(true, &[1, 2], &[4], None));
    let mut t = StandbyThrottle::default();
    assert_eq!(n.add_standby(0, 3).unwrap(), "127.0.0.1:19003");
    assert_eq!(n.add_standby(0, 8).unwrap(), "");
    assert!(matches!(n.add_standby(7, 3).unwrap_err(), MultiRaftError::UnknownGroup(7)));
    n.add_standby_once(&mut t, 4, ChangeReply::Done).unwrap();
    assert!(t.contains(4));
    // Promotion: voters are done, others than learners refused.
    t.insert(2);
    assert_eq!(n.promote_standby(&mut t, 0, 2).unwrap(), RoleStep::Done);
    assert!(!t.contains(2));
    assert_eq!(n.promote_standby(&mut t, 0, 4).unwrap(), RoleStep::Change);
    assert_eq!(
        text(n.promote_standby(&mut t, 0, 9).unwrap_err()),
        "promote_standby: node 9 is not a learner in group 0"
    );
    n.promote_standby_once(&mut t, 4, ChangeReply::Done).unwrap();
    assert!(!t.contains(4));
    // Demotion.
    assert_eq!(n.demote_to_standby(&mut t, 0, 2).unwrap(), RoleStep::Change);
    assert_eq!(n.demote_to_standby(&mut t, 0, 4).unwrap(), RoleStep::Done);
    assert!(t.contains(4));
    n.demote_to_standby_once(&mut t, 2, ChangeReply::Done).unwrap();
    assert!(t.contains(2));
    assert!(n.standby_throttle_ids(&t).contains(&2));
}

#[test]
fn membership_errors() {
    let n = node(view(true, &[1], &[4], None));
    let mut t = StandbyThrottle::default();
    let e = n
        .add_standby_once(&mut t, 4, ChangeReply::Forward { leader: Some(2) })
        .unwrap_err();
    assert!(matches!(e, MultiRaftError::NotLeader { hint: Some(2) }));
    let e = n
        .promote_standby_once(&mut t, 4, ChangeReply::Failed("boom".to_string()))
        .unwrap_err();
    assert!(!membership_err_retryable(&e));
    assert_eq!(text(e), "promote_standby change_membership: boom");
    let m = "the cluster is already undergoing a configuration change";
    let e = n.add_standby_once(&mut t, 4, ChangeReply::Failed(m.to_string())).unwrap_err();
    assert!(membership_err_retryable(&e));
    assert!(!t.contains(4));
    match retry_on_membership_pending(Err(e), 14_999) {
        RetryStep::Pause(ms) => assert_eq!(ms, 50),
        other => panic!("{other:?}"),
    }
    let e = n.demote_to_standby_once(&mut t, 4, ChangeReply::Failed(m.to_string())).unwrap_err();
    match retry_on_membership_pending(Err(e), 15_000) {
        RetryStep::Return(Err(e)) => assert_eq!(
            text(e),
            format!("demote_to_standby change_membership: {m} (retry after membership settles)")
        ),
        other => panic!("{other:?}"),
    }
    assert!(matches!(
        retry_on_membership_pending(Ok(()), 0),
        RetryStep::Return(Ok(()))
    ));
    let e = MultiRaftError::UnknownGroup(3);
    assert!(matches!(retry_on_membership_pending(Err(e), 0), RetryStep::Return(Err(_))));
}

#[test]
fn throttle_follows_the_learners() {
    let mut t = StandbyThrottle::default();
    t.insert(2);
    let mut watch = ThrottleWatch::new();
    watch.observe(&mut t, vec![4, 5], &vec![1, 2, 3]);
    assert!(t.contains(4) && t.contains(5) && !t.contains(2));
    // Unchanged learners: nothing happens, though 2 is throttled by hand.
    t.insert(2);
    watch.observe(&mut t, vec![4, 5], &vec![1, 2, 3]);
    assert!(t.contains(2));
    watch.observe(&mut t, vec![5], &vec![1, 2, 3, 4]);
    assert!(t.contains(5) && !t.contains(4) && !t.contains(2));
}

#[test]
fn leaders_are_watched() {
    let mut w = LeaderWatch::new();
    assert!(w.observe(None));
    assert!(!w.observe(None));
    assert!(w.observe(Some(1)));
    assert!(!w.observe(Some(1)));
    assert!(w.observe(Some(2)));
    assert_eq!(leader_seen(&vec![(Some(2), false), (None, false)]), None);
    assert_eq!(leader_seen(&vec![(None, false), (Some(3), false), (Some(2), true)]), Some(3));
    let n = node(view(true, &[1, 2], &[3], Some((9, 2))));
    assert!(n.is_leader(0) && !n.is_leader(1));
    assert_eq!(n.leader(0), Some(1));
    assert_eq!(n.voter_ids(0).unwrap().len(), 2);
    assert!(n.learner_ids(0).unwrap().contains(&3));
    assert!(n.voter_ids(1).is_none() && n.learner_ids(1).is_none());
    assert_eq!(n.local_applied(0), Some((9, 2)));
}

#[test]
fn a_group_that_does_not_start_is_not_there() {
    let config = ClusterConfig::for_test(1, &[1]);
    let (_, mut n) = MultiRaft::start(config, 0, Vec::new());
    let e = n.group_spawned(4, SpawnReply::LogFailed("denied".to_string())).unwrap_err();
    assert_eq!(text(e), "open file log: denied");
    let e = n.group_spawned(4, SpawnReply::RaftFailed("stopped".to_string())).unwrap_err();
    assert_eq!(text(e), "stopped");
    assert!(n.raft(4).is_err());
    n.group_spawned(4, SpawnReply::Running).unwrap();
    assert_eq!(n.raft(4).unwrap().leader, None);
}

#[test]
fn proposals() {
    let n = node(view(true, &[1], &[], None));
    assert_eq!(n.propose(0, vec![1, 2]).unwrap().data, vec![1, 2]);
    assert!(matches!(n.propose(1, vec![]).unwrap_err(), MultiRaftError::UnknownGroup(1)));
    assert_eq!(n.trigger_standby_snapshot(0).unwrap().data, STANDBY_SNAPSHOT_TRIGGER.to_vec());
    // No payloads: done, whatever the group.
    assert_eq!(n.propose_batch(1, Vec::new()).unwrap().len(), 0);
    assert!(n.propose_batch(1, vec![vec![1]]).is_err());
    let batch = n.propose_batch(0, vec![vec![1], vec![2]]).unwrap();
    assert_eq!(batch[1].data, vec![2]);
    assert_eq!(n.propose_many(1, Vec::new()).unwrap().len(), 0);
    assert!(matches!(n.propose_many(1, vec![vec![1]]).unwrap_err(), MultiRaftError::UnknownGroup(1)));
    assert_eq!(n.propose_many(0, vec![vec![1], vec![2]]).unwrap()[0].data, vec![1]);

    let id = LogId { term: 3, node_id: 1, index: 8 };
    let ok = MultiRaft::client_write_one(WriteReply::Applied(id)).unwrap();
    assert_eq!((ok.index, ok.term), (8, 3));
    let e = MultiRaft::client_write_one(WriteReply::Forward { leader: None }).unwrap_err();
    assert!(matches!(e, MultiRaftError::NotLeader { hint: None }));
    let e = MultiRaft::client_write_one(WriteReply::Failed("t".to_string())).unwrap_err();
    assert_eq!(text(e), "client_write: t");

    let next = LogId { term: 3, node_id: 1, index: 9 };
    let items = vec![StreamItem::Applied(id), StreamItem::Applied(next)];
    let out = MultiRaft::many_outcome(None, &items).unwrap();
    assert_eq!(out.iter().map(|p| p.index).collect::<Vec<u64>>(), vec![8, 9]);
    let items = vec![
        StreamItem::Applied(id),
        StreamItem::Forward { leader: Some(2) },
        StreamItem::Broken("late".to_string()),
    ];
    let e = MultiRaft::many_outcome(None, &items).unwrap_err();
    assert!(matches!(e, MultiRaftError::NotLeader { hint: Some(2) }));
    let items = vec![StreamItem::Broken("late".to_string())];
    assert_eq!(
        text(MultiRaft::many_outcome(None, &items).unwrap_err()),
        "client_write_many stream: late"
    );
    let e = MultiRaft::many_outcome(Some("off".to_string()), &Vec::new()).unwrap_err();
    assert_eq!(text(e), "client_write_many: off");
}

#[test]
fn reads() {
    let mut n = node(view(true, &[1], &[], Some((7, 2))));
    assert!(n.read_linearizable(0, ReadReply::Confirmed, true).is_ok());
    assert_eq!(
        text(n.read_linearizable(0, ReadReply::Confirmed, false).unwrap_err()),
        "read_linearizable: fsm missing for group 0"
    );
    let e = n.read_linearizable(0, ReadReply::Forward { leader: Some(3) }, true).unwrap_err();
    assert!(matches!(e, MultiRaftError::NotLeader { hint: Some(3) }));
    let e = n.read_linearizable(0, ReadReply::Failed("q".to_string()), true).unwrap_err();
    assert_eq!(text(e), "ensure_linearizable: q");
    assert!(n.read_linearizable(5, ReadReply::Confirmed, true).is_err());
    // Local reads are off unless enabled.
    assert!(!n.stale_queries_enabled());
    assert!(matches!(n.read_stale(0).unwrap_err(), MultiRaftError::StaleQueriesDisabled));
    n.config = n.config.with_stale_queries(true);
    let mark = n.read_stale(0).unwrap();
    let answer = MultiRaft::stale_answer("value", mark);
    assert_eq!((answer.value, answer.applied_index, answer.applied_term), ("value", 7, 2));
    assert!(matches!(n.read_stale(5).unwrap_err(), MultiRaftError::UnknownGroup(5)));
    assert!(n.wait_for_recovery(0, Ok(())).is_ok());
    assert_eq!(
        text(n.wait_for_recovery(0, Err("slow".to_string())).unwrap_err()),
        "wait_for_recovery: slow"
    );
    assert!(n.wait_for_recovery(5, Ok(())).is_err());
}

fn advertised(index: u64, term: u64) -> SnapshotAdvertisement {
    SnapshotAdvertisement {
        group: 0,
        last_index: index,
        last_term: term,
        snapshot_id: format!("{index}-{term}"),
        size: 1,
        sha256_hex: "x".to_string(),
        fetch_url: "http://s/snapshots/0/latest".to_string(),
    }
}

#[test]
fn recovery_takes_only_newer_snapshots() {
    assert!(log_pos_newer(2, 1, 1, 99));
    assert!(log_pos_newer(2, 2, 2, 1));
    assert!(!log_pos_newer(2, 2, 2, 2));
    let mut n = node(view(false, &[1], &[], Some((10, 2))));
    assert!(matches!(
        n.try_recover_from_standby_ads(0),
        RecoverStep::Return(RecoverOutcome::SkippedNoAd)
    ));
    n.record_snapshot_ad(advertised(10, 2));
    match n.try_recover_from_standby_ads(0) {
        RecoverStep::Return(outcome) => assert_eq!(
            outcome,
            RecoverOutcome::SkippedNotNewer { local_index: 10, ad_index: 10 }
        ),
        other => panic!("{other:?}"),
    }
    n.record_snapshot_ad(advertised(3, 3));
    assert_eq!(n.snapshot_ads().len(), 2);
    assert_eq!(n.best_snapshot_ad(0).unwrap().snapshot_id, "3-3");
    match n.try_recover_from_standby_ads(0) {
        RecoverStep::Pull { url, last_index, last_term } => {
            assert_eq!(url, "http://s/snapshots/0/latest");
            assert_eq!((last_index, last_term), (3, 3));
        }
        other => panic!("{other:?}"),
    }
    assert_eq!(
        MultiRaft::recovered(3, 3, Ok(())).unwrap(),
        RecoverOutcome::Installed { last_index: 3, last_term: 3 }
    );
    assert!(MultiRaft::recovered(3, 3, Err(PullError::UnknownGroup(0))).is_err());
    let failed = n.install_durable_snapshot(0, Err("bad".to_string())).unwrap_err();
    assert_eq!(
        MultiRaft::recovered(3, 3, Err(failed)).unwrap(),
        RecoverOutcome::FetchFailed { error: "install_durable_snapshot: bad".to_string() }
    );
    assert!(matches!(
        n.install_durable_snapshot(9, Ok(())).unwrap_err(),
        PullError::UnknownGroup(9)
    ));
    assert!(MultiRaft::pull_and_install_snapshot(Err("404".to_string())).is_err());
}

#[test]
fn standby_catalogs_are_installed_from() {
    let none = MultiRaft::try_install_from_standby_catalog(Ok(None)).unwrap_err();
    assert_eq!(text(none), "no snapshot in standby catalog");
    let bad = MultiRaft::try_install_from_standby_catalog(Err("io".to_string())).unwrap_err();
    assert_eq!(text(bad), "catalog latest: io");
    assert_eq!(MultiRaft::standby_catalog_data(Ok(Some(vec![1]))).unwrap(), vec![1]);
    assert_eq!(text(MultiRaft::standby_catalog_data(Ok(None)).unwrap_err()), "snapshot data missing");
    assert_eq!(
        text(MultiRaft::standby_catalog_data(Err("io".to_string())).unwrap_err()),
        "catalog read: io"
    );
    let n = offload("/d", NodeRole::Standby);
    assert_eq!(n.snapshot_catalog().unwrap().root(), "/d/snapshots");
    let item = |index: u64| DirItem {
        is_dir: true,
        name: None,
        path: String::new(),
        meta: MetaFound::Good(MetaFile {
            group: 0,
            last_index: index,
            last_term: 1,
            snapshot_id: String::new(),
            size: 0,
            sha256_hex: String::new(),
        }),
    };
    assert_eq!(n.latest_catalog_entry(&vec![item(3), item(8), item(8), item(1)]), Some(1));
    assert_eq!(n.latest_catalog_entry(&Vec::new()), None);
    assert_eq!(offload("", NodeRole::Standby).latest_catalog_entry(&vec![item(3)]), None);
}

fn fetched(index: u64, term: u64) -> FetchedSnapshot {
    FetchedSnapshot {
        last_index: index,
        last_term: term,
        snapshot_id: None,
        data: vec![1, 2, 3],
        sha256_hex: "s".to_string(),
    }
}

#[test]
fn daisy_chains() {
    let mut n = offload("/d", NodeRole::Standby);
    assert_eq!(n.sync_from_daisy_upstream(7).unwrap(), "http://up:1/snapshots/7/latest");
    n.group_spawned(7, SpawnReply::Running).unwrap();
    let e = DaisyEvent::Fetched(Ok(fetched(4, 1)));
    let (stage, action) = n.daisy_sync_once(DaisyMode::Request, 7, DaisyStage::Fetching, e);
    assert!(matches!(action, DaisyAction::Write));
    match &stage {
        DaisyStage::Writing { id, known, .. } => assert_eq!((id.as_str(), *known), ("4-1", true)),
        other => panic!("{other:?}"),
    }
    let (stage, action) =
        n.daisy_sync_once(DaisyMode::Request, 7, stage, DaisyEvent::Written(Ok(())));
    assert!(matches!(action, DaisyAction::Install));
    let (_, action) =
        n.daisy_sync_once(DaisyMode::Request, 7, stage, DaisyEvent::Installed(Ok(())));
    match action {
        DaisyAction::Return { result: Ok(outcome), persist } => {
            assert_eq!(outcome, RecoverOutcome::Installed { last_index: 4, last_term: 1 });
            assert!(persist);
        }
        other => panic!("{other:?}"),
    }
    let ad = &n.snapshot_ads()[0];
    assert_eq!(ad.fetch_url, "http://127.0.0.1:21103/snapshots/7/latest");
    assert_eq!((ad.size, ad.snapshot_id.as_str()), (3, "4-1"));
    // The next in the chain asks exactly there.
    let mut next = offload("/e", NodeRole::Standby);
    next.config.daisy_upstream_base = Some("http://127.0.0.1:21103".to_string());
    assert_eq!(next.sync_from_daisy_upstream(7).unwrap(), ad.fetch_url);
}

#[test]
fn daisy_failures() {
    let returned = |action: DaisyAction| match action {
        DaisyAction::Return { result, persist } => {
            assert!(!persist);
            result
        }
        other => panic!("{other:?}"),
    };
    let mut n = offload("/d", NodeRole::Standby);
    let e = DaisyEvent::Fetched(Err("refused".to_string()));
    let (_, a) = n.daisy_sync_once(DaisyMode::Round, 0, DaisyStage::Fetching, e);
    assert_eq!(
        returned(a).unwrap(),
        RecoverOutcome::FetchFailed { error: "refused".to_string() }
    );
    n.group_spawned(0, SpawnReply::Running).unwrap();
    n.observe(0, view(false, &[1], &[4], Some((9, 2))));
    let e = DaisyEvent::Fetched(Ok(fetched(9, 2)));
    let (_, a) = n.daisy_sync_once(DaisyMode::Round, 0, DaisyStage::Fetching, e);
    assert_eq!(
        returned(a).unwrap(),
        RecoverOutcome::SkippedNotNewer { local_index: 9, ad_index: 9 }
    );
    for (mode, want) in [
        (DaisyMode::Request, "install_durable_snapshot: x"),
        (DaisyMode::Round, "daisy install: x"),
    ] {
        let e = DaisyEvent::Fetched(Ok(fetched(9, 3)));
        let (stage, _) = n.daisy_sync_once(mode, 0, DaisyStage::Fetching, e);
        let (stage, _) = n.daisy_sync_once(mode, 0, stage, DaisyEvent::Written(Ok(())));
        let e = DaisyEvent::Installed(Err("x".to_string()));
        let (_, a) = n.daisy_sync_once(mode, 0, stage, e);
        assert_eq!(text(returned(a).unwrap_err()), want);
    }
    let e = DaisyEvent::Fetched(Ok(fetched(9, 3)));
    let (stage, _) = n.daisy_sync_once(DaisyMode::Round, 0, DaisyStage::Fetching, e);
    let e = DaisyEvent::Written(Err("full".to_string()));
    let (_, a) = n.daisy_sync_once(DaisyMode::Round, 0, stage, e);
    assert_eq!(text(returned(a).unwrap_err()), "daisy catalog write: full");
    let mut bare = offload("", NodeRole::Standby);
    let e = DaisyEvent::Fetched(Ok(fetched(1, 1)));
    let (_, a) = bare.daisy_sync_once(DaisyMode::Round, 0, DaisyStage::Fetching, e);
    assert_eq!(
        text(returned(a).unwrap_err()),
        "daisy sync: SnapshotCatalog required (StandbyOffload + data_dir)"
    );
    let (stage, e) = (
        DaisyStage::Installing { snap: fetched(9, 3), id: "i".to_string() },
        DaisyEvent::GroupGone,
    );
    let (_, a) = n.daisy_sync_once(DaisyMode::Request, 6, stage, e);
    assert!(matches!(returned(a).unwrap_err(), MultiRaftError::UnknownGroup(6)));
}

#[test]
fn downloads_are_planned() {
    let mut n = offload("/d", NodeRole::Standby);
    n.config.snapshot_fetch_chunk_bytes = 0;
    n.config.daisy_sync_interval_ms = 0;
    let plan = n.spawn_daisy_sync_loop().unwrap();
    assert_eq!((plan.base.as_str(), plan.interval_ms), ("http://up:1/", 1));
    assert_eq!(plan.fetch.chunk, 1);
    assert!(matches!(plan.fetch.temp_dir, TempDir::At(ref d) if d == "/d/snap-fetch-tmp"));
    n.config.daisy_upstream_base = None;
    assert!(n.spawn_daisy_sync_loop().is_none());
    assert_eq!(
        text(n.sync_from_daisy_upstream(0).unwrap_err()),
        "sync_from_daisy_upstream: daisy_upstream_base not set"
    );
    let plan = offload("", NodeRole::Standby).fetch_snapshot_bytes();
    assert!(matches!(plan.temp_dir, TempDir::System(ref d) if d == "multiraft-snap-fetch"));
}

#[test]
fn built_snapshots_are_advertised() {
    let mut n = offload("/d", NodeRole::Standby);
    let entry = || CatalogEntry {
        group: 3,
        last_index: 12,
        last_term: 4,
        snapshot_id: "12-4".to_string(),
        size: 6,
        sha256_hex: "aa".to_string(),
        dir: None,
    };
    assert!(n.standby_snapshot_built(3, entry()));
    assert!(n.standby_snapshot_built(3, entry()));
    assert_eq!(n.snapshot_ads().len(), 1);
    let ad = &n.snapshot_ads()[0];
    assert_eq!((ad.group, ad.last_index, ad.last_term, ad.size), (3, 12, 4, 6));
    assert_eq!(ad.fetch_url, "http://127.0.0.1:21103/snapshots/3/latest");
}

fn segment(start: u64, end: u64, at: [u64; 6]) -> LogSegment {
    let d = |us: u64| Duration::from_micros(us);
    LogSegment {
        start,
        end,
        proposed: d(at[0]),
        received: d(at[1]),
        submitted: d(at[2]),
        persisted: d(at[3]),
        committed: d(at[4]),
        applied: d(at[5]),
    }
}

#[test]
fn stages_of_a_proposal() {
    let segs = vec![
        segment(0, 5, [0; 6]),
        segment(5, 8, [10, 13, 20, 24, 50, 57]),
        segment(5, 9, [0, 1, 2, 3, 4, 5]),
        segment(9, 10, [9, 8, 20, 15, 15, 30]),
    ];
    let d = durations_for_index(&segs, 7).unwrap();
    assert_eq!(d.enqueued, Duration::from_micros(3));
    assert_eq!(d.leader_append, Duration::from_micros(7 + 4));
    assert_eq!(d.quorum_ack, Duration::from_micros(26));
    assert_eq!(d.committed, d.quorum_ack);
    assert_eq!(d.applied, Duration::from_micros(7));
    assert!(durations_for_index(&segs, 10).is_none());
    // Clocks that run back count as no time.
    let d = durations_for_index(&segs, 9).unwrap();
    assert!(d.enqueued.is_zero());
    assert_eq!(d.leader_append, Duration::from_micros(12));

    let mut reg = PluginRegistry::new().register_metrics(Box::new(SegmentedLatencyMetrics::new()));
    record_openraft_stages(&mut reg, 3, 7, Some(&segs));
    let snap = &reg.metrics_snapshots()[0];
    let seen: Vec<(ProposeStage, u64)> = snap.stages.iter().map(|s| (s.stage, s.max_us)).collect();
    assert_eq!(
        seen,
        vec![
            (ProposeStage::ClientEnqueued, 3),
            (ProposeStage::LeaderAppend, 11),
            (ProposeStage::QuorumAck, 26),
            (ProposeStage::Committed, 26),
            (ProposeStage::Applied, 7),
        ]
    );
    assert!(snap.stages.iter().all(|s| s.group == 3 && s.ok_count == 1));
    // Stages that took no time, and entries that were not timed, leave no sample.
    record_openraft_stages(&mut reg, 3, 2, Some(&segs));
    record_openraft_stages(&mut reg, 3, 99, Some(&segs));
    record_openraft_stages(&mut reg, 3, 7, None);
    assert!(reg.metrics_snapshots()[0].stages.iter().all(|s| s.count == 1));
}

/// Wants every standby with this id promoted.
struct Wants(u64);

impl TransitionPlugin for Wants {
    fn name(&self) -> &'static str {
        "wants"
    }

    fn on_node_start(&mut self, _ctx: &PluginContext) {}

    fn on_node_stop(&mut self, _ctx: &PluginContext) {}

    fn on_group_ready(&mut self, _ctx: &PluginContext, _group: u64) {}

    fn evaluate(&mut self, ctx: &TransitionContext) -> TransitionAction {
        if ctx.standby_id == self.0 {
            TransitionAction::PromoteStandby
        } else {
            TransitionAction::NoAction
        }
    }

    fn snapshot(&self) -> TransitionSnapshot {
        TransitionSnapshot {
            plugin: self.name(),
            enabled: false,
            lag_threshold: 0,
            last_action: TransitionAction::NoAction,
        }
    }
}

fn at(index: u64) -> Option<LogId> {
    Some(LogId { term: 1, node_id: 1, index })
}

#[test]
fn transition_rounds() {
    let mut n = node(view(true, &[1], &[6, 4, 5], Some((100, 2))));
    let mut reg = PluginRegistry::new()
        .register_transition(Box::new(LagPromotePolicy::enabled(50)))
        .register_transition(Box::new(Wants(5)));
    let mut progress: BTreeMap<u64, Option<LogId>> = BTreeMap::new();
    progress.insert(4, at(60));
    progress.insert(5, at(99));
    progress.insert(6, None);
    let mut tick = n.transition_tick_once(&reg, 0, Some(progress)).unwrap();
    assert_eq!(tick.standbys, vec![4, 5, 6]);
    assert_eq!(tick.leader_applied, 100);
    // 4 lags by 40 only; 5 is wanted by the second policy; 6 is at 0.
    assert_eq!(tick.next_promotion(&mut reg), Some(5));
    assert_eq!(reg.transition_snapshots()[0].last_action, TransitionAction::NoAction);
    assert_eq!(tick.next_promotion(&mut reg), Some(6));
    assert_eq!(reg.transition_snapshots()[0].last_action, TransitionAction::PromoteStandby);
    assert_eq!(tick.next_promotion(&mut reg), None);
    // Configured standbys only, and of those the learners.
    n.config.standby_node_ids = vec![6, 9, 4];
    let tick = n.transition_tick_once(&reg, 0, None).unwrap();
    assert_eq!(tick.standbys, vec![6, 4]);
    // No round without leadership, group or enabled policy.
    assert!(n.transition_tick_once(&reg, 1, None).is_none());
    n.observe(0, view(false, &[1], &[4], None));
    assert!(n.transition_tick_once(&reg, 0, None).is_none());
    n.observe(0, view(true, &[1], &[4], None));
    let off = PluginRegistry::new().register_transition(Box::new(Wants(4)));
    assert!(n.transition_tick_once(&off, 0, None).is_none());
    assert!(!transition_enabled(&PluginRegistry::new()));
    assert_eq!(candidates(&Vec::new(), &BTreeSet::from([9, 2])), vec![2, 9]);
}

#[test]
fn bundle_promotes_by_lag() {
    let mut reg = premium_registry(None, Some(10), None);
    let ask = |standby: u64| TransitionContext {
        group: 0,
        leader_applied_index: 100,
        standby_id: 4,
        standby_applied_index: standby,
        standby_is_learner: true,
    };
    assert!(transition_enabled(&reg));
    assert!(ask_transition(&mut reg, &ask(90)));
    assert!(!ask_transition(&mut reg, &ask(91)));
    assert!(!transition_enabled(&premium_registry(None, None, None)));
}

#[test]
fn transition_promotions() {
    let mut t = StandbyThrottle::default();
    t.insert(4);
    let pending = ChangeReply::Failed("undergoing a configuration change".to_string());
    assert!(promote_standby_once(&mut t, 4, pending).is_ok());
    assert!(t.contains(4));
    let e = promote_standby_once(&mut t, 4, ChangeReply::Forward { leader: Some(2) }).unwrap_err();
    assert!(matches!(e, MultiRaftError::NotLeader { hint: Some(2) }));
    let e = promote_standby_once(&mut t, 4, ChangeReply::Failed("boom".to_string())).unwrap_err();
    assert_eq!(text(e), "transition promote change_membership: boom");
    assert!(t.contains(4));
    assert!(promote_standby_once(&mut t, 4, ChangeReply::Done).is_ok());
    assert!(!t.contains(4));
}

#[test]
fn transition_loop_interval() {
    let mut config = ClusterConfig::for_test(1, &[1]);
    let on = premium_registry(None, Some(1), None);
    assert_eq!(spawn_transition_loop(&config, &on), None);
    config.transition_poll_interval_ms = 7;
    assert_eq!(spawn_transition_loop(&config, &on), Some(100));
    config.transition_poll_interval_ms = 250;
    assert_eq!(spawn_transition_loop(&config, &on), Some(250));
    assert_eq!(spawn_transition_loop(&config, &premium_registry(None, None, None)), None);
    assert_eq!(spawn_transition_loop(&config, &PluginRegistry::new()), None);
}

#[test]
fn fabric_starts_bare() {
    let fabric = SharedFabric::new();
    assert_eq!(fabric.router().unique_peer_links(), 0);
    assert!(fabric.router().throttle().standby_ids().is_empty());
}
