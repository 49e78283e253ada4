//! Plugins, their registry, and the operator's tool.

use std::sync::atomic::{AtomicU64, Ordering};
use std::sync::{Arc, Mutex};

use multiraft::catalog::{DirItem, MetaFound, SnapshotCatalog};
use multiraft::duration::Duration;
use multiraft::error::{MultiRaftError, ProposeOk};
use multiraft::plugin::{
    ArchiveExport, ArchivePlugin, ArchiveSnapshot, AuthPlugin, LogPosition, MetricsPlugin,
    MetricsSnapshot, Plugin, PluginContext, PluginKind, PluginRegistry, ProposeStage,
    StageSample, TransitionAction, TransitionContext, TransitionPlugin, TransitionSnapshot,
};
use multiraft::plugin_archive::CatalogArchive;
use multiraft::plugin_auth::BearerTokenAuth;
use multiraft::plugin_metrics::{percentile, sorted_copy, SegmentedLatencyMetrics, StageAgg};
use multiraft::plugin_ops::{
    auth_header, premium_registry, replicate_payload, request, OpsCommand, OpsRequest,
    ADMIN_ROUTES,
};
use multiraft::plugin_transition::LagPromotePolicy;
use multiraft::stage_metrics::{client_write_sample, record_client_write};

struct NoopMetric;

impl MetricsPlugin for NoopMetric {
    fn name(&self) -> &'static str {
        "noop"
    }

    fn on_node_start(&mut self, _ctx: &PluginContext) {}

    fn on_node_stop(&mut self, _ctx: &PluginContext) {}

    fn on_group_ready(&mut self, _ctx: &PluginContext, _group: u64) {}

    fn record_stage(&mut self, _sample: StageSample) {}

    fn snapshot(&self) -> MetricsSnapshot {
        MetricsSnapshot { plugin: self.name(), stages: Vec::new() }
    }
}

struct DenyAuth;

impl AuthPlugin for DenyAuth {
    fn name(&self) -> &'static str {
        "deny"
    }

    fn on_node_start(&mut self, _ctx: &PluginContext) {}

    fn on_node_stop(&mut self, _ctx: &PluginContext) {}

    fn on_group_ready(&mut self, _ctx: &PluginContext, _group: u64) {}

    fn authorize_admin(&self, _authorization: Option<&str>) -> bool {
        false
    }
}

/// Counts the hooks it is called through, in three digits: starts, group starts, stops.
struct Counting(Arc<AtomicU64>);

impl Plugin for Counting {
    fn name(&self) -> &'static str {
        "counting"
    }

    fn on_node_start(&mut self, ctx: &PluginContext) {
        self.0.fetch_add(ctx.node_id, Ordering::Relaxed);
    }

    fn on_node_stop(&mut self, ctx: &PluginContext) {
        self.0.fetch_add(100 * ctx.node_id, Ordering::Relaxed);
    }

    fn on_group_ready(&mut self, _ctx: &PluginContext, group: u64) {
        self.0.fetch_add(10 * group, Ordering::Relaxed);
    }
}

/// Writes down what it is told, with its name.
struct Scribe(&'static str, Arc<Mutex<Vec<String>>>);

impl Scribe {
    fn note(&self, what: &str) {
        self.1.lock().unwrap().push(format!("{} {}", self.0, what));
    }
}

impl Plugin for Scribe {
    fn name(&self) -> &'static str {
        self.0
    }

    fn on_node_start(&mut self, _ctx: &PluginContext) {
        self.note("start");
    }

    fn on_node_stop(&mut self, _ctx: &PluginContext) {
        self.note("stop");
    }

    fn on_group_ready(&mut self, _ctx: &PluginContext, _group: u64) {
        self.note("ready");
    }
}

impl MetricsPlugin for Scribe {
    fn name(&self) -> &'static str {
        self.0
    }

    fn on_node_start(&mut self, _ctx: &PluginContext) {
        self.note("start");
    }

    fn on_node_stop(&mut self, _ctx: &PluginContext) {
        self.note("stop");
    }

    fn on_group_ready(&mut self, _ctx: &PluginContext, _group: u64) {
        self.note("ready");
    }

    fn record_stage(&mut self, _sample: StageSample) {
        self.note("sample");
    }

    fn snapshot(&self) -> MetricsSnapshot {
        MetricsSnapshot { plugin: self.0, stages: Vec::new() }
    }
}

fn sample(group: u64, stage: ProposeStage, us: u64, ok: bool) -> StageSample {
    StageSample { group, stage, duration: Duration::from_micros(us), ok }
}

fn question(leader: u64, standby: u64, learner: bool) -> TransitionContext {
    TransitionContext {
        group: 0,
        leader_applied_index: leader,
        standby_id: 4,
        standby_applied_index: standby,
        standby_is_learner: learner,
    }
}

#[test]
fn registry_dispatches_metrics() {
    let mut reg = PluginRegistry::new().register_metrics(Box::new(NoopMetric));
    let ctx = PluginContext { node_id: 1 };
    reg.on_node_start(&ctx);
    reg.record_stage(StageSample {
        group: 0,
        stage: ProposeStage::ClientWrite,
        duration: Duration::from_micros(10),
        ok: true,
    });
    assert_eq!(reg.metrics_snapshots().len(), 1);
}

#[test]
fn auth_plugins_and_gate() {
    let open = PluginRegistry::new();
    assert!(open.authorize_admin(None));

    let closed = PluginRegistry::new().register_auth(Box::new(DenyAuth));
    assert!(!closed.authorize_admin(None));
}

#[test]
fn one_refusing_guard_is_enough() {
    let reg = PluginRegistry::new()
        .register_auth(Box::new(BearerTokenAuth::new("tok")))
        .register_auth(Box::new(DenyAuth));
    assert!(!reg.authorize_admin(Some("Bearer tok")));
    assert_eq!(reg.auth_plugins().len(), 2);
    assert_eq!(reg.auth_plugins()[0].name(), "bearer-auth");
    assert_eq!(reg.auth_plugins()[1].name(), "deny");
}

#[test]
fn hooks_reach_plugins_of_every_kind() {
    let seen = Arc::new(AtomicU64::new(0));
    let mut reg = PluginRegistry::default()
        .register_plugin(Box::new(Counting(seen.clone())))
        .register_metrics(Box::new(SegmentedLatencyMetrics::new()))
        .register_plugin(Box::new(Counting(seen.clone())));
    assert!(!reg.is_empty());
    assert!(PluginRegistry::new().is_empty());
    let ctx = PluginContext { node_id: 3 };
    reg.on_node_start(&ctx);
    reg.on_group_ready(&ctx, 2);
    assert_eq!(seen.load(Ordering::Relaxed), 2 * 3 + 2 * 20);
    reg.record_stage(sample(1, ProposeStage::Applied, 7, true));
    assert_eq!(reg.metrics_snapshots()[0].stages.len(), 1);
    reg.on_node_stop(&ctx);
    assert_eq!(seen.load(Ordering::Relaxed), 2 * 3 + 2 * 20 + 2 * 300);
    assert_eq!(reg.metrics_snapshots()[0].stages.len(), 0);
}

#[test]
fn stage_names() {
    assert_eq!(ProposeStage::ClientEnqueued.as_str(), "client_enqueued");
    assert_eq!(ProposeStage::ClientWrite.as_str(), "client_write");
    assert_eq!(ProposeStage::LeaderAppend.as_str(), "leader_append");
    assert_eq!(ProposeStage::QuorumAck.as_str(), "quorum_ack");
    assert_eq!(ProposeStage::Committed.as_str(), "committed");
    assert_eq!(ProposeStage::Applied.as_str(), "applied");
}

#[test]
fn record_and_snapshot_percentiles() {
    let mut m = SegmentedLatencyMetrics::new();
    for us in [100u64, 200, 300, 400, 500] {
        m.record_stage(StageSample {
            group: 0,
            stage: ProposeStage::ClientWrite,
            duration: Duration::from_micros(us),
            ok: true,
        });
    }
    let snap = m.snapshot();
    assert_eq!(snap.plugin, "segmented-latency");
    assert_eq!(snap.stages.len(), 1);
    let s = &snap.stages[0];
    assert_eq!(s.count, 5);
    assert_eq!(s.ok_count, 5);
    assert_eq!(s.p50_us, 300);
    assert_eq!(s.p99_us, 500);
}

#[test]
fn rows_rise_by_group_and_stage() {
    let mut m = SegmentedLatencyMetrics::new();
    m.record_stage(sample(2, ProposeStage::ClientWrite, 10, true));
    m.record_stage(sample(1, ProposeStage::Applied, 20, false));
    m.record_stage(sample(1, ProposeStage::ClientEnqueued, 30, true));
    m.record_stage(sample(1, ProposeStage::Applied, 40, true));
    let snap = m.snapshot();
    let keys: Vec<(u64, ProposeStage)> = snap.stages.iter().map(|s| (s.group, s.stage)).collect();
    assert_eq!(
        keys,
        vec![
            (1, ProposeStage::ClientEnqueued),
            (1, ProposeStage::Applied),
            (2, ProposeStage::ClientWrite)
        ]
    );
    let s = &snap.stages[1];
    assert_eq!((s.count, s.ok_count, s.sum_us, s.max_us), (2, 1, 60, 40));
    assert_eq!((s.p50_us, s.p99_us), (40, 40));
}

#[test]
fn percentiles_are_those_of_the_rounded_rank() {
    for n in 1..=600usize {
        let values: Vec<u64> = (0..n as u64).collect();
        for (percent, p) in [(50u64, 0.50f64), (99, 0.99)] {
            let at = ((n as f64 - 1.0) * p).round() as usize;
            assert_eq!(percentile(&values, percent), at.min(n - 1) as u64);
        }
    }
    for n in [4095usize, 4096] {
        let values: Vec<u64> = (0..n as u64).collect();
        for (percent, p) in [(50u64, 0.50f64), (99, 0.99)] {
            let at = ((n as f64 - 1.0) * p).round() as usize;
            assert_eq!(percentile(&values, percent), at as u64);
        }
    }
    assert_eq!(percentile(&Vec::new(), 50), 0);
}

#[test]
fn only_the_latest_timings_count_for_percentiles() {
    let mut agg = StageAgg::default();
    agg.record(Duration::from_millis(900), false);
    for _ in 0..4096 {
        agg.record(Duration::from_micros(5), true);
    }
    let s = agg.summary(7, ProposeStage::QuorumAck);
    assert_eq!((s.group, s.stage), (7, ProposeStage::QuorumAck));
    assert_eq!((s.count, s.ok_count), (4097, 4096));
    assert_eq!(s.max_us, 900_000);
    assert_eq!(s.sum_us, 900_000 + 5 * 4096);
    assert_eq!((s.p50_us, s.p99_us), (5, 5));
    assert_eq!(agg.recent_us.len(), 4096);
}

#[test]
fn long_times_are_capped() {
    let mut agg = StageAgg::default();
    agg.record(Duration { nanos: u128::MAX }, true);
    agg.record(Duration::from_nanos(1999), true);
    assert_eq!(agg.max_us, u64::MAX);
    assert_eq!(agg.sum_us, u64::MAX);
    assert_eq!(agg.recent_us, vec![u64::MAX, 1]);
    assert_eq!(sorted_copy(&vec![3, 1, 2, 1]), vec![1, 1, 2, 3]);
}

#[test]
fn disabled_never_promotes() {
    let mut p = LagPromotePolicy::disabled();
    let action = p.evaluate(&TransitionContext {
        group: 0,
        leader_applied_index: 100,
        standby_id: 4,
        standby_applied_index: 0,
        standby_is_learner: true,
    });
    assert_eq!(action, TransitionAction::NoAction);
}

#[test]
fn promotes_when_lag_exceeds_threshold() {
    let mut p = LagPromotePolicy::enabled(50);
    let action = p.evaluate(&TransitionContext {
        group: 0,
        leader_applied_index: 100,
        standby_id: 4,
        standby_applied_index: 40,
        standby_is_learner: true,
    });
    assert_eq!(action, TransitionAction::PromoteStandby);
}

#[test]
fn premium_transition_lag_promote() {
    let mut policy = LagPromotePolicy::enabled(10);
    let action = policy.evaluate(&TransitionContext {
        group: 0,
        leader_applied_index: 100,
        standby_id: 4,
        standby_applied_index: 80,
        standby_is_learner: true,
    });
    assert_eq!(action, TransitionAction::PromoteStandby);
}

#[test]
fn lag_policy_edges() {
    let mut p = LagPromotePolicy::enabled(10);
    assert_eq!(p.evaluate(&question(100, 90, true)), TransitionAction::PromoteStandby);
    assert_eq!(p.snapshot().last_action, TransitionAction::PromoteStandby);
    assert_eq!(p.evaluate(&question(100, 91, true)), TransitionAction::NoAction);
    assert_eq!(p.evaluate(&question(100, 0, false)), TransitionAction::NoAction);
    assert_eq!(p.evaluate(&question(0, 100, true)), TransitionAction::NoAction);
    let s: TransitionSnapshot = p.snapshot();
    assert_eq!(s.plugin, "lag-promote");
    assert_eq!((s.enabled, s.lag_threshold), (true, 10));
    assert_eq!(s.last_action, TransitionAction::NoAction);
    // A threshold of 0 counts as 1.
    let mut q = LagPromotePolicy::enabled(0);
    assert_eq!(q.evaluate(&question(5, 5, true)), TransitionAction::NoAction);
    assert_eq!(q.evaluate(&question(6, 5, true)), TransitionAction::PromoteStandby);
}

#[test]
fn premium_auth_bearer_gate() {
    let reg = PluginRegistry::new().register_auth(Box::new(BearerTokenAuth::new("tok")));
    assert!(reg.authorize_admin(Some("Bearer tok")));
    assert!(!reg.authorize_admin(Some("Bearer nope")));
}

#[test]
fn premium_ops_bundle_registry() {
    let reg = premium_registry(Some("x"), None, None);
    assert!(!reg.metrics_plugins().is_empty());
    assert!(!reg.transition_plugins().is_empty());
    assert!(reg.authorize_admin(Some("Bearer x")));
}

#[test]
fn premium_registry_has_metrics_and_auth() {
    let reg = premium_registry(Some("lab"), None, None);
    assert!(!reg.is_empty());
    assert!(reg.authorize_admin(Some("Bearer lab")));
    assert!(!reg.authorize_admin(Some("Bearer wrong")));
}

#[test]
fn bundle_without_token_is_open_and_threshold_enables() {
    let reg = premium_registry(None, Some(0), None);
    assert!(reg.authorize_admin(None));
    assert!(!reg.transition_snapshots()[0].enabled);
    let reg = premium_registry(None, Some(7), None);
    let s = reg.transition_snapshots()[0];
    assert_eq!((s.enabled, s.lag_threshold), (true, 7));
    assert_eq!(reg.archive_snapshots().len(), 0);
}

#[test]
fn empty_token_allows_all() {
    let auth = BearerTokenAuth::new("");
    assert!(auth.authorize_admin(None));
    assert!(auth.authorize_admin(Some("Bearer anything")));
}

#[test]
fn token_requires_bearer_match() {
    let auth = BearerTokenAuth::new("secret");
    assert!(!auth.authorize_admin(None));
    assert!(!auth.authorize_admin(Some("secret")));
    assert!(auth.authorize_admin(Some("Bearer secret")));
}

#[test]
fn token_from_the_environment() {
    assert!(BearerTokenAuth::from_env(None).authorize_admin(None));
    let auth = BearerTokenAuth::from_env(Some("e".to_string()));
    assert!(!auth.authorize_admin(None));
    assert!(auth.authorize_admin(Some("Bearer e")));
    assert!(!auth.authorize_admin(Some("bearer e")));
}

/// The directory that a write leaves behind.
fn written(catalog: &SnapshotCatalog, group: u64, index: u64, term: u64, id: &str, data: &[u8]) -> DirItem {
    let plan = catalog.write(group, index, term, id.to_string(), data);
    let name = plan.entry.dir.clone().unwrap();
    DirItem {
        is_dir: true,
        path: format!("{}/{}/{}", catalog.root(), plan.group_dir, name),
        name: Some(name),
        meta: MetaFound::Good(plan.meta),
    }
}

#[test]
fn list_and_export_positions() {
    let catalog = SnapshotCatalog::new("/cat".to_string(), 3);
    // A directory may be listed in any order.
    let items = vec![
        written(&catalog, 0, 20, 2, "20-2", b"snap-b"),
        written(&catalog, 0, 10, 1, "10-1", b"snap-a"),
    ];
    let listing = catalog.list(&items).unwrap();
    let archive = CatalogArchive::new(catalog.clone());
    let positions = archive.list_positions(&items);
    assert_eq!(positions.len(), 2);
    assert_eq!(positions[0].index, 10);
    assert_eq!(positions[1].index, 20);

    let export = archive.export_at(&items, 20, 2).expect("export");
    assert_eq!(export.size, 6);
    assert!(!export.sha256_hex.is_empty());
    assert_eq!(export.data_path_hint, "/cat/0/20-2/data.bin");
    assert_eq!(export.position.snapshot_id, "20-2");

    let at = archive.read_bytes_at(&items, 20, 2).expect("bytes");
    assert_eq!(at, 0);
    let bytes = catalog.read(&listing.entries[at], b"snap-b".to_vec()).unwrap();
    assert_eq!(bytes, b"snap-b");
}

#[test]
fn premium_archive_lists_catalog_positions() {
    let catalog = SnapshotCatalog::new("/catalog".to_string(), 2);
    let items = vec![written(&catalog, 0, 15, 1, "15-1", b"payload")];
    let archive = CatalogArchive::new(catalog);
    let positions = archive.list_positions(&items);
    assert_eq!(positions.len(), 1);
    assert_eq!(positions[0].index, 15);
    assert!(archive.export_at(&items, 15, 1).is_some());
}

#[test]
fn archive_edges() {
    let catalog = SnapshotCatalog::new("/cat".to_string(), 3);
    let archive = CatalogArchive::new(catalog.clone());
    assert_eq!(archive.name(), "catalog-archive");
    assert_eq!(archive.snapshot().plugin, "catalog-archive");
    assert_eq!(archive.snapshot().positions.len(), 0);
    let mut items = vec![written(&catalog, 0, 15, 1, "15-1", b"payload")];
    assert!(archive.export_at(&items, 15, 2).is_none());
    assert!(archive.read_bytes_at(&items, 16, 1).is_none());
    // Metadata that cannot be read hides the whole group.
    items.push(DirItem {
        is_dir: true,
        name: Some("x".to_string()),
        path: "/cat/0/x".to_string(),
        meta: MetaFound::Bad("expected value".to_string()),
    });
    assert_eq!(archive.list_positions(&items).len(), 0);
    assert!(archive.export_at(&items, 15, 1).is_none());
    assert!(archive.read_bytes_at(&items, 15, 1).is_none());
}

#[test]
fn bytes_are_those_of_the_position() {
    // Ids decide nothing: neither one that two snapshots share, nor one that is the directory of
    // another.
    let catalog = SnapshotCatalog::new("/cat".to_string(), 3);
    let archive = CatalogArchive::new(catalog.clone());
    let items = vec![
        written(&catalog, 0, 10, 1, "s", b"A"),
        written(&catalog, 0, 20, 2, "s", b"B"),
    ];
    let listing = catalog.list(&items).unwrap();
    let at = archive.read_bytes_at(&items, 10, 1).unwrap();
    assert_eq!(catalog.read(&listing.entries[at], b"A".to_vec()).unwrap(), b"A");
    let at = archive.read_bytes_at(&items, 20, 2).unwrap();
    assert_eq!(catalog.read(&listing.entries[at], b"B".to_vec()).unwrap(), b"B");
    assert_eq!(archive.read_bytes_at(&items, 20, 1), None);
    let items = vec![
        written(&catalog, 0, 10, 1, "a", b"first"),
        written(&catalog, 0, 20, 2, "10-1", b"second"),
    ];
    assert_eq!(archive.read_bytes_at(&items, 20, 2), Some(1));
    assert_eq!(archive.read_bytes_at(&items, 10, 1), Some(0));
}

#[test]
fn tool_requests() {
    let base = "http://127.0.0.1:21100//";
    let get = |cmd: OpsCommand| match request(base, &cmd) {
        OpsRequest::Get(url) => url,
        other => panic!("{other:?}"),
    };
    assert_eq!(get(OpsCommand::MetricsStages), "http://127.0.0.1:21100/metrics/propose-stages");
    assert_eq!(
        get(OpsCommand::ArchivePositions { group: 7 }),
        "http://127.0.0.1:21100/admin/archive/7/positions"
    );
    assert_eq!(
        get(OpsCommand::ArchiveExport { group: 1, index: 20, term: 3, data: false }),
        "http://127.0.0.1:21100/admin/archive/1/export/20/3"
    );
    assert_eq!(
        get(OpsCommand::GroupStatus { group: 0 }),
        "http://127.0.0.1:21100/admin/groups/0/status"
    );
    assert_eq!(
        get(OpsCommand::BestAd { group: 12 }),
        "http://127.0.0.1:21100/admin/best_snapshot_ad/12"
    );
    match request(base, &OpsCommand::ArchiveExport { group: 1, index: 20, term: 3, data: true }) {
        OpsRequest::GetBytes(url) => {
            assert_eq!(url, "http://127.0.0.1:21100/admin/archive/1/export/20/3/data")
        }
        other => panic!("{other:?}"),
    }
    assert!(matches!(request(base, &OpsCommand::Routes), OpsRequest::PrintRoutes));
    assert_eq!(ADMIN_ROUTES.len(), 14);
    assert_eq!(ADMIN_ROUTES[11], "POST /admin/daisy_sync/{group}");
}

#[test]
fn tool_posts() {
    let post = |cmd: OpsCommand| match request("http://h", &cmd) {
        OpsRequest::Post { url, body } => (url, body),
        other => panic!("{other:?}"),
    };
    assert_eq!(
        post(OpsCommand::Promote { group: 2, id: 4 }),
        ("http://h/admin/promote_standby/2/4".to_string(), "{}".to_string())
    );
    assert_eq!(
        post(OpsCommand::Demote { group: 2, id: 4 }),
        ("http://h/admin/demote_standby/2/4".to_string(), "{}".to_string())
    );
    assert_eq!(
        post(OpsCommand::Replicate { group: 5, fetch_url: None }),
        ("http://h/admin/replicate_standby_snapshot/5".to_string(), "{}".to_string())
    );
    let url = "http://x/a?b=\"c\\d\"\n\u{1}";
    let (_, body) = post(OpsCommand::Replicate { group: 5, fetch_url: Some(url.to_string()) });
    assert_eq!(body, "{\"fetch_url\":\"http://x/a?b=\\\"c\\\\d\\\"\\n\\u0001\"}");
    let mut map = serde_json::Map::new();
    map.insert("fetch_url".to_string(), serde_json::Value::String(url.to_string()));
    assert_eq!(body, serde_json::Value::Object(map).to_string());
    assert_eq!(replicate_payload(Some("\"u\"".to_string())), "{\"fetch_url\":\"u\"}");
    assert_eq!(replicate_payload(None), "{}");
}

#[test]
fn tool_authorization() {
    assert_eq!(auth_header(Some("a"), Some("b")), Some("Bearer a".to_string()));
    assert_eq!(auth_header(None, Some("b")), Some("Bearer b".to_string()));
    assert_eq!(auth_header(None, None), None);
    let header = auth_header(Some("tok"), None).unwrap();
    assert!(BearerTokenAuth::new("tok").authorize_admin(Some(&header)));
}

/// One snapshot of one group.
struct OneSnapshot {
    starts: Arc<AtomicU64>,
}

impl ArchivePlugin for OneSnapshot {
    fn name(&self) -> &'static str {
        "one"
    }

    fn on_node_start(&mut self, _ctx: &PluginContext) {
        self.starts.fetch_add(1, Ordering::SeqCst);
    }

    fn on_node_stop(&mut self, _ctx: &PluginContext) {}

    fn on_group_ready(&mut self, _ctx: &PluginContext, _group: u64) {}

    fn list_positions(&self, group: u64) -> Vec<LogPosition> {
        vec![LogPosition { group, term: 1, index: 5, snapshot_id: "5-1".to_string() }]
    }

    fn export_at(&self, _group: u64, _index: u64, _term: u64) -> Option<ArchiveExport> {
        None
    }

    fn read_bytes_at(&self, _group: u64, index: u64, _term: u64) -> Option<Vec<u8>> {
        if index == 5 {
            Some(vec![1, 2])
        } else {
            None
        }
    }

    fn snapshot(&self) -> ArchiveSnapshot {
        ArchiveSnapshot { plugin: "one", positions: self.list_positions(3) }
    }
}

#[test]
fn archive_plugins_are_registered_and_told() {
    let starts = Arc::new(AtomicU64::new(0));
    let mut reg =
        PluginRegistry::new().register_archive(Box::new(OneSnapshot { starts: starts.clone() }));
    assert!(!reg.is_empty());
    assert_eq!(reg.archive_plugins().len(), 1);
    assert_eq!(reg.archive_plugins()[0].read_bytes_at(3, 5, 1), Some(vec![1, 2]));
    let snaps = reg.archive_snapshots();
    assert_eq!(snaps.len(), 1);
    assert_eq!((snaps[0].plugin, snaps[0].positions[0].index), ("one", 5));
    reg.on_node_start(&PluginContext { node_id: 1 });
    assert_eq!(starts.load(Ordering::SeqCst), 1);
    assert!(reg.metrics_plugins().is_empty());
}

#[test]
fn hooks_go_by_the_order_of_registration() {
    let notes = Arc::new(Mutex::new(Vec::new()));
    let mut reg = PluginRegistry::new()
        .register_plugin(Box::new(Scribe("a", notes.clone())))
        .register_metrics(Box::new(Scribe("b", notes.clone())))
        .register_plugin(Box::new(Scribe("c", notes.clone())))
        .register_metrics(Box::new(Scribe("d", notes.clone())));
    assert_eq!(
        reg.roll_call(),
        vec![
            (PluginKind::Plain, 0),
            (PluginKind::Metrics, 0),
            (PluginKind::Plain, 1),
            (PluginKind::Metrics, 1),
        ]
    );
    let ctx = PluginContext { node_id: 1 };
    reg.on_node_start(&ctx);
    reg.on_group_ready(&ctx, 3);
    reg.record_stage(sample(3, ProposeStage::Applied, 1, true));
    reg.on_node_stop(&ctx);
    assert_eq!(
        *notes.lock().unwrap(),
        vec![
            "a start", "b start", "c start", "d start", "a ready", "b ready", "c ready", "d ready",
            "b sample", "d sample", "a stop", "b stop", "c stop", "d stop",
        ]
    );
}

#[test]
fn a_stopped_registry_keeps_its_plugins_and_no_figures() {
    let mut reg = premium_registry(None, None, None);
    let ctx = PluginContext { node_id: 2 };
    reg.on_node_start(&ctx);
    reg.record_stage(sample(4, ProposeStage::Committed, 30, true));
    let s = &reg.metrics_snapshots()[0];
    assert_eq!(s.plugin, "segmented-latency");
    assert_eq!(s.stages.len(), 1);
    assert_eq!((s.stages[0].group, s.stages[0].stage), (4, ProposeStage::Committed));
    assert_eq!((s.stages[0].count, s.stages[0].max_us), (1, 30));

    reg.on_node_stop(&ctx);
    assert_eq!(reg.roll_call().len(), 3);
    let s = &reg.metrics_snapshots()[0];
    assert_eq!(s.plugin, "segmented-latency");
    assert_eq!(s.stages.len(), 0);
}

#[test]
fn one_more_guard_opens_nothing() {
    let reg = PluginRegistry::new().register_auth(Box::new(BearerTokenAuth::new("tok")));
    assert!(!reg.authorize_admin(None));
    // An open guard behind a closed one changes nothing.
    let reg = reg.register_auth(Box::new(BearerTokenAuth::new("")));
    assert!(!reg.authorize_admin(None));
    assert!(reg.authorize_admin(Some("Bearer tok")));
    let reg = reg.register_auth(Box::new(DenyAuth));
    assert!(!reg.authorize_admin(Some("Bearer tok")));
}

#[test]
fn bundle_falls_back_to_the_environments_token() {
    let reg = premium_registry(None, None, Some("env".to_string()));
    assert!(!reg.authorize_admin(None));
    assert!(reg.authorize_admin(Some("Bearer env")));
    // A token that is given goes first.
    let reg = premium_registry(Some("given"), None, Some("env".to_string()));
    assert!(reg.authorize_admin(Some("Bearer given")));
    assert!(!reg.authorize_admin(Some("Bearer env")));
}

#[test]
fn proposals_are_sampled_as_client_writes() {
    let ok: Result<ProposeOk, MultiRaftError> = Ok(ProposeOk { index: 7, term: 1 });
    let failed: Result<ProposeOk, MultiRaftError> = Err(MultiRaftError::UnknownGroup(2));
    let s = client_write_sample(2, Duration::from_micros(15), &failed);
    assert_eq!((s.group, s.stage, s.ok), (2, ProposeStage::ClientWrite, false));
    assert_eq!(s.duration, Duration::from_micros(15));

    let mut reg = premium_registry(None, None, None);
    record_client_write(&mut reg, 2, Duration::from_micros(40), &ok);
    record_client_write(&mut reg, 2, Duration::from_micros(15), &failed);
    let stages = &reg.metrics_snapshots()[0].stages;
    assert_eq!(stages.len(), 1);
    assert_eq!((stages[0].group, stages[0].stage), (2, ProposeStage::ClientWrite));
    assert_eq!((stages[0].count, stages[0].ok_count, stages[0].max_us), (2, 1, 40));
}

#[test]
fn urls_are_escaped_as_json() {
    let url = "a\"b\\c\u{8}\t\n\u{c}\r\u{1}\u{1f}\u{7f}\u{e9}";
    let cmd = OpsCommand::Replicate { group: 3, fetch_url: Some(url.to_string()) };
    match request("http://n", &cmd) {
        OpsRequest::Post { body, .. } => assert_eq!(
            body,
            "{\"fetch_url\":\"a\\\"b\\\\c\\b\\t\\n\\f\\r\\u0001\\u001f\u{7f}\u{e9}\"}"
        ),
        _ => panic!("a post was expected"),
    }
}

#[test]
fn one_history_gives_one_report() {
    let told = [
        sample(2, ProposeStage::Applied, 9, true),
        sample(1, ProposeStage::QuorumAck, 4, false),
        sample(2, ProposeStage::Applied, 3, true),
    ];
    let mut a = SegmentedLatencyMetrics::new();
    let mut b = SegmentedLatencyMetrics::new();
    // What was told before a stop makes no difference.
    b.record_stage(sample(7, ProposeStage::Committed, 1, true));
    b.on_node_stop(&PluginContext { node_id: 1 });
    for s in told {
        a.record_stage(s);
        b.record_stage(s);
    }
    assert_eq!(a.snapshot().stages, b.snapshot().stages);
    assert_eq!(a.snapshot().stages.len(), 2);

    let mut agg = StageAgg::default();
    agg.record(Duration::from_micros(9), true);
    agg.record(Duration::from_micros(3), true);
    assert_eq!(agg.summary(2, ProposeStage::Applied), a.snapshot().stages[1]);
}
