//! Recovering a group from a snapshot that another node built.

use vstd::prelude::*;

use crate::catalog;
use crate::catalog::CatalogEntry;
use crate::error;
use crate::error::MultiRaftError;
use crate::multiraft::MultiRaft;
use crate::order;
use crate::snapshot;
use crate::snapshot::{RecoverOutcome, SnapshotAdvertisement, SnapshotRuntime};
use crate::text;
use crate::type_config::GroupId;

verus! {

/// The remote position is newer: its term is higher, or the terms are the same and its index is.
pub open spec fn is_newer(remote: (u64, u64), local: (u64, u64)) -> bool {
    order::pair_lt(local, remote)
}

/// Whether the position (`remote_term`, `remote_index`) is newer than the local one.
pub fn log_pos_newer(
    remote_term: u64,
    remote_index: u64,
    local_term: u64,
    local_index: u64,
) -> (r: bool)
    ensures
        r == is_newer((remote_term, remote_index), (local_term, local_index)),
{
    order::pair_less((local_term, local_index), (remote_term, remote_index))
}

/// Newer is a strict order in which any two different positions compare: no position is newer than
/// itself, so what has been installed is not installed again.
pub proof fn law_newer_is_a_strict_order(a: (u64, u64), b: (u64, u64), c: (u64, u64))
    ensures
        !is_newer(a, a),
        is_newer(a, b) && is_newer(b, c) ==> is_newer(a, c),
        is_newer(a, b) ==> !is_newer(b, a),
        a == b || is_newer(a, b) || is_newer(b, a),
{
}

/// A snapshot that was fetched from another node.
#[derive(Debug)]
pub struct FetchedSnapshot {
    pub last_index: u64,
    pub last_term: u64,
    pub snapshot_id: Option<String>,
    pub data: Vec<u8>,
    pub sha256_hex: String,
}

/// Where downloads are kept while they are under way.
#[derive(Debug)]
pub enum TempDir {
    /// Below the system's directory for temporary files.
    System(String),
    /// In this directory.
    At(String),
}

/// How snapshots are downloaded.
#[derive(Debug)]
pub struct FetchPlan {
    /// Bytes for each ranged request, at least one.
    pub chunk: usize,
    pub temp_dir: TempDir,
}

/// How a node pulls from its upstream in the background.
#[derive(Debug)]
pub struct DaisyLoop {
    pub base: String,
    /// Milliseconds between two rounds, at least one.
    pub interval_ms: u64,
    pub fetch: FetchPlan,
}

/// `plan` is how a node with the configuration `c` downloads.
pub open spec fn is_fetch_plan(c: crate::config::ClusterConfig, plan: FetchPlan) -> bool {
    &&& plan.chunk == (if c.snapshot_fetch_chunk_bytes < 1 {
        1
    } else {
        c.snapshot_fetch_chunk_bytes
    })
    &&& match plan.temp_dir {
        TempDir::System(name) => c.data_dir@.len() == 0 && name@ == "multiraft-snap-fetch"@,
        TempDir::At(dir) => c.data_dir@.len() > 0 && dir@ == text::joined(
            c.data_dir@,
            "snap-fetch-tmp"@,
        ),
    }
}

/// Why a snapshot was not pulled and installed.
#[derive(Debug)]
pub enum PullError {
    UnknownGroup(GroupId),
    Failed(String),
}

/// What recovering from an advertised snapshot does.
#[derive(Debug)]
pub enum RecoverStep {
    /// Nothing: this is what came of it.
    Return(RecoverOutcome),
    /// Fetch the snapshot at `url` and install it.
    Pull { url: String, last_index: u64, last_term: u64 },
}

/// The position up to which a node has applied the log of `group`; (0, 0) where it knows of none.
pub open spec fn applied_or_zero(node: MultiRaft, group: GroupId) -> (u64, u64) {
    match node.view_of(group) {
        Some(v) => match v.applied {
            Some(p) => p,
            None => (0, 0),
        },
        None => (0, 0),
    }
}

/// Why a node pulls from its upstream: once, on request, or as one round of the background loop.
#[derive(Clone, Copy, Debug, PartialEq, Eq, Structural)]
pub enum DaisyMode {
    Request,
    Round,
}

/// Where a pull from upstream stands.
#[derive(Debug)]
pub enum DaisyStage {
    /// The upstream's latest snapshot is being fetched.
    Fetching,
    /// It is being written to the catalog under `id`. `known`: the node had the group when the
    /// snapshot came.
    Writing { snap: FetchedSnapshot, id: String, known: bool },
    /// It is being installed.
    Installing { snap: FetchedSnapshot, id: String },
    /// Over.
    Done,
}

/// What the caller reports.
#[derive(Debug)]
pub enum DaisyEvent {
    Fetched(Result<FetchedSnapshot, String>),
    Written(Result<(), String>),
    Installed(Result<(), String>),
    /// The group left the node before the snapshot could be installed.
    GroupGone,
}

/// What the caller is to do next.
#[derive(Debug)]
pub enum DaisyAction {
    /// Write the snapshot of the stage to the catalog.
    Write,
    /// Install the snapshot of the stage.
    Install,
    /// The pull is over. `persist`: the advertisements are to be written to disk.
    Return { result: Result<RecoverOutcome, MultiRaftError>, persist: bool },
}

/// Each stage awaits a report of its own.
pub open spec fn daisy_awaits(stage: DaisyStage, event: DaisyEvent) -> bool {
    match stage {
        DaisyStage::Fetching => event is Fetched,
        DaisyStage::Writing { .. } => event is Written,
        DaisyStage::Installing { .. } => event is Installed || event is GroupGone,
        DaisyStage::Done => false,
    }
}

/// The URL of the upstream's latest snapshot of `group`.
pub open spec fn upstream_url(base: Seq<char>, group: GroupId) -> Seq<char> {
    text::without_trailing_slashes(base) + "/snapshots/"@ + text::decimal(group as nat)
        + "/latest"@
}

/// What a node without a catalog answers.
pub open spec fn no_catalog_text(mode: DaisyMode) -> Seq<char> {
    match mode {
        DaisyMode::Request =>
        "sync_from_daisy_upstream: SnapshotCatalog required (StandbyOffload + data_dir)"@,
        DaisyMode::Round => "daisy sync: SnapshotCatalog required (StandbyOffload + data_dir)"@,
    }
}

/// What a failed installation is called.
pub open spec fn install_label(mode: DaisyMode) -> Seq<char> {
    match mode {
        DaisyMode::Request => "install_durable_snapshot: "@,
        DaisyMode::Round => "daisy install: "@,
    }
}

/// The id under which a fetched snapshot is kept: its own, or its index and term.
pub open spec fn kept_id(snap: FetchedSnapshot) -> Seq<char> {
    match snap.snapshot_id {
        Some(id) => id@,
        None => catalog::snapshot_dir_name(snap.last_index, snap.last_term),
    }
}

/// `ad` advertises the snapshot `snap`, kept under `id`, of `group`.
pub open spec fn is_relay_ad(
    rt: SnapshotRuntime,
    group: GroupId,
    snap: FetchedSnapshot,
    id: String,
    ad: SnapshotAdvertisement,
) -> bool {
    &&& ad.group == group
    &&& ad.last_index == snap.last_index
    &&& ad.last_term == snap.last_term
    &&& ad.snapshot_id == id
    &&& ad.size == snap.data@.len()
    &&& ad.sha256_hex == snap.sha256_hex
    &&& ad.fetch_url@ == snapshot::advertised_url(rt.admin_advertise_addr, group)
}

/// The pull ends: the snapshot is advertised, and counts as installed.
pub open spec fn daisy_finishes(
    before: MultiRaft,
    group: GroupId,
    snap: FetchedSnapshot,
    id: String,
    after: MultiRaft,
    next: DaisyStage,
    action: DaisyAction,
) -> bool {
    &&& next is Done
    &&& action matches DaisyAction::Return { result: Ok(outcome), persist }
    &&& outcome == (RecoverOutcome::Installed {
        last_index: snap.last_index,
        last_term: snap.last_term,
    })
    &&& persist == (before.snapshot_rt.data_dir@.len() > 0)
    &&& after == (MultiRaft { snapshot_rt: after.snapshot_rt, ..before })
    &&& after.snapshot_rt == (SnapshotRuntime { ads: after.snapshot_rt.ads, ..before.snapshot_rt })
    &&& exists|ad: SnapshotAdvertisement| #[trigger]
        is_relay_ad(before.snapshot_rt, group, snap, id, ad) && after.snapshot_rt.ads@
            == snapshot::with_ad(before.snapshot_rt.ads@, ad)
}

/// The pull ends with an error of the text `m`, and nothing is advertised.
pub open spec fn daisy_fails(next: DaisyStage, action: DaisyAction, m: Seq<char>) -> bool {
    &&& next is Done
    &&& action matches DaisyAction::Return { result: Err(e), persist }
    &&& !persist
    &&& error::is_other(e, m)
}

/// What one step of a pull from upstream does: from `before` and `stage`, on `event`, to `after`
/// and `next`, asking for `action`.
pub open spec fn daisy_moves(
    before: MultiRaft,
    mode: DaisyMode,
    group: GroupId,
    stage: DaisyStage,
    event: DaisyEvent,
    after: MultiRaft,
    next: DaisyStage,
    action: DaisyAction,
) -> bool {
    match (stage, event) {
        (DaisyStage::Fetching, DaisyEvent::Fetched(Err(m))) => {
            &&& after == before
            &&& next is Done
            &&& action matches DaisyAction::Return { result: Ok(outcome), persist }
            &&& !persist
            &&& outcome == (RecoverOutcome::FetchFailed { error: m })
        },
        (DaisyStage::Fetching, DaisyEvent::Fetched(Ok(snap))) => {
            let local = applied_or_zero(before, group);
            &&& after == before
            &&& if !is_newer((snap.last_term, snap.last_index), (local.1, local.0)) {
                &&& next is Done
                &&& action matches DaisyAction::Return { result: Ok(outcome), persist }
                &&& !persist
                &&& outcome == (RecoverOutcome::SkippedNotNewer {
                    local_index: local.0,
                    ad_index: snap.last_index,
                })
            } else if before.snapshot_rt.catalog is None {
                daisy_fails(next, action, no_catalog_text(mode))
            } else {
                &&& action is Write
                &&& next matches DaisyStage::Writing { snap: s, id, known }
                &&& s == snap
                &&& id@ == kept_id(snap)
                &&& known == (before.view_of(group) is Some)
            }
        },
        (DaisyStage::Writing { .. }, DaisyEvent::Written(Err(m))) => after == before && daisy_fails(
            next,
            action,
            "daisy catalog write: "@ + m@,
        ),
        (DaisyStage::Writing { snap, id, known }, DaisyEvent::Written(Ok(_))) => {
            let install = match mode {
                DaisyMode::Request => before.view_of(group) is Some,
                DaisyMode::Round => known,
            };
            if install {
                &&& after == before
                &&& action is Install
                &&& next == (DaisyStage::Installing { snap, id })
            } else {
                daisy_finishes(before, group, snap, id, after, next, action)
            }
        },
        (DaisyStage::Installing { .. }, DaisyEvent::GroupGone) => {
            &&& after == before
            &&& next is Done
            &&& action == (DaisyAction::Return {
                result: Err(MultiRaftError::UnknownGroup(group)),
                persist: false,
            })
        },
        (DaisyStage::Installing { .. }, DaisyEvent::Installed(Err(m))) => after == before
            && daisy_fails(next, action, install_label(mode) + m@),
        (DaisyStage::Installing { snap, id }, DaisyEvent::Installed(Ok(_))) => daisy_finishes(
            before,
            group,
            snap,
            id,
            after,
            next,
            action,
        ),
        _ => true,
    }
}

fn fail(m: String) -> (r: (DaisyStage, DaisyAction))
    ensures
        daisy_fails(r.0, r.1, m@),
{
    (
        DaisyStage::Done,
        DaisyAction::Return { result: Err(MultiRaftError::Other(m)), persist: false },
    )
}

fn finish_with(outcome: RecoverOutcome) -> (r: (DaisyStage, DaisyAction))
    ensures
        r.0 is Done,
        r.1 == (DaisyAction::Return { result: Ok(outcome), persist: false }),
{
    (DaisyStage::Done, DaisyAction::Return { result: Ok(outcome), persist: false })
}

impl MultiRaft {
    /// How this node downloads snapshots.
    pub fn fetch_snapshot_bytes(&self) -> (r: FetchPlan)
        ensures
            is_fetch_plan(self.config, r),
    {
        let chunk: usize = if self.config.snapshot_fetch_chunk_bytes < 1 {
            1
        } else {
            self.config.snapshot_fetch_chunk_bytes
        };
        let temp_dir = if self.config.data_dir.as_str().is_empty() {
            TempDir::System("multiraft-snap-fetch".to_owned())
        } else {
            TempDir::At(text::join_path(self.config.data_dir.as_str(), "snap-fetch-tmp"))
        };
        FetchPlan { chunk, temp_dir }
    }

    /// What installing a snapshot of `group` comes to: `reply` is what the state machine said, if
    /// this node has the group.
    pub fn install_durable_snapshot(&self, group: GroupId, reply: Result<(), String>) -> (r: Result<
        (),
        PullError,
    >)
        ensures
            match self.view_of(group) {
                None => r == Err::<(), PullError>(PullError::UnknownGroup(group)),
                Some(_) => match reply {
                    Ok(_) => r is Ok,
                    Err(m) => r matches Err(PullError::Failed(t)) && t@
                        == "install_durable_snapshot: "@ + m@,
                },
            },
    {
        match self.raft(group) {
            Err(_) => Err(PullError::UnknownGroup(group)),
            Ok(_) => match reply {
                Ok(()) => Ok(()),
                Err(m) => Err(
                    PullError::Failed(text::concat("install_durable_snapshot: ", m.as_str())),
                ),
            },
        }
    }

    /// The snapshot to install, once it was fetched.
    pub fn pull_and_install_snapshot(fetched: Result<FetchedSnapshot, String>) -> (r: Result<
        FetchedSnapshot,
        PullError,
    >)
        ensures
            match fetched {
                Ok(snap) => r == Ok::<FetchedSnapshot, PullError>(snap),
                Err(m) => r == Err::<FetchedSnapshot, PullError>(PullError::Failed(m)),
            },
    {
        match fetched {
            Ok(snap) => Ok(snap),
            Err(m) => Err(PullError::Failed(m)),
        }
    }

    /// The snapshot of another node's catalog to install: its latest, which there must be.
    pub fn try_install_from_standby_catalog(latest: Result<Option<CatalogEntry>, String>) -> (r:
        Result<CatalogEntry, MultiRaftError>)
        ensures
            match latest {
                Ok(Some(entry)) => r == Ok::<CatalogEntry, MultiRaftError>(entry),
                Ok(None) => r matches Err(e) && error::is_other(
                    e,
                    "no snapshot in standby catalog"@,
                ),
                Err(m) => r matches Err(e) && error::is_other(e, "catalog latest: "@ + m@),
            },
    {
        match latest {
            Ok(Some(entry)) => Ok(entry),
            Ok(None) => Err(MultiRaftError::Other("no snapshot in standby catalog".to_owned())),
            Err(m) => Err(MultiRaftError::Other(text::concat("catalog latest: ", m.as_str()))),
        }
    }

    /// The bytes of that snapshot, which there must be.
    pub fn standby_catalog_data(read: Result<Option<Vec<u8>>, String>) -> (r: Result<
        Vec<u8>,
        MultiRaftError,
    >)
        ensures
            match read {
                Ok(Some(data)) => r == Ok::<Vec<u8>, MultiRaftError>(data),
                Ok(None) => r matches Err(e) && error::is_other(e, "snapshot data missing"@),
                Err(m) => r matches Err(e) && error::is_other(e, "catalog read: "@ + m@),
            },
    {
        match read {
            Ok(Some(data)) => Ok(data),
            Ok(None) => Err(MultiRaftError::Other("snapshot data missing".to_owned())),
            Err(m) => Err(MultiRaftError::Other(text::concat("catalog read: ", m.as_str()))),
        }
    }

    /// Whether `group` recovers from the newest advertised snapshot: there must be one, and it must
    /// be newer than what this node has applied.
    pub fn try_recover_from_standby_ads(&self, group: GroupId) -> (r: RecoverStep)
        ensures
            ({
                let local = applied_or_zero(*self, group);
                let ads = self.snapshot_rt.ads@;
                match r {
                    RecoverStep::Return(RecoverOutcome::SkippedNoAd) => snapshot::none_fetchable(
                        ads,
                        group,
                    ),
                    RecoverStep::Return(
                        RecoverOutcome::SkippedNotNewer { local_index, ad_index },
                    ) => exists|p: int| #[trigger]
                        snapshot::is_best(ads, group, p) && !is_newer(
                            (ads[p].last_term, ads[p].last_index),
                            (local.1, local.0),
                        ) && local_index == local.0 && ad_index == ads[p].last_index,
                    RecoverStep::Pull { url, last_index, last_term } => exists|p: int| #[trigger]
                        snapshot::is_best(ads, group, p) && is_newer(
                            (ads[p].last_term, ads[p].last_index),
                            (local.1, local.0),
                        ) && url@ == ads[p].fetch_url@ && last_index == ads[p].last_index
                            && last_term == ads[p].last_term,
                    _ => false,
                }
            }),
    {
        match self.best_snapshot_ad(group) {
            None => RecoverStep::Return(RecoverOutcome::SkippedNoAd),
            Some(ad) => {
                let (local_index, local_term) = match self.local_applied(group) {
                    Some(p) => p,
                    None => (0, 0),
                };
                if !log_pos_newer(ad.last_term, ad.last_index, local_term, local_index) {
                    return RecoverStep::Return(
                        RecoverOutcome::SkippedNotNewer { local_index, ad_index: ad.last_index },
                    );
                }
                RecoverStep::Pull {
                    url: ad.fetch_url.clone(),
                    last_index: ad.last_index,
                    last_term: ad.last_term,
                }
            },
        }
    }

    /// What pulling an advertised snapshot at (`last_index`, `last_term`) comes to: a group that is
    /// unknown is an error, any other failure an outcome.
    pub fn recovered(last_index: u64, last_term: u64, pulled: Result<(), PullError>) -> (r: Result<
        RecoverOutcome,
        MultiRaftError,
    >)
        ensures
            match pulled {
                Ok(_) => r == Ok::<RecoverOutcome, MultiRaftError>(
                    RecoverOutcome::Installed { last_index, last_term },
                ),
                Err(PullError::UnknownGroup(g)) => r == Err::<RecoverOutcome, MultiRaftError>(
                    MultiRaftError::UnknownGroup(g),
                ),
                Err(PullError::Failed(m)) => r == Ok::<RecoverOutcome, MultiRaftError>(
                    RecoverOutcome::FetchFailed { error: m },
                ),
            },
    {
        match pulled {
            Ok(()) => Ok(RecoverOutcome::Installed { last_index, last_term }),
            Err(PullError::UnknownGroup(g)) => Err(MultiRaftError::UnknownGroup(g)),
            Err(PullError::Failed(m)) => Ok(RecoverOutcome::FetchFailed { error: m }),
        }
    }

    /// The URL at which this node asks its upstream for the latest snapshot of `group`.
    pub fn sync_from_daisy_upstream(&self, group: GroupId) -> (r: Result<String, MultiRaftError>)
        ensures
            match self.config.daisy_upstream_base {
                Some(base) => r matches Ok(url) && url@ == upstream_url(base@, group),
                None => r matches Err(e) && error::is_other(
                    e,
                    "sync_from_daisy_upstream: daisy_upstream_base not set"@,
                ),
            },
    {
        match &self.config.daisy_upstream_base {
            Some(base) => Ok(daisy_url(base.as_str(), group)),
            None => Err(
                MultiRaftError::Other(
                    "sync_from_daisy_upstream: daisy_upstream_base not set".to_owned(),
                ),
            ),
        }
    }

    /// How this node pulls from its upstream in the background, if it has one.
    pub fn spawn_daisy_sync_loop(&self) -> (r: Option<DaisyLoop>)
        ensures
            match (r, self.config.daisy_upstream_base) {
                (Some(l), Some(base)) => {
                    &&& l.base@ == base@
                    &&& l.interval_ms == (if self.config.daisy_sync_interval_ms < 1 {
                        1
                    } else {
                        self.config.daisy_sync_interval_ms
                    })
                    &&& is_fetch_plan(self.config, l.fetch)
                },
                (None, None) => true,
                _ => false,
            },
    {
        match &self.config.daisy_upstream_base {
            None => None,
            Some(base) => Some(
                DaisyLoop {
                    base: base.clone(),
                    interval_ms: if self.config.daisy_sync_interval_ms < 1 {
                        1
                    } else {
                        self.config.daisy_sync_interval_ms
                    },
                    fetch: self.fetch_snapshot_bytes(),
                },
            ),
        }
    }

    fn daisy_finish(&mut self, group: GroupId, snap: FetchedSnapshot, id: String) -> (r: (
        DaisyStage,
        DaisyAction,
    ))
        ensures
            daisy_finishes(*old(self), group, snap, id, *final(self), r.0, r.1),
    {
        let ad = SnapshotAdvertisement {
            group,
            last_index: snap.last_index,
            last_term: snap.last_term,
            snapshot_id: id,
            size: snap.data.len() as u64,
            sha256_hex: snap.sha256_hex,
            fetch_url: snapshot::fetch_url(&self.snapshot_rt.admin_advertise_addr, group),
        };
        assert(is_relay_ad(self.snapshot_rt, group, snap, id, ad));
        let persist = self.snapshot_rt.record_ad(ad);
        let outcome = RecoverOutcome::Installed {
            last_index: snap.last_index,
            last_term: snap.last_term,
        };
        (DaisyStage::Done, DaisyAction::Return { result: Ok(outcome), persist })
    }

    /// One step of a pull from upstream. A snapshot that is newer than what this node has applied
    /// is written to the catalog, installed where the node has the group, and advertised in turn.
    pub fn daisy_sync_once(
        &mut self,
        mode: DaisyMode,
        group: GroupId,
        stage: DaisyStage,
        event: DaisyEvent,
    ) -> (r: (DaisyStage, DaisyAction))
        requires
            daisy_awaits(stage, event),
        ensures
            daisy_moves(*old(self), mode, group, stage, event, *final(self), r.0, r.1),
    {
        match stage {
            DaisyStage::Fetching => match event {
                DaisyEvent::Fetched(Ok(snap)) => {
                    let (local_index, local_term) = match self.local_applied(group) {
                        Some(p) => p,
                        None => (0, 0),
                    };
                    if !log_pos_newer(snap.last_term, snap.last_index, local_term, local_index) {
                        return finish_with(
                            RecoverOutcome::SkippedNotNewer {
                                local_index,
                                ad_index: snap.last_index,
                            },
                        );
                    }
                    if self.snapshot_rt.catalog.is_none() {
                        return match mode {
                            DaisyMode::Request => fail(
                                "sync_from_daisy_upstream: SnapshotCatalog required (StandbyOffload + data_dir)".to_owned(),
                            ),
                            DaisyMode::Round => fail(
                                "daisy sync: SnapshotCatalog required (StandbyOffload + data_dir)".to_owned(),
                            ),
                        };
                    }
                    let id = match &snap.snapshot_id {
                        Some(id) => id.clone(),
                        None => catalog::dir_name(snap.last_index, snap.last_term),
                    };
                    let known = self.groups_has(group);
                    (DaisyStage::Writing { snap, id, known }, DaisyAction::Write)
                },
                DaisyEvent::Fetched(Err(error)) => finish_with(
                    RecoverOutcome::FetchFailed { error },
                ),
                _ => (DaisyStage::Done, DaisyAction::Write),
            },
            DaisyStage::Writing { snap, id, known } => match event {
                DaisyEvent::Written(Err(m)) => fail(
                    text::concat("daisy catalog write: ", m.as_str()),
                ),
                _ => {
                    let install = match mode {
                        DaisyMode::Request => self.groups_has(group),
                        DaisyMode::Round => known,
                    };
                    if install {
                        (DaisyStage::Installing { snap, id }, DaisyAction::Install)
                    } else {
                        self.daisy_finish(group, snap, id)
                    }
                },
            },
            DaisyStage::Installing { snap, id } => match event {
                DaisyEvent::Installed(Err(m)) => match mode {
                    DaisyMode::Request => fail(
                        text::concat("install_durable_snapshot: ", m.as_str()),
                    ),
                    DaisyMode::Round => fail(text::concat("daisy install: ", m.as_str())),
                },
                DaisyEvent::GroupGone => (
                    DaisyStage::Done,
                    DaisyAction::Return {
                        result: Err(MultiRaftError::UnknownGroup(group)),
                        persist: false,
                    },
                ),
                _ => self.daisy_finish(group, snap, id),
            },
            DaisyStage::Done => (DaisyStage::Done, DaisyAction::Write),
        }
    }

    fn groups_has(&self, group: GroupId) -> (r: bool)
        ensures
            r == (self.view_of(group) is Some),
    {
        match self.raft(group) {
            Ok(_) => true,
            Err(_) => false,
        }
    }
}

/// The URL of the upstream's latest snapshot of `group`.
pub fn daisy_url(base: &str, group: GroupId) -> (r: String)
    ensures
        r@ == upstream_url(base@, group),
{
    let mut url = text::trim_trailing_slashes(base);
    url.append("/snapshots/");
    url.append(text::decimal_text(group).as_str());
    url.append("/latest");
    url
}

/// One step of a pull from upstream, as it was taken.
pub ghost struct DaisyTaken {
    pub before: MultiRaft,
    pub stage: DaisyStage,
    pub event: DaisyEvent,
    pub after: MultiRaft,
    pub next: DaisyStage,
    pub action: DaisyAction,
}

/// Steps of one pull that follow on one another. Between two steps the node may have changed.
pub open spec fn is_daisy_run(mode: DaisyMode, group: GroupId, run: Seq<DaisyTaken>) -> bool {
    &&& run.len() > 0 ==> run[0].stage is Fetching
    &&& forall|i: int|
        0 <= i < run.len() ==> daisy_awaits((#[trigger] run[i]).stage, run[i].event) && daisy_moves(
            run[i].before,
            mode,
            group,
            run[i].stage,
            run[i].event,
            run[i].after,
            run[i].next,
            run[i].action,
        )
    &&& forall|i: int, j: int|
        0 <= i && j == i + 1 && j < run.len() ==> (#[trigger] run[j]).stage == (
        #[trigger] run[i]).next
}

/// The snapshot that a stage is at work on.
pub open spec fn at_work_on(stage: DaisyStage) -> Option<FetchedSnapshot> {
    match stage {
        DaisyStage::Writing { snap, .. } => Some(snap),
        DaisyStage::Installing { snap, .. } => Some(snap),
        _ => None,
    }
}

/// Every stage past the first is at work on the snapshot that was fetched, or the pull is over.
proof fn lemma_same_snapshot(mode: DaisyMode, group: GroupId, run: Seq<DaisyTaken>, n: int)
    requires
        is_daisy_run(mode, group, run),
        0 <= n < run.len(),
    ensures
        run[n].next is Done || (run[0].event matches DaisyEvent::Fetched(Ok(snap)) && at_work_on(
            run[n].next,
        ) == Some(snap)),
    decreases n,
{
    if n > 0 {
        lemma_same_snapshot(mode, group, run, n - 1);
        assert(run[n].stage == run[n - 1].next);
    }
}

/// The id under which a stage keeps its snapshot.
pub open spec fn id_of(stage: DaisyStage) -> String {
    match stage {
        DaisyStage::Writing { id, .. } => id,
        DaisyStage::Installing { id, .. } => id,
        _ => arbitrary(),
    }
}

/// Every stage past the first keeps the fetched snapshot under its id, or the pull is over.
pub proof fn lemma_same_snapshot_and_id(
    mode: DaisyMode,
    group: GroupId,
    run: Seq<DaisyTaken>,
    n: int,
)
    requires
        is_daisy_run(mode, group, run),
        0 <= n < run.len(),
    ensures
        run[n].next is Done || (run[0].event matches DaisyEvent::Fetched(Ok(snap)) && at_work_on(
            run[n].next,
        ) == Some(snap) && id_of(run[n].next)@ == kept_id(snap) && is_newer(
            (snap.last_term, snap.last_index),
            (
                applied_or_zero(run[0].before, group).1,
                applied_or_zero(run[0].before, group).0,
            ),
        )),
    decreases n,
{
    if n > 0 {
        lemma_same_snapshot_and_id(mode, group, run, n - 1);
        assert(run[n].stage == run[n - 1].next);
    }
}

/// The stage of every step past the first is at work on the fetched snapshot, under its id.
pub proof fn lemma_stage_is_of_the_fetched(
    mode: DaisyMode,
    group: GroupId,
    run: Seq<DaisyTaken>,
    n: int,
)
    requires
        is_daisy_run(mode, group, run),
        0 < n < run.len() || (n == 0 && run.len() > 0),
    ensures
        n > 0 ==> (run[0].event matches DaisyEvent::Fetched(Ok(snap)) && at_work_on(run[n].stage)
            == Some(snap) && id_of(run[n].stage)@ == kept_id(snap) && is_newer(
            (snap.last_term, snap.last_index),
            (
                applied_or_zero(run[0].before, group).1,
                applied_or_zero(run[0].before, group).0,
            ),
        )),
{
    if n > 0 {
        lemma_same_snapshot_and_id(mode, group, run, n - 1);
        assert(run[n].stage == run[n - 1].next);
    }
}

/// An advertisement that a pull did not record was there before.
pub proof fn lemma_ad_was_there(
    mode: DaisyMode,
    group: GroupId,
    run: Seq<DaisyTaken>,
    n: int,
    k: int,
)
    requires
        is_daisy_run(mode, group, run),
        0 < n < run.len(),
        run[n].action is Return,
        run[n].action->result is Ok,
        run[n].action->result->Ok_0 is Installed,
        0 <= k < run[n].after.snapshot_rt.ads@.len() - 1,
    ensures
        run[n].before.snapshot_rt.ads@.contains(run[n].after.snapshot_rt.ads@[k]),
{
    lemma_stage_is_of_the_fetched(mode, group, run, n);
    let snap = run[0].event->Fetched_0->Ok_0;
    let id = id_of(run[n].stage);
    let was = run[n].before.snapshot_rt.ads@;
    let ad = choose|ad: SnapshotAdvertisement| #[trigger]
        is_relay_ad(run[n].before.snapshot_rt, group, snap, id, ad)
            && run[n].after.snapshot_rt.ads@ == snapshot::with_ad(was, ad);
    let p = |a: SnapshotAdvertisement| !snapshot::same_snapshot(a, ad);
    let at = snapshot::lemma_filter_from(was, p, k);
    assert(was[at] == run[n].after.snapshot_rt.ads@[k]);
}

/// Nothing is written, installed or advertised but a fetched snapshot that is newer than what the
/// node had applied when it came.
pub proof fn law_only_newer_snapshots_are_installed(
    mode: DaisyMode,
    group: GroupId,
    run: Seq<DaisyTaken>,
    n: int,
)
    requires
        is_daisy_run(mode, group, run),
        0 <= n < run.len(),
        run[n].action is Write || run[n].action is Install || run[n].after != run[n].before,
    ensures
        run[0].event matches DaisyEvent::Fetched(Ok(snap)) && is_newer(
            (snap.last_term, snap.last_index),
            (
                applied_or_zero(run[0].before, group).1,
                applied_or_zero(run[0].before, group).0,
            ),
        ) && (if run[n].next is Done {
            at_work_on(run[n].stage) == Some(snap)
        } else {
            at_work_on(run[n].next) == Some(snap)
        }),
{
    lemma_same_snapshot(mode, group, run, n);
    if n > 0 {
        lemma_same_snapshot(mode, group, run, n - 1);
        assert(run[n].stage == run[n - 1].next);
        lemma_same_snapshot(mode, group, run, 0);
        assert(run[1].stage == run[0].next);
    }
}

/// A pull finds the place at which an upstream advertises: the base URL of a node is the scheme
/// and its address.
pub proof fn law_upstream_url_is_what_is_advertised(addr: Seq<char>, group: GroupId)
    requires
        addr.len() > 0,
        addr.last() != '/',
    ensures
        upstream_url("http://"@ + addr, group) == snapshot::latest_url(addr, group),
        upstream_url("http://"@ + addr + "/"@, group) == snapshot::latest_url(addr, group),
{
    reveal_strlit("/");
    let base = "http://"@ + addr;
    assert(base.last() == addr.last());
    assert(text::without_trailing_slashes(base) == base);
    let slashed = base + "/"@;
    assert(slashed.last() == '/');
    assert(slashed.drop_last() =~= base);
    assert(text::without_trailing_slashes(slashed) == text::without_trailing_slashes(base));
}

} // verus!
