//! Plugins: what they can be told and asked, and the registry that holds them.

use vstd::prelude::*;

use crate::duration::Duration;
use crate::type_config::{GroupId, NodeId};

verus! {

/// What a node tells its plugins of itself.
#[derive(Clone, Copy, Debug, PartialEq, Eq, Structural)]
pub struct PluginContext {
    pub node_id: NodeId,
}

/// A position in a group's log at which a snapshot was taken.
#[derive(Clone, Debug, PartialEq, Eq)]
pub struct LogPosition {
    pub group: GroupId,
    pub term: u64,
    pub index: u64,
    pub snapshot_id: String,
}

/// What is known of one snapshot, without its bytes.
#[derive(Clone, Debug)]
pub struct ArchiveExport {
    pub position: LogPosition,
    pub size: u64,
    pub sha256_hex: String,
    pub data_path_hint: String,
}

/// The stages of a proposal that are timed.
#[derive(Clone, Copy, Debug, PartialEq, Eq, PartialOrd, Ord, Hash, Structural)]
pub enum ProposeStage {
    ClientEnqueued,
    ClientWrite,
    LeaderAppend,
    QuorumAck,
    Committed,
    Applied,
}

impl ProposeStage {
    /// The stage's name.
    pub open spec fn text(self) -> Seq<char> {
        match self {
            ProposeStage::ClientEnqueued => "client_enqueued"@,
            ProposeStage::ClientWrite => "client_write"@,
            ProposeStage::LeaderAppend => "leader_append"@,
            ProposeStage::QuorumAck => "quorum_ack"@,
            ProposeStage::Committed => "committed"@,
            ProposeStage::Applied => "applied"@,
        }
    }

    /// The stage's place in the order in which a proposal passes the stages.
    pub open spec fn number(self) -> u64 {
        match self {
            ProposeStage::ClientEnqueued => 0,
            ProposeStage::ClientWrite => 1,
            ProposeStage::LeaderAppend => 2,
            ProposeStage::QuorumAck => 3,
            ProposeStage::Committed => 4,
            ProposeStage::Applied => 5,
        }
    }

    pub fn as_str(self) -> (r: &'static str)
        ensures
            r@ == self.text(),
    {
        match self {
            ProposeStage::ClientEnqueued => "client_enqueued",
            ProposeStage::ClientWrite => "client_write",
            ProposeStage::LeaderAppend => "leader_append",
            ProposeStage::QuorumAck => "quorum_ack",
            ProposeStage::Committed => "committed",
            ProposeStage::Applied => "applied",
        }
    }
}

/// How long one stage of one proposal took, and whether it succeeded.
#[derive(Clone, Copy, Debug, PartialEq, Eq, Structural)]
pub struct StageSample {
    pub group: GroupId,
    pub stage: ProposeStage,
    pub duration: Duration,
    pub ok: bool,
}

/// The timings of one stage of one group.
#[derive(Clone, Copy, Debug, PartialEq, Eq, Structural)]
pub struct StageLatencySummary {
    pub group: GroupId,
    pub stage: ProposeStage,
    pub count: u64,
    pub ok_count: u64,
    pub sum_us: u64,
    pub max_us: u64,
    pub p50_us: u64,
    pub p99_us: u64,
}

#[derive(Debug)]
pub struct MetricsSnapshot {
    pub plugin: &'static str,
    pub stages: Vec<StageLatencySummary>,
}

#[derive(Debug)]
pub struct ArchiveSnapshot {
    pub plugin: &'static str,
    pub positions: Vec<LogPosition>,
}

/// What a transition policy is asked about.
#[derive(Clone, Copy, Debug, PartialEq, Eq, Structural)]
pub struct TransitionContext {
    pub group: GroupId,
    pub leader_applied_index: u64,
    pub standby_id: NodeId,
    pub standby_applied_index: u64,
    pub standby_is_learner: bool,
}

#[derive(Clone, Copy, Debug, PartialEq, Eq, Structural)]
pub enum TransitionAction {
    NoAction,
    PromoteStandby,
}

#[derive(Clone, Copy, Debug)]
pub struct TransitionSnapshot {
    pub plugin: &'static str,
    pub enabled: bool,
    pub lag_threshold: u64,
    pub last_action: TransitionAction,
}

/// What a plugin has been told or asked.
pub enum PluginEvent {
    NodeStart(PluginContext),
    NodeStop(PluginContext),
    GroupReady(PluginContext, GroupId),
    /// A sample was handed in.
    Sample(StageSample),
    /// A policy was asked, and gave this answer.
    Asked(TransitionContext, TransitionAction),
}

/// A plugin that follows a node's life.
pub trait Plugin: Send + Sync {
    /// What the plugin has been told, in order. A plugin that is verified gives a history of its
    /// own, to which its hooks add; the default is for plugins in unverified code, and no verified
    /// plugin can meet the hooks' contracts with it.
    open spec fn history(&self) -> Seq<PluginEvent> {
        Seq::empty()
    }

    fn name(&self) -> &'static str;

    fn on_node_start(&mut self, ctx: &PluginContext)
        ensures
            final(self).history() == old(self).history().push(PluginEvent::NodeStart(*ctx)),
    ;

    fn on_node_stop(&mut self, ctx: &PluginContext)
        ensures
            final(self).history() == old(self).history().push(PluginEvent::NodeStop(*ctx)),
    ;

    fn on_group_ready(&mut self, ctx: &PluginContext, group: GroupId)
        ensures
            final(self).history() == old(self).history().push(PluginEvent::GroupReady(*ctx, group)),
    ;
}

/// A plugin that collects timings. What it may report follows from what it has been told.
pub trait MetricsPlugin: Send + Sync {
    /// What the plugin has been told, in order. A plugin that is verified gives a history of its
    /// own, to which its hooks add; the default is for plugins in unverified code, and no verified
    /// plugin can meet the hooks' contracts with it.
    open spec fn history(&self) -> Seq<PluginEvent> {
        Seq::empty()
    }

    /// Which snapshots the plugin may give, by what it has been told.
    open spec fn reports(&self) -> spec_fn(Seq<PluginEvent>, MetricsSnapshot) -> bool {
        |h: Seq<PluginEvent>, s: MetricsSnapshot| true
    }

    fn name(&self) -> &'static str;

    fn on_node_start(&mut self, ctx: &PluginContext)
        ensures
            final(self).history() == old(self).history().push(PluginEvent::NodeStart(*ctx)),
            final(self).reports() == old(self).reports(),
    ;

    fn on_node_stop(&mut self, ctx: &PluginContext)
        ensures
            final(self).history() == old(self).history().push(PluginEvent::NodeStop(*ctx)),
            final(self).reports() == old(self).reports(),
    ;

    fn on_group_ready(&mut self, ctx: &PluginContext, group: GroupId)
        ensures
            final(self).history() == old(self).history().push(PluginEvent::GroupReady(*ctx, group)),
            final(self).reports() == old(self).reports(),
    ;

    fn record_stage(&mut self, sample: StageSample)
        ensures
            final(self).history() == old(self).history().push(PluginEvent::Sample(sample)),
            final(self).reports() == old(self).reports(),
    ;

    fn snapshot(&self) -> (r: MetricsSnapshot)
        ensures
            (self.reports())(self.history(), r),
    ;
}

/// A plugin that hands out archived snapshots.
pub trait ArchivePlugin: Send + Sync {
    /// What the plugin has been told, in order. A plugin that is verified gives a history of its
    /// own, to which its hooks add; the default is for plugins in unverified code, and no verified
    /// plugin can meet the hooks' contracts with it.
    open spec fn history(&self) -> Seq<PluginEvent> {
        Seq::empty()
    }

    /// Which snapshots the plugin may give, by what it has been told.
    open spec fn reports(&self) -> spec_fn(Seq<PluginEvent>, ArchiveSnapshot) -> bool {
        |h: Seq<PluginEvent>, s: ArchiveSnapshot| true
    }

    fn name(&self) -> &'static str;

    fn on_node_start(&mut self, ctx: &PluginContext)
        ensures
            final(self).history() == old(self).history().push(PluginEvent::NodeStart(*ctx)),
            final(self).reports() == old(self).reports(),
    ;

    fn on_node_stop(&mut self, ctx: &PluginContext)
        ensures
            final(self).history() == old(self).history().push(PluginEvent::NodeStop(*ctx)),
            final(self).reports() == old(self).reports(),
    ;

    fn on_group_ready(&mut self, ctx: &PluginContext, group: GroupId)
        ensures
            final(self).history() == old(self).history().push(PluginEvent::GroupReady(*ctx, group)),
            final(self).reports() == old(self).reports(),
    ;

    fn list_positions(&self, group: GroupId) -> Vec<LogPosition>;

    fn export_at(&self, group: GroupId, index: u64, term: u64) -> Option<ArchiveExport>;

    /// The bytes of the snapshot at that position, where there is one.
    fn read_bytes_at(&self, group: GroupId, index: u64, term: u64) -> Option<Vec<u8>>;

    fn snapshot(&self) -> (r: ArchiveSnapshot)
        ensures
            (self.reports())(self.history(), r),
    ;
}

/// A policy that has standbys promoted. What it may report and answer follows from what it has been
/// told.
pub trait TransitionPlugin: Send + Sync {
    /// What the plugin has been told, in order. A plugin that is verified gives a history of its
    /// own, to which its hooks add; the default is for plugins in unverified code, and no verified
    /// plugin can meet the hooks' contracts with it.
    open spec fn history(&self) -> Seq<PluginEvent> {
        Seq::empty()
    }

    /// Which snapshots the plugin may give, by what it has been told.
    open spec fn reports(&self) -> spec_fn(Seq<PluginEvent>, TransitionSnapshot) -> bool {
        |h: Seq<PluginEvent>, s: TransitionSnapshot| true
    }

    /// Which answers the plugin may give, by what it has been told.
    open spec fn acts(&self) -> spec_fn(
        Seq<PluginEvent>,
        TransitionContext,
        TransitionAction,
    ) -> bool {
        |h: Seq<PluginEvent>, c: TransitionContext, a: TransitionAction| true
    }

    fn name(&self) -> &'static str;

    fn on_node_start(&mut self, ctx: &PluginContext)
        ensures
            final(self).history() == old(self).history().push(PluginEvent::NodeStart(*ctx)),
            final(self).reports() == old(self).reports(),
            final(self).acts() == old(self).acts(),
    ;

    fn on_node_stop(&mut self, ctx: &PluginContext)
        ensures
            final(self).history() == old(self).history().push(PluginEvent::NodeStop(*ctx)),
            final(self).reports() == old(self).reports(),
            final(self).acts() == old(self).acts(),
    ;

    fn on_group_ready(&mut self, ctx: &PluginContext, group: GroupId)
        ensures
            final(self).history() == old(self).history().push(PluginEvent::GroupReady(*ctx, group)),
            final(self).reports() == old(self).reports(),
            final(self).acts() == old(self).acts(),
    ;

    fn evaluate(&mut self, ctx: &TransitionContext) -> (r: TransitionAction)
        ensures
            (old(self).acts())(old(self).history(), *ctx, r),
            final(self).history() == old(self).history().push(PluginEvent::Asked(*ctx, r)),
            final(self).reports() == old(self).reports(),
            final(self).acts() == old(self).acts(),
    ;

    fn snapshot(&self) -> (r: TransitionSnapshot)
        ensures
            (self.reports())(self.history(), r),
    ;
}

/// A plugin that guards administration.
pub trait AuthPlugin: Send + Sync {
    /// What the plugin has been told, in order. A plugin that is verified gives a history of its
    /// own, to which its hooks add; the default is for plugins in unverified code, and no verified
    /// plugin can meet the hooks' contracts with it.
    open spec fn history(&self) -> Seq<PluginEvent> {
        Seq::empty()
    }

    /// Which answers the plugin may give to a request with an authorization, by what it has been
    /// told.
    open spec fn answers(&self) -> spec_fn(Seq<PluginEvent>, Option<Seq<char>>, bool) -> bool {
        |h: Seq<PluginEvent>, a: Option<Seq<char>>, allow: bool| true
    }

    fn name(&self) -> &'static str;

    fn on_node_start(&mut self, ctx: &PluginContext)
        ensures
            final(self).history() == old(self).history().push(PluginEvent::NodeStart(*ctx)),
            final(self).answers() == old(self).answers(),
    ;

    fn on_node_stop(&mut self, ctx: &PluginContext)
        ensures
            final(self).history() == old(self).history().push(PluginEvent::NodeStop(*ctx)),
            final(self).answers() == old(self).answers(),
    ;

    fn on_group_ready(&mut self, ctx: &PluginContext, group: GroupId)
        ensures
            final(self).history() == old(self).history().push(PluginEvent::GroupReady(*ctx, group)),
            final(self).answers() == old(self).answers(),
    ;

    fn authorize_admin(&self, authorization: Option<&str>) -> (r: bool)
        ensures
            (self.answers())(self.history(), opt_text(authorization), r),
    ;
}

/// The metrics plugin at `j` may give the snapshot `s` as it stands.
pub open spec fn metrics_may_report(
    plugins: Seq<Box<dyn MetricsPlugin>>,
    j: int,
    s: MetricsSnapshot,
) -> bool {
    (plugins[j].reports())(plugins[j].history(), s)
}

/// The archive plugin at `j` may give the snapshot `s` as it stands.
pub open spec fn archive_may_report(
    plugins: Seq<Box<dyn ArchivePlugin>>,
    j: int,
    s: ArchiveSnapshot,
) -> bool {
    (plugins[j].reports())(plugins[j].history(), s)
}

/// The transition plugin at `j` may give the snapshot `s` as it stands.
pub open spec fn transition_may_report(
    plugins: Seq<Box<dyn TransitionPlugin>>,
    j: int,
    s: TransitionSnapshot,
) -> bool {
    (plugins[j].reports())(plugins[j].history(), s)
}

/// The transition plugin at `j` may answer `action` as it stands.
pub open spec fn may_act(
    plugins: Seq<Box<dyn TransitionPlugin>>,
    j: int,
    ctx: TransitionContext,
    action: TransitionAction,
) -> bool {
    (plugins[j].acts())(plugins[j].history(), ctx, action)
}

/// The auth plugin at `j` may answer `allow` to a request with this authorization as it stands.
pub open spec fn may_answer(
    auths: Seq<Box<dyn AuthPlugin>>,
    j: int,
    authorization: Option<Seq<char>>,
    allow: bool,
) -> bool {
    (auths[j].answers())(auths[j].history(), authorization, allow)
}

/// The text of an optional string.
pub open spec fn opt_text(t: Option<&str>) -> Option<Seq<char>> {
    match t {
        Some(s) => Some(s@),
        None => None,
    }
}

/// The place of a kind among the kinds.
pub open spec fn kind_number(k: PluginKind) -> int {
    match k {
        PluginKind::Plain => 0,
        PluginKind::Metrics => 1,
        PluginKind::Archive => 2,
        PluginKind::Transition => 3,
        PluginKind::Auth => 4,
    }
}

fn kind_index(k: PluginKind) -> (r: usize)
    ensures
        r == kind_number(k),
        r < 5,
{
    match k {
        PluginKind::Plain => 0,
        PluginKind::Metrics => 1,
        PluginKind::Archive => 2,
        PluginKind::Transition => 3,
        PluginKind::Auth => 4,
    }
}

/// What a plugin was registered as.
#[derive(Clone, Copy, Debug, PartialEq, Eq, Structural)]
pub enum PluginKind {
    Plain,
    Metrics,
    Archive,
    Transition,
    Auth,
}

/// How many of the registrations are of the kind `k`.
pub open spec fn count_kind(order: Seq<PluginKind>, k: PluginKind) -> nat
    decreases order.len(),
{
    if order.len() == 0 {
        0
    } else {
        count_kind(order.drop_last(), k) + (if order.last() == k {
            1nat
        } else {
            0nat
        })
    }
}

proof fn lemma_count_push(order: Seq<PluginKind>, kind: PluginKind)
    ensures
        forall|k: PluginKind| #[trigger]
            count_kind(order.push(kind), k) == count_kind(order, k) + (if kind == k {
                1nat
            } else {
                0nat
            }),
{
    assert(order.push(kind).drop_last() =~= order);
}

pub proof fn lemma_count_step(order: Seq<PluginKind>, i: int, k: PluginKind)
    requires
        0 <= i < order.len(),
    ensures
        count_kind(order.take(i + 1), k) == count_kind(order.take(i), k) + (if order[i] == k {
            1nat
        } else {
            0nat
        }),
        count_kind(order.take(i + 1), k) <= count_kind(order, k),
    decreases order.len() - i,
{
    assert(order.take(i + 1).drop_last() =~= order.take(i));
    if i + 1 < order.len() {
        lemma_count_step(order, i + 1, k);
    } else {
        assert(order.take(i + 1) =~= order);
    }
}

/// The first `n` plain plugins have been told `event` once more, the others nothing; they are the
/// plugins they were.
pub open spec fn plain_told(
    before: Seq<Box<dyn Plugin>>,
    after: Seq<Box<dyn Plugin>>,
    n: int,
    event: PluginEvent,
) -> bool {
    &&& after.len() == before.len()
    &&& forall|i: int|
        0 <= i < n ==> (#[trigger] after[i]).history() == before[i].history().push(event)
    &&& forall|i: int| n <= i < after.len() ==> #[trigger] after[i] == before[i]
}

/// The plain plugin at `at` has been told `event` once more, the others nothing.
pub open spec fn plain_step(
    before: Seq<Box<dyn Plugin>>,
    after: Seq<Box<dyn Plugin>>,
    at: int,
    event: PluginEvent,
) -> bool {
    &&& after.len() == before.len()
    &&& 0 <= at < after.len()
    &&& after[at].history() == before[at].history().push(event)
    &&& forall|i: int| 0 <= i < after.len() && i != at ==> #[trigger] after[i] == before[i]
}

/// The first `n` metrics plugins have been told `event` once more, the others nothing; they are the
/// plugins they were.
pub open spec fn metrics_told(
    before: Seq<Box<dyn MetricsPlugin>>,
    after: Seq<Box<dyn MetricsPlugin>>,
    n: int,
    event: PluginEvent,
) -> bool {
    &&& after.len() == before.len()
    &&& forall|i: int|
        0 <= i < n ==> (#[trigger] after[i]).history() == before[i].history().push(event)
            && after[i].reports() == before[i].reports()
    &&& forall|i: int| n <= i < after.len() ==> #[trigger] after[i] == before[i]
}

/// The metrics plugin at `at` has been told `event` once more, the others nothing.
pub open spec fn metrics_step(
    before: Seq<Box<dyn MetricsPlugin>>,
    after: Seq<Box<dyn MetricsPlugin>>,
    at: int,
    event: PluginEvent,
) -> bool {
    &&& after.len() == before.len()
    &&& 0 <= at < after.len()
    &&& after[at].history() == before[at].history().push(event)
    &&& after[at].reports() == before[at].reports()
    &&& forall|i: int| 0 <= i < after.len() && i != at ==> #[trigger] after[i] == before[i]
}

/// The first `n` archive plugins have been told `event` once more, the others nothing; they are the
/// plugins they were.
pub open spec fn archive_told(
    before: Seq<Box<dyn ArchivePlugin>>,
    after: Seq<Box<dyn ArchivePlugin>>,
    n: int,
    event: PluginEvent,
) -> bool {
    &&& after.len() == before.len()
    &&& forall|i: int|
        0 <= i < n ==> (#[trigger] after[i]).history() == before[i].history().push(event)
            && after[i].reports() == before[i].reports()
    &&& forall|i: int| n <= i < after.len() ==> #[trigger] after[i] == before[i]
}

/// The archive plugin at `at` has been told `event` once more, the others nothing.
pub open spec fn archive_step(
    before: Seq<Box<dyn ArchivePlugin>>,
    after: Seq<Box<dyn ArchivePlugin>>,
    at: int,
    event: PluginEvent,
) -> bool {
    &&& after.len() == before.len()
    &&& 0 <= at < after.len()
    &&& after[at].history() == before[at].history().push(event)
    &&& after[at].reports() == before[at].reports()
    &&& forall|i: int| 0 <= i < after.len() && i != at ==> #[trigger] after[i] == before[i]
}

/// The first `n` transition plugins have been told `event` once more, the others nothing; they are
/// the plugins they were.
pub open spec fn transition_told(
    before: Seq<Box<dyn TransitionPlugin>>,
    after: Seq<Box<dyn TransitionPlugin>>,
    n: int,
    event: PluginEvent,
) -> bool {
    &&& after.len() == before.len()
    &&& forall|i: int|
        0 <= i < n ==> (#[trigger] after[i]).history() == before[i].history().push(event)
            && after[i].reports() == before[i].reports()
            && after[i].acts() == before[i].acts()
    &&& forall|i: int| n <= i < after.len() ==> #[trigger] after[i] == before[i]
}

/// The transition plugin at `at` has been told `event` once more, the others nothing.
pub open spec fn transition_step(
    before: Seq<Box<dyn TransitionPlugin>>,
    after: Seq<Box<dyn TransitionPlugin>>,
    at: int,
    event: PluginEvent,
) -> bool {
    &&& after.len() == before.len()
    &&& 0 <= at < after.len()
    &&& after[at].history() == before[at].history().push(event)
    &&& after[at].reports() == before[at].reports()
    &&& after[at].acts() == before[at].acts()
    &&& forall|i: int| 0 <= i < after.len() && i != at ==> #[trigger] after[i] == before[i]
}

/// The first `n` auth plugins have been told `event` once more, the others nothing; they are the
/// plugins they were.
pub open spec fn auth_told(
    before: Seq<Box<dyn AuthPlugin>>,
    after: Seq<Box<dyn AuthPlugin>>,
    n: int,
    event: PluginEvent,
) -> bool {
    &&& after.len() == before.len()
    &&& forall|i: int|
        0 <= i < n ==> (#[trigger] after[i]).history() == before[i].history().push(event)
            && after[i].answers() == before[i].answers()
    &&& forall|i: int| n <= i < after.len() ==> #[trigger] after[i] == before[i]
}

/// The auth plugin at `at` has been told `event` once more, the others nothing.
pub open spec fn auth_step(
    before: Seq<Box<dyn AuthPlugin>>,
    after: Seq<Box<dyn AuthPlugin>>,
    at: int,
    event: PluginEvent,
) -> bool {
    &&& after.len() == before.len()
    &&& 0 <= at < after.len()
    &&& after[at].history() == before[at].history().push(event)
    &&& after[at].answers() == before[at].answers()
    &&& forall|i: int| 0 <= i < after.len() && i != at ==> #[trigger] after[i] == before[i]
}

/// `after` is `before` with `one` behind it.
pub open spec fn is_extended<T>(before: Seq<T>, after: Seq<T>, one: Option<T>) -> bool {
    &&& one is Some
    &&& after.len() == before.len() + 1
    &&& after[before.len() as int] == one->0
    &&& forall|i: int| 0 <= i < before.len() ==> #[trigger] after[i] == before[i]
}

/// Puts `one`, which is there, behind `v`.
fn extend<T>(v: &mut Vec<T>, one: Option<T>)
    requires
        one is Some,
    ensures
        is_extended(old(v)@, final(v)@, one),
{
    match one {
        Some(x) => v.push(x),
        None => {},
    }
}

/// The plugins of a node.
pub struct PluginRegistry {
    pub plain: Vec<Box<dyn Plugin>>,
    pub metrics: Vec<Box<dyn MetricsPlugin>>,
    pub archive: Vec<Box<dyn ArchivePlugin>>,
    pub transition: Vec<Box<dyn TransitionPlugin>>,
    pub auth: Vec<Box<dyn AuthPlugin>>,
    /// The kinds of the plugins, in the order of registration.
    pub order: Vec<PluginKind>,
    pub log: CallLog,
}

/// The calls by which a registry has told its plugins something.
pub struct CallLog {
    made: Ghost<Seq<PluginCall>>,
}

impl CallLog {
    pub closed spec fn made(&self) -> Seq<PluginCall> {
        self.made@
    }
}

/// One call by which the registry told a plugin something: the plugin's kind, its place among those
/// of its kind, and what it was told.
pub ghost struct PluginCall {
    pub kind: PluginKind,
    pub at: nat,
    pub event: PluginEvent,
}

/// What a hook tells of.
#[derive(Clone, Copy, Debug)]
pub enum Hook {
    NodeStart(PluginContext),
    NodeStop(PluginContext),
    GroupReady(PluginContext, GroupId),
}

impl Hook {
    pub open spec fn event(self) -> PluginEvent {
        match self {
            Hook::NodeStart(c) => PluginEvent::NodeStart(c),
            Hook::NodeStop(c) => PluginEvent::NodeStop(c),
            Hook::GroupReady(c, g) => PluginEvent::GroupReady(c, g),
        }
    }
}

/// The plugins in the order of registration: the kind of each, and its place among those of its
/// kind.
pub open spec fn roll(order: Seq<PluginKind>) -> Seq<(PluginKind, nat)>
    decreases order.len(),
{
    if order.len() == 0 {
        Seq::empty()
    } else {
        roll(order.drop_last()).push((order.last(), count_kind(order.drop_last(), order.last())))
    }
}

/// The calls that tell the plugins of a roll `event`, one after the other.
pub open spec fn calls_along(roll: Seq<(PluginKind, nat)>, event: PluginEvent) -> Seq<PluginCall> {
    roll.map_values(|p: (PluginKind, nat)| PluginCall { kind: p.0, at: p.1, event })
}

/// The calls that hand `event` to `n` metrics plugins, one after the other.
pub open spec fn metrics_calls(n: nat, event: PluginEvent) -> Seq<PluginCall> {
    Seq::new(n, |i: int| PluginCall { kind: PluginKind::Metrics, at: i as nat, event })
}

pub proof fn lemma_roll(order: Seq<PluginKind>, i: int)
    requires
        0 <= i < order.len(),
    ensures
        roll(order).len() == order.len(),
        roll(order)[i] == (order[i], count_kind(order.take(i), order[i])),
    decreases order.len(),
{
    let rest = order.drop_last();
    lemma_roll_len(rest);
    if i < rest.len() {
        lemma_roll(rest, i);
        assert(rest.take(i) =~= order.take(i));
    } else {
        assert(rest =~= order.take(i));
    }
}

proof fn lemma_roll_len(order: Seq<PluginKind>)
    ensures
        roll(order).len() == order.len(),
    decreases order.len(),
{
    if order.len() > 0 {
        lemma_roll_len(order.drop_last());
    }
}

/// The plugin of `kind` at `at`, and no other, has been told `event` once more.
pub open spec fn told_one(
    before: PluginRegistry,
    after: PluginRegistry,
    kind: PluginKind,
    at: int,
    event: PluginEvent,
) -> bool {
    &&& after.order == before.order
    &&& after.calls() == before.calls().push(PluginCall { kind, at: at as nat, event })
    &&& if kind == PluginKind::Plain {
        plain_step(before.plain@, after.plain@, at, event)
    } else {
        after.plain == before.plain
    }
    &&& if kind == PluginKind::Metrics {
        metrics_step(before.metrics@, after.metrics@, at, event)
    } else {
        after.metrics == before.metrics
    }
    &&& if kind == PluginKind::Archive {
        archive_step(before.archive@, after.archive@, at, event)
    } else {
        after.archive == before.archive
    }
    &&& if kind == PluginKind::Transition {
        transition_step(before.transition@, after.transition@, at, event)
    } else {
        after.transition == before.transition
    }
    &&& if kind == PluginKind::Auth {
        auth_step(before.auth@, after.auth@, at, event)
    } else {
        after.auth == before.auth
    }
}

/// The registries differ in their metrics plugins and in the calls made alone.
pub open spec fn same_but_metrics(before: PluginRegistry, after: PluginRegistry) -> bool {
    &&& after.plain == before.plain
    &&& after.archive == before.archive
    &&& after.transition == before.transition
    &&& after.auth == before.auth
    &&& after.order == before.order
}

/// The registries differ in their transition plugins alone.
pub open spec fn same_but_transition(before: PluginRegistry, after: PluginRegistry) -> bool {
    &&& after.plain == before.plain
    &&& after.metrics == before.metrics
    &&& after.archive == before.archive
    &&& after.auth == before.auth
    &&& after.order == before.order
    &&& after.calls() == before.calls()
}

/// Every plugin of the registry has been told `event` once more, in the order of registration.
pub open spec fn all_told(
    before: PluginRegistry,
    after: PluginRegistry,
    event: PluginEvent,
) -> bool {
    &&& after.order == before.order
    &&& after.calls() == before.calls() + calls_along(roll(before.order@), event)
    &&& plain_told(before.plain@, after.plain@, before.plain@.len() as int, event)
    &&& metrics_told(before.metrics@, after.metrics@, before.metrics@.len() as int, event)
    &&& archive_told(before.archive@, after.archive@, before.archive@.len() as int, event)
    &&& transition_told(before.transition@, after.transition@, before.transition@.len() as int, event)
    &&& auth_told(before.auth@, after.auth@, before.auth@.len() as int, event)
}

impl Default for PluginRegistry {
    fn default() -> (r: Self)
        ensures
            r.wf(),
            r.is_bare(),
            r.calls() == Seq::<PluginCall>::empty(),
    {
        PluginRegistry::new()
    }
}

impl PluginRegistry {
    /// The order of registration accounts for the plugins of each kind.
    pub open spec fn wf(&self) -> bool {
        &&& count_kind(self.order@, PluginKind::Plain) == self.plain@.len()
        &&& count_kind(self.order@, PluginKind::Metrics) == self.metrics@.len()
        &&& count_kind(self.order@, PluginKind::Archive) == self.archive@.len()
        &&& count_kind(self.order@, PluginKind::Transition) == self.transition@.len()
        &&& count_kind(self.order@, PluginKind::Auth) == self.auth@.len()
    }

    /// The calls by which hooks and samples have reached plugins, in order.
    pub open spec fn calls(&self) -> Seq<PluginCall> {
        self.log.made()
    }

    /// How many plugins of a kind there are.
    pub open spec fn count(&self, kind: PluginKind) -> nat {
        match kind {
            PluginKind::Plain => self.plain@.len(),
            PluginKind::Metrics => self.metrics@.len(),
            PluginKind::Archive => self.archive@.len(),
            PluginKind::Transition => self.transition@.len(),
            PluginKind::Auth => self.auth@.len(),
        }
    }

    /// Nothing is registered.
    pub open spec fn is_bare(&self) -> bool {
        &&& self.order@.len() == 0
        &&& self.plain@.len() == 0
        &&& self.metrics@.len() == 0
        &&& self.archive@.len() == 0
        &&& self.transition@.len() == 0
        &&& self.auth@.len() == 0
    }

    pub fn new() -> (r: Self)
        ensures
            r.wf(),
            r.is_bare(),
            r.calls() == Seq::<PluginCall>::empty(),
    {
        PluginRegistry {
            plain: Vec::new(),
            metrics: Vec::new(),
            archive: Vec::new(),
            transition: Vec::new(),
            auth: Vec::new(),
            order: Vec::new(),
            log: CallLog { made: Ghost(Seq::empty()) },
        }
    }

    /// Puts a plugin that follows the node's life behind those there are: hooks reach it last.
    pub fn register_plugin(self, plugin: Box<dyn Plugin>) -> (r: Self)
        requires
            self.wf(),
        ensures
            r.wf(),
            ({
                let one = Some(plugin);
                is_extended(self.plain@, r.plain@, one)
            }),
            r.metrics == self.metrics,
            r.archive == self.archive,
            r.transition == self.transition,
            r.auth == self.auth,
            r.order@ == self.order@.push(PluginKind::Plain),
            r.calls() == self.calls(),
    {
        let one = Some(plugin);
        let mut r = self;
        extend(&mut r.plain, one);
        r.order.push(PluginKind::Plain);
        proof {
            lemma_count_push(self.order@, PluginKind::Plain);
        }
        r
    }

    /// Puts a plugin that collects timings behind those there are: hooks reach it last.
    pub fn register_metrics(self, plugin: Box<dyn MetricsPlugin>) -> (r: Self)
        requires
            self.wf(),
        ensures
            r.wf(),
            ({
                let one = Some(plugin);
                is_extended(self.metrics@, r.metrics@, one)
            }),
            r.plain == self.plain,
            r.archive == self.archive,
            r.transition == self.transition,
            r.auth == self.auth,
            r.order@ == self.order@.push(PluginKind::Metrics),
            r.calls() == self.calls(),
    {
        let one = Some(plugin);
        let mut r = self;
        extend(&mut r.metrics, one);
        r.order.push(PluginKind::Metrics);
        proof {
            lemma_count_push(self.order@, PluginKind::Metrics);
        }
        r
    }

    /// Puts a plugin that hands out archived snapshots behind those there are: hooks reach it last.
    pub fn register_archive(self, plugin: Box<dyn ArchivePlugin>) -> (r: Self)
        requires
            self.wf(),
        ensures
            r.wf(),
            ({
                let one = Some(plugin);
                is_extended(self.archive@, r.archive@, one)
            }),
            r.plain == self.plain,
            r.metrics == self.metrics,
            r.transition == self.transition,
            r.auth == self.auth,
            r.order@ == self.order@.push(PluginKind::Archive),
            r.calls() == self.calls(),
    {
        let one = Some(plugin);
        let mut r = self;
        extend(&mut r.archive, one);
        r.order.push(PluginKind::Archive);
        proof {
            lemma_count_push(self.order@, PluginKind::Archive);
        }
        r
    }

    /// Puts a plugin that has standbys promoted behind those there are: hooks reach it last.
    pub fn register_transition(self, plugin: Box<dyn TransitionPlugin>) -> (r: Self)
        requires
            self.wf(),
        ensures
            r.wf(),
            ({
                let one = Some(plugin);
                is_extended(self.transition@, r.transition@, one)
            }),
            r.plain == self.plain,
            r.metrics == self.metrics,
            r.archive == self.archive,
            r.auth == self.auth,
            r.order@ == self.order@.push(PluginKind::Transition),
            r.calls() == self.calls(),
    {
        let one = Some(plugin);
        let mut r = self;
        extend(&mut r.transition, one);
        r.order.push(PluginKind::Transition);
        proof {
            lemma_count_push(self.order@, PluginKind::Transition);
        }
        r
    }

    /// Puts a plugin that guards administration behind those there are: hooks reach it last.
    pub fn register_auth(self, plugin: Box<dyn AuthPlugin>) -> (r: Self)
        requires
            self.wf(),
        ensures
            r.wf(),
            ({
                let one = Some(plugin);
                is_extended(self.auth@, r.auth@, one)
            }),
            r.plain == self.plain,
            r.metrics == self.metrics,
            r.archive == self.archive,
            r.transition == self.transition,
            r.order@ == self.order@.push(PluginKind::Auth),
            r.calls() == self.calls(),
    {
        let one = Some(plugin);
        let mut r = self;
        extend(&mut r.auth, one);
        r.order.push(PluginKind::Auth);
        proof {
            lemma_count_push(self.order@, PluginKind::Auth);
        }
        r
    }

    pub fn is_empty(&self) -> (r: bool)
        ensures
            r == (self.order@.len() == 0),
    {
        self.order.len() == 0
    }

    /// The metrics plugins, in the order of registration.
    pub fn metrics_plugins(&self) -> (r: &Vec<Box<dyn MetricsPlugin>>)
        ensures
            *r == self.metrics,
    {
        &self.metrics
    }

    /// The archive plugins, in the order of registration.
    pub fn archive_plugins(&self) -> (r: &Vec<Box<dyn ArchivePlugin>>)
        ensures
            *r == self.archive,
    {
        &self.archive
    }

    /// The transition plugins, in the order of registration.
    pub fn transition_plugins(&self) -> (r: &Vec<Box<dyn TransitionPlugin>>)
        ensures
            *r == self.transition,
    {
        &self.transition
    }

    /// The auth plugins, in the order of registration.
    pub fn auth_plugins(&self) -> (r: &Vec<Box<dyn AuthPlugin>>)
        ensures
            *r == self.auth,
    {
        &self.auth
    }

    /// The plugins in the order of registration: the kind of each, and its place among those of its
    /// kind.
    pub fn roll_call(&self) -> (r: Vec<(PluginKind, usize)>)
        requires
            self.wf(),
        ensures
            r@.len() == roll(self.order@).len(),
            forall|i: int|
                0 <= i < r@.len() ==> (#[trigger] r@[i]).0 == roll(self.order@)[i].0 && r@[i].1
                    == roll(self.order@)[i].1,
            forall|i: int| 0 <= i < r@.len() ==> (#[trigger] r@[i]).1 < self.count(r@[i].0),
    {
        let ghost order = self.order@;
        let mut out: Vec<(PluginKind, usize)> = Vec::new();
        let mut next: [usize; 5] = [0, 0, 0, 0, 0];
        let mut i: usize = 0;
        proof {
            lemma_roll_len(order);
        }
        while i < self.order.len()
            invariant
                i <= order.len(),
                self.wf(),
                order == self.order@,
                roll(order).len() == order.len(),
                next@.len() == 5,
                forall|k: int| 0 <= k < 5 ==> #[trigger] next@[k] <= i,
                forall|k: PluginKind| #[trigger]
                    count_kind(order.take(i as int), k) == next@[kind_number(k)],
                out@.len() == i,
                forall|j: int|
                    0 <= j < i ==> (#[trigger] out@[j]).0 == roll(order)[j].0 && out@[j].1
                        == roll(order)[j].1 && out@[j].1 < self.count(out@[j].0),
            decreases order.len() - i,
        {
            let kind = self.order[i];
            let n: usize = kind_index(kind);
            proof {
                lemma_roll(order, i as int);
                assert forall|k: PluginKind| #[trigger]
                    count_kind(order.take(i + 1), k) == count_kind(order.take(i as int), k) + (
                    if kind == k {
                        1nat
                    } else {
                        0nat
                    }) by {
                    lemma_count_step(order, i as int, k);
                }
                lemma_count_step(order, i as int, kind);
                lemma_count_step(order, i as int, PluginKind::Plain);
                assert(count_kind(order.take(i as int), kind) == next@[kind_number(kind)]);
                assert(count_kind(order, kind) == self.count(kind));
            }
            let at: usize = next[n];
            out.push((kind, at));
            next[n] = at + 1;
            i = i + 1;
        }
        out
    }

    /// Tells the plugin of `kind` at `at` what `hook` tells of.
    pub(crate) fn tell(&mut self, kind: PluginKind, at: usize, hook: Hook)
        requires
            at < old(self).count(kind),
        ensures
            told_one(*old(self), *final(self), kind, at as int, hook.event()),
    {
        match kind {
            PluginKind::Plain => match hook {
                Hook::NodeStart(c) => self.plain[at].on_node_start(&c),
                Hook::NodeStop(c) => self.plain[at].on_node_stop(&c),
                Hook::GroupReady(c, g) => self.plain[at].on_group_ready(&c, g),
            },
            PluginKind::Metrics => match hook {
                Hook::NodeStart(c) => self.metrics[at].on_node_start(&c),
                Hook::NodeStop(c) => self.metrics[at].on_node_stop(&c),
                Hook::GroupReady(c, g) => self.metrics[at].on_group_ready(&c, g),
            },
            PluginKind::Archive => match hook {
                Hook::NodeStart(c) => self.archive[at].on_node_start(&c),
                Hook::NodeStop(c) => self.archive[at].on_node_stop(&c),
                Hook::GroupReady(c, g) => self.archive[at].on_group_ready(&c, g),
            },
            PluginKind::Transition => match hook {
                Hook::NodeStart(c) => self.transition[at].on_node_start(&c),
                Hook::NodeStop(c) => self.transition[at].on_node_stop(&c),
                Hook::GroupReady(c, g) => self.transition[at].on_group_ready(&c, g),
            },
            PluginKind::Auth => match hook {
                Hook::NodeStart(c) => self.auth[at].on_node_start(&c),
                Hook::NodeStop(c) => self.auth[at].on_node_stop(&c),
                Hook::GroupReady(c, g) => self.auth[at].on_group_ready(&c, g),
            },
        }
        self.log.made = Ghost(
            self.log.made@.push(PluginCall { kind, at: at as nat, event: hook.event() }),
        );
    }

    /// Hands `sample` to the metrics plugin at `at`.
    pub(crate) fn hand_sample(&mut self, at: usize, sample: StageSample)
        requires
            at < old(self).metrics@.len(),
        ensures
            told_one(
                *old(self),
                *final(self),
                PluginKind::Metrics,
                at as int,
                PluginEvent::Sample(sample),
            ),
    {
        self.metrics[at].record_stage(sample);
        self.log.made = Ghost(
            self.log.made@.push(
                PluginCall {
                    kind: PluginKind::Metrics,
                    at: at as nat,
                    event: PluginEvent::Sample(sample),
                },
            ),
        );
    }

    /// A snapshot of each metrics plugin, in the order of registration.
    pub fn metrics_snapshots(&self) -> (r: Vec<MetricsSnapshot>)
        ensures
            r@.len() == self.metrics@.len(),
            forall|i: int| 
                0 <= i < r@.len() ==> metrics_may_report(self.metrics@, i, #[trigger] r@[i]),
    {
        let mut out: Vec<MetricsSnapshot> = Vec::new();
        let mut i: usize = 0;
        while i < self.metrics.len()
            invariant
                i <= self.metrics@.len(),
                out@.len() == i,
                forall|j: int| 
                    0 <= j < i ==> metrics_may_report(self.metrics@, j, #[trigger] out@[j]),
            decreases self.metrics@.len() - i,
        {
            out.push(self.metrics[i].snapshot());
            i = i + 1;
        }
        out
    }

    /// A snapshot of each archive plugin, in the order of registration.
    pub fn archive_snapshots(&self) -> (r: Vec<ArchiveSnapshot>)
        ensures
            r@.len() == self.archive@.len(),
            forall|i: int| 
                0 <= i < r@.len() ==> archive_may_report(self.archive@, i, #[trigger] r@[i]),
    {
        let mut out: Vec<ArchiveSnapshot> = Vec::new();
        let mut i: usize = 0;
        while i < self.archive.len()
            invariant
                i <= self.archive@.len(),
                out@.len() == i,
                forall|j: int| 
                    0 <= j < i ==> archive_may_report(self.archive@, j, #[trigger] out@[j]),
            decreases self.archive@.len() - i,
        {
            out.push(self.archive[i].snapshot());
            i = i + 1;
        }
        out
    }

    /// A snapshot of each transition plugin, in the order of registration.
    pub fn transition_snapshots(&self) -> (r: Vec<TransitionSnapshot>)
        ensures
            r@.len() == self.transition@.len(),
            forall|i: int| 
                0 <= i < r@.len() ==> transition_may_report(self.transition@, i, #[trigger] r@[i]),
    {
        let mut out: Vec<TransitionSnapshot> = Vec::new();
        let mut i: usize = 0;
        while i < self.transition.len()
            invariant
                i <= self.transition@.len(),
                out@.len() == i,
                forall|j: int| 
                    0 <= j < i ==> transition_may_report(self.transition@, j, #[trigger] out@[j]),
            decreases self.transition@.len() - i,
        {
            out.push(self.transition[i].snapshot());
            i = i + 1;
        }
        out
    }

    /// Whether a request with this authorization may administer the node: every auth plugin must
    /// allow it, asked in the order of registration until one does not. Without any, it may.
    pub fn authorize_admin(&self, authorization: Option<&str>) -> (r: bool)
        ensures
            is_verdict(self.auth@, opt_text(authorization), r),
    {
        let mut i: usize = 0;
        while i < self.auth.len()
            invariant
                i <= self.auth@.len(),
                forall|j: int|
                    0 <= j < i ==> #[trigger] may_answer(
                        self.auth@,
                        j,
                        opt_text(authorization),
                        true,
                    ),
            decreases self.auth@.len() - i,
        {
            if !self.auth[i].authorize_admin(authorization) {
                assert(refuses_first(self.auth@, opt_text(authorization), i as int));
                return false;
            }
            i = i + 1;
        }
        true
    }
}

/// The plugin at `k` may refuse, and each before it may allow.
pub open spec fn refuses_first(
    auths: Seq<Box<dyn AuthPlugin>>,
    authorization: Option<Seq<char>>,
    k: int,
) -> bool {
    &&& 0 <= k < auths.len()
    &&& may_answer(auths, k, authorization, false)
    &&& forall|j: int| 0 <= j < k ==> #[trigger] may_answer(auths, j, authorization, true)
}

/// `allow` is what answers of the plugins come to: a permission takes one of each of them, a
/// refusal one of any.
pub open spec fn is_verdict(
    auths: Seq<Box<dyn AuthPlugin>>,
    authorization: Option<Seq<char>>,
    allow: bool,
) -> bool {
    if allow {
        forall|j: int|
            0 <= j < auths.len() ==> #[trigger] may_answer(auths, j, authorization, true)
    } else {
        exists|k: int| #[trigger] refuses_first(auths, authorization, k)
    }
}

/// Without auth plugins every request is allowed.
pub proof fn law_open_without_auth_plugins(authorization: Option<Seq<char>>, allow: bool)
    requires
        is_verdict(Seq::empty(), authorization, allow),
    ensures
        allow,
{
}

/// One auth plugin that refuses a request is enough to refuse it, whatever the others answer.
pub proof fn law_one_refusal_is_enough(
    auths: Seq<Box<dyn AuthPlugin>>,
    authorization: Option<Seq<char>>,
    k: int,
    allow: bool,
)
    requires
        is_verdict(auths, authorization, allow),
        0 <= k < auths.len(),
        !may_answer(auths, k, authorization, true),
    ensures
        !allow,
{
}

/// Each auth plugin has one answer to a request with this authorization.
pub open spec fn all_decided(
    auths: Seq<Box<dyn AuthPlugin>>,
    authorization: Option<Seq<char>>,
) -> bool {
    forall|j: int|
        0 <= j < auths.len() ==> !(#[trigger] may_answer(auths, j, authorization, true)
            && may_answer(auths, j, authorization, false))
}

/// Where each auth plugin has one answer, a request is allowed exactly where all of them allow it.
pub proof fn law_allowed_by_all(
    auths: Seq<Box<dyn AuthPlugin>>,
    authorization: Option<Seq<char>>,
    allow: bool,
)
    requires
        is_verdict(auths, authorization, allow),
        all_decided(auths, authorization),
    ensures
        allow <==> forall|j: int|
            0 <= j < auths.len() ==> #[trigger] may_answer(auths, j, authorization, true),
{
    if !allow {
        let k = choose|k: int| #[trigger] refuses_first(auths, authorization, k);
        assert(!may_answer(auths, k, authorization, true));
    }
}

/// One more auth plugin never turns a refusal into a permission, where each of those before has one
/// answer.
pub proof fn law_more_guards_never_open(
    auths: Seq<Box<dyn AuthPlugin>>,
    more: Seq<Box<dyn AuthPlugin>>,
    one: Option<Box<dyn AuthPlugin>>,
    authorization: Option<Seq<char>>,
    allow: bool,
    allow_more: bool,
)
    requires
        is_extended(auths, more, one),
        all_decided(auths, authorization),
        is_verdict(auths, authorization, allow),
        is_verdict(more, authorization, allow_more),
        allow_more,
    ensures
        allow,
{
    if !allow {
        let k = choose|k: int| #[trigger] refuses_first(auths, authorization, k);
        assert(more[k] == auths[k]);
        assert(may_answer(more, k, authorization, true));
        assert(may_answer(auths, k, authorization, true));
    }
}

/// A plugin that is registered is reached by every hook behind all that were there before, which
/// are reached in the order they had.
pub proof fn law_newcomers_are_told_last(
    order: Seq<PluginKind>,
    kind: PluginKind,
    event: PluginEvent,
)
    ensures
        calls_along(roll(order.push(kind)), event) == calls_along(roll(order), event).push(
            PluginCall { kind, at: count_kind(order, kind), event },
        ),
{
    assert(order.push(kind).drop_last() =~= order);
    assert(calls_along(roll(order.push(kind)), event) =~= calls_along(roll(order), event).push(
        PluginCall { kind, at: count_kind(order, kind), event },
    ));
}

/// A hook reaches each plugin of each kind, and each of them once.
pub proof fn law_hooks_reach_each_plugin_once(
    order: Seq<PluginKind>,
    kind: PluginKind,
    at: nat,
)
    ensures
        roll(order).contains((kind, at)) <==> at < count_kind(order, kind),
        roll(order).no_duplicates(),
    decreases order.len(),
{
    if order.len() > 0 {
        let rest = order.drop_last();
        let one = (order.last(), count_kind(rest, order.last()));
        law_hooks_reach_each_plugin_once(rest, kind, at);
        law_hooks_reach_each_plugin_once(rest, one.0, one.1);
        assert(!roll(rest).contains(one));
        assert(roll(order) =~= roll(rest).push(one));
        assert forall|i: int, j: int|
            0 <= i < roll(order).len() && 0 <= j < roll(order).len() && i != j implies roll(
            order,
        )[i] != roll(order)[j] by {
            if i < roll(rest).len() {
                assert(roll(rest)[i] == roll(order)[i]);
            }
            if j < roll(rest).len() {
                assert(roll(rest)[j] == roll(order)[j]);
            }
        }
        if roll(rest).contains((kind, at)) {
            let i = roll(rest).index_of((kind, at));
            assert(roll(order)[i] == (kind, at));
        }
        if (kind, at) == one {
            assert(roll(order).last() == (kind, at));
        }
        if roll(order).contains((kind, at)) {
            let i = roll(order).index_of((kind, at));
            assert(i < roll(rest).len() ==> roll(rest)[i] == (kind, at));
        }
    }
}

} // verus!
