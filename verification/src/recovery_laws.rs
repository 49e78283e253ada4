//! What holds of advertised snapshots, of recovering from them, and of passing them on.

use vstd::prelude::*;

use crate::catalog::CatalogEntry;
use crate::error::MultiRaftError;
use crate::multiraft::MultiRaft;
use crate::recovery;
use crate::recovery::{
    daisy_url, log_pos_newer, DaisyAction, DaisyEvent, DaisyLoop, DaisyMode, DaisyStage,
    DaisyTaken, FetchPlan, FetchedSnapshot, PullError, RecoverStep,
};
use crate::request_laws::{ends_with, lemma_ends_with};
use crate::snapshot;
use crate::snapshot::{fetch_url, RecoverOutcome, SnapshotAdvertisement, SnapshotRuntime};
use crate::text;
use crate::type_config::GroupId;

verus! {

/// One position is newer than another where its term is higher, or its index within the same term.
pub open spec fn later(term: u64, index: u64, than_term: u64, than_index: u64) -> bool {
    term > than_term || (term == than_term && index > than_index)
}

/// The term decides, and within one term the index.
pub proof fn law_newer_goes_by_term_then_index(
    remote_term: u64,
    remote_index: u64,
    local_term: u64,
    local_index: u64,
    r: bool,
)
    requires
        call_ensures(log_pos_newer, (remote_term, remote_index, local_term, local_index), r),
    ensures
        remote_term > local_term ==> r,
        remote_term < local_term ==> !r,
        remote_term == local_term ==> (r <==> remote_index > local_index),
{
}

/// An advertisement of the group that can be fetched.
pub open spec fn can_be_fetched(ad: SnapshotAdvertisement, group: GroupId) -> bool {
    ad.group == group && ad.fetch_url@.len() > 0
}

/// Index and term up to which the node has applied the group's log; zero where it knows of none.
pub open spec fn applied(node: MultiRaft, group: GroupId) -> (u64, u64) {
    if node.groups@.contains_key(group) && node.groups@[group].applied is Some {
        node.groups@[group].applied->Some_0
    } else {
        (0, 0)
    }
}

/// The best advertisement is one of those of the group that can be fetched, and none of them is
/// newer; there is one wherever one of them is. Of those at the same point it is the one that was
/// recorded last.
pub proof fn law_best_ad_is_the_newest(
    node: &MultiRaft,
    group: GroupId,
    r: Option<&SnapshotAdvertisement>,
    i: int,
)
    requires
        call_ensures(MultiRaft::best_snapshot_ad, (node, group), r),
        0 <= i < node.snapshot_rt.ads@.len(),
        can_be_fetched(node.snapshot_rt.ads@[i], group),
    ensures
        r is Some,
        node.snapshot_rt.ads@.contains(*r->Some_0),
        can_be_fetched(*r->Some_0, group),
        !later(
            node.snapshot_rt.ads@[i].last_term,
            node.snapshot_rt.ads@[i].last_index,
            r->Some_0.last_term,
            r->Some_0.last_index,
        ),
        exists|p: int|
            0 <= p < node.snapshot_rt.ads@.len() && *r->Some_0
                == #[trigger] node.snapshot_rt.ads@[p] && (i > p ==> later(
                r->Some_0.last_term,
                r->Some_0.last_index,
                node.snapshot_rt.ads@[i].last_term,
                node.snapshot_rt.ads@[i].last_index,
            )),
{
    let ads = node.snapshot_rt.ads@;
    assert(snapshot::fetchable(ads, group, i));
    if r is Some {
        let p = choose|p: int| #[trigger]
            snapshot::is_best(ads, group, p) && *r->Some_0 == ads[p];
        assert(ads[p] == *r->Some_0);
    }
}

/// Recovering pulls exactly where some advertised snapshot of the group is newer than what the node
/// has applied, and then one that none is newer than, from where it is advertised. Where none can be
/// fetched there is nothing to recover from; else what is applied is at least as new as all of them.
pub proof fn law_recovery_pulls_the_newest(node: &MultiRaft, group: GroupId, r: RecoverStep)
    requires
        call_ensures(MultiRaft::try_recover_from_standby_ads, (node, group), r),
    ensures
        r is Pull <==> exists|i: int|
            0 <= i < node.snapshot_rt.ads@.len() && can_be_fetched(
                #[trigger] node.snapshot_rt.ads@[i],
                group,
            ) && later(
                node.snapshot_rt.ads@[i].last_term,
                node.snapshot_rt.ads@[i].last_index,
                applied(*node, group).1,
                applied(*node, group).0,
            ),
        r is Pull ==> exists|i: int|
            0 <= i < node.snapshot_rt.ads@.len() && can_be_fetched(
                #[trigger] node.snapshot_rt.ads@[i],
                group,
            ) && node.snapshot_rt.ads@[i].fetch_url@ == r->url@
                && node.snapshot_rt.ads@[i].last_index == r->last_index
                && node.snapshot_rt.ads@[i].last_term == r->last_term,
        r is Pull ==> forall|i: int|
            0 <= i < node.snapshot_rt.ads@.len() && can_be_fetched(
                #[trigger] node.snapshot_rt.ads@[i],
                group,
            ) ==> !later(
                node.snapshot_rt.ads@[i].last_term,
                node.snapshot_rt.ads@[i].last_index,
                r->last_term,
                r->last_index,
            ),
        r == RecoverStep::Return(RecoverOutcome::SkippedNoAd) <==> forall|i: int|
            0 <= i < node.snapshot_rt.ads@.len() ==> !can_be_fetched(
                #[trigger] node.snapshot_rt.ads@[i],
                group,
            ),
        r is Return && r->Return_0 is SkippedNotNewer ==> r->Return_0->local_index == applied(
            *node,
            group,
        ).0,
        r is Return ==> r->Return_0 is SkippedNoAd || r->Return_0 is SkippedNotNewer,
        r is Return && r->Return_0 is SkippedNotNewer ==> exists|i: int|
            0 <= i < node.snapshot_rt.ads@.len() && can_be_fetched(
                #[trigger] node.snapshot_rt.ads@[i],
                group,
            ) && node.snapshot_rt.ads@[i].last_index == r->Return_0->ad_index && forall|j: int|
                0 <= j < node.snapshot_rt.ads@.len() && can_be_fetched(
                    #[trigger] node.snapshot_rt.ads@[j],
                    group,
                ) ==> !later(
                    node.snapshot_rt.ads@[j].last_term,
                    node.snapshot_rt.ads@[j].last_index,
                    node.snapshot_rt.ads@[i].last_term,
                    node.snapshot_rt.ads@[i].last_index,
                ),
{
    let ads = node.snapshot_rt.ads@;
    assert(recovery::applied_or_zero(*node, group) == applied(*node, group));
    assert forall|i: int| 0 <= i < ads.len() && can_be_fetched(
        #[trigger] ads[i],
        group,
    ) implies snapshot::fetchable(ads, group, i) by {}
    assert forall|p: int| #[trigger] snapshot::fetchable(ads, group, p) implies can_be_fetched(
        ads[p],
        group,
    ) by {}
    let l = applied(*node, group);
    if r == RecoverStep::Return(RecoverOutcome::SkippedNoAd) {
        assert(forall|p: int| !#[trigger] snapshot::fetchable(ads, group, p));
        assert forall|i: int| 0 <= i < ads.len() implies !can_be_fetched(
            #[trigger] ads[i],
            group,
        ) by {
            assert(!snapshot::fetchable(ads, group, i));
        }
    } else if r is Pull {
        let p = choose|p: int| #[trigger]
            snapshot::is_best(ads, group, p) && recovery::is_newer(
                (ads[p].last_term, ads[p].last_index),
                (l.1, l.0),
            ) && r->url@ == ads[p].fetch_url@ && r->last_index == ads[p].last_index && r->last_term
                == ads[p].last_term;
        assert(can_be_fetched(ads[p], group));
        assert(later(ads[p].last_term, ads[p].last_index, l.1, l.0));
    } else if r->Return_0 is SkippedNotNewer {
        let p = choose|p: int| #[trigger]
            snapshot::is_best(ads, group, p) && !recovery::is_newer(
                (ads[p].last_term, ads[p].last_index),
                (l.1, l.0),
            ) && r->Return_0->ad_index == ads[p].last_index;
        assert forall|j: int| 0 <= j < ads.len() && can_be_fetched(
            #[trigger] ads[j],
            group,
        ) implies !later(
            ads[j].last_term,
            ads[j].last_index,
            ads[p].last_term,
            ads[p].last_index,
        ) by {
            assert(snapshot::fetchable(ads, group, j));
        }
        assert(snapshot::fetchable(ads, group, p));
        assert(can_be_fetched(ads[p], group));
        assert forall|i: int| 0 <= i < ads.len() && can_be_fetched(
            #[trigger] ads[i],
            group,
        ) implies !later(ads[i].last_term, ads[i].last_index, l.1, l.0) by {
            assert(snapshot::fetchable(ads, group, i));
        }
    }
}

/// An advertisement that is recorded is the last one known, in the place of any other of the same
/// snapshot of its group; all others stay. It is to be written to disk where the node has one.
pub proof fn law_recorded_ad_replaces_its_own(
    node: &mut MultiRaft,
    ad: SnapshotAdvertisement,
    persist: bool,
    other: SnapshotAdvertisement,
)
    requires
        call_ensures(MultiRaft::record_snapshot_ad, (node, ad), persist),
        other.group != ad.group || other.snapshot_id@ != ad.snapshot_id@,
    ensures
        final(node).snapshot_rt.ads@.len() > 0,
        final(node).snapshot_rt.ads@.last() == ad,
        final(node).snapshot_rt.ads@.contains(other) <==> old(node).snapshot_rt.ads@.contains(other),
        forall|i: int|
            0 <= i < final(node).snapshot_rt.ads@.len() - 1
                ==> (#[trigger] final(node).snapshot_rt.ads@[i]).group != ad.group
                || final(node).snapshot_rt.ads@[i].snapshot_id@ != ad.snapshot_id@,
        persist <==> old(node).snapshot_rt.data_dir@.len() > 0,
        final(node).groups == old(node).groups,
        final(node).config == old(node).config,
        final(node).snapshot_rt.catalog == old(node).snapshot_rt.catalog,
        final(node).snapshot_rt.admin_advertise_addr == old(node).snapshot_rt.admin_advertise_addr,
{
    let ads = old(node).snapshot_rt.ads@;
    snapshot::law_snapshots_are_advertised_once(ads, ad);
    lemma_others_stay(ads, ad, other);
}

proof fn lemma_others_stay(
    ads: Seq<SnapshotAdvertisement>,
    ad: SnapshotAdvertisement,
    other: SnapshotAdvertisement,
)
    requires
        other.group != ad.group || other.snapshot_id@ != ad.snapshot_id@,
    ensures
        snapshot::with_ad(ads, ad).contains(other) <==> ads.contains(other),
{
    let p = |a: SnapshotAdvertisement| !snapshot::same_snapshot(a, ad);
    let kept = ads.filter(p);
    let after = snapshot::with_ad(ads, ad);
    assert(after =~= kept.push(ad));
    if ads.contains(other) {
        let i = ads.index_of(other);
        assert(p(ads[i]));
        ads.lemma_filter_contains(p, i);
        let j = kept.index_of(other);
        assert(after[j] == other);
    }
    if after.contains(other) {
        let j = after.index_of(other);
        assert(j < kept.len());
        let at = snapshot::lemma_filter_from(ads, p, j);
        assert(ads[at] == other);
    }
}

/// Recording an advertisement, asking for the best and making one are what the node does with its
/// snapshots; the advertisement made is of the snapshot, at its point, with its size and digest.
pub proof fn law_runtime_does_what_the_node_does(
    rt: &mut SnapshotRuntime,
    node: &mut MultiRaft,
    ad: SnapshotAdvertisement,
    persist: bool,
    node_persist: bool,
    own: &SnapshotRuntime,
    group: GroupId,
    entry: CatalogEntry,
    made: SnapshotAdvertisement,
    best: Option<&SnapshotAdvertisement>,
    i: int,
)
    requires
        *old(rt) == old(node).snapshot_rt,
        call_ensures(SnapshotRuntime::record_ad, (rt, ad), persist),
        call_ensures(MultiRaft::record_snapshot_ad, (node, ad), node_persist),
        call_ensures(SnapshotRuntime::advertise, (own, group, entry), made),
        call_ensures(SnapshotRuntime::best_snapshot_ad, (own, group), best),
    ensures
        final(rt).ads@ == final(node).snapshot_rt.ads@,
        final(rt).ads@.last() == ad,
        persist == node_persist,
        final(rt).data_dir == old(rt).data_dir,
        final(rt).catalog == old(rt).catalog,
        made.group == group,
        made.last_index == entry.last_index,
        made.last_term == entry.last_term,
        made.snapshot_id@ == entry.snapshot_id@,
        made.size == entry.size,
        made.sha256_hex@ == entry.sha256_hex@,
        best is Some ==> own.ads@.contains(*best->Some_0) && can_be_fetched(*best->Some_0, group),
        0 <= i < own.ads@.len() && can_be_fetched(own.ads@[i], group) ==> best is Some && !later(
            own.ads@[i].last_term,
            own.ads@[i].last_index,
            best->Some_0.last_term,
            best->Some_0.last_index,
        ),
{
    snapshot::law_snapshots_are_advertised_once(old(rt).ads@, ad);
    if 0 <= i < own.ads@.len() && can_be_fetched(own.ads@[i], group) {
        assert(snapshot::fetchable(own.ads@, group, i));
    }
}

/// A snapshot that this node has built is advertised at the point at which it was taken, with its
/// size and digest, under the URL that the node hands out.
pub proof fn law_built_snapshot_is_advertised(
    node: &mut MultiRaft,
    group: GroupId,
    entry: CatalogEntry,
    persist: bool,
    addr: &Option<String>,
    url: String,
)
    requires
        call_ensures(MultiRaft::standby_snapshot_built, (node, group, entry), persist),
        *addr == old(node).snapshot_rt.admin_advertise_addr,
        call_ensures(fetch_url, (addr, group), url),
    ensures
        final(node).snapshot_rt.ads@.len() > 0,
        final(node).snapshot_rt.ads@.last().group == group,
        final(node).snapshot_rt.ads@.last().last_index == entry.last_index,
        final(node).snapshot_rt.ads@.last().last_term == entry.last_term,
        final(node).snapshot_rt.ads@.last().snapshot_id@ == entry.snapshot_id@,
        final(node).snapshot_rt.ads@.last().size == entry.size,
        final(node).snapshot_rt.ads@.last().sha256_hex@ == entry.sha256_hex@,
        final(node).snapshot_rt.ads@.last().fetch_url@ == url@,
        persist <==> old(node).snapshot_rt.data_dir@.len() > 0,
        final(node).groups == old(node).groups,
        final(node).config == old(node).config,
        final(node).snapshot_rt.catalog == old(node).snapshot_rt.catalog,
        final(node).snapshot_rt.data_dir == old(node).snapshot_rt.data_dir,
{
    let ads = old(node).snapshot_rt.ads@;
    let ad = choose|ad: SnapshotAdvertisement| #[trigger]
        crate::group_setup::is_ad_for(old(node).snapshot_rt, group, entry, ad)
            && final(node).snapshot_rt.ads@ == snapshot::with_ad(ads, ad);
    snapshot::law_snapshots_are_advertised_once(ads, ad);
}

/// A node advertises a URL exactly where it has an address, and one for each group of its own; a
/// node that pulls from that address asks at that very URL.
pub proof fn law_urls_meet(
    addr: &Option<String>,
    a: GroupId,
    b: GroupId,
    url_a: String,
    url_b: String,
    base: &str,
    asked: String,
)
    requires
        call_ensures(fetch_url, (addr, a), url_a),
        call_ensures(fetch_url, (addr, b), url_b),
        addr matches Some(s) ==> s@.len() > 0 && s@.last() != '/' && base@ == "http://"@ + s@,
        call_ensures(daisy_url, (base, a), asked),
    ensures
        url_a@.len() > 0 <==> addr is Some,
        addr is Some ==> url_a@ == "http://"@ + addr->Some_0@ + "/snapshots/"@ + text::decimal(
            a as nat,
        ) + "/latest"@,
        addr is Some ==> asked@ == url_a@,
        addr is Some && a != b ==> url_a@ != url_b@,
{
    if addr is Some {
        let s = addr->Some_0@;
        reveal_strlit("http://");
        recovery::law_upstream_url_is_what_is_advertised(s, a);
        let head = "http://"@ + s + "/snapshots/"@;
        let tail = "/latest"@;
        let da = text::decimal(a as nat);
        let db = text::decimal(b as nat);
        assert(url_a@ =~= head + da + tail);
        assert(url_b@ =~= head + db + tail);
        if url_a@ == url_b@ {
            let n = url_a@.len() - tail.len();
            assert(url_a@.take(n).skip(head.len() as int) =~= da);
            assert(url_b@.take(n).skip(head.len() as int) =~= db);
            text::lemma_decimal_injective(a as nat, b as nat);
        }
    }
}

/// One call of `daisy_sync_once` is one step of a pull from upstream.
pub proof fn law_daisy_call_is_one_step(
    node: &mut MultiRaft,
    mode: DaisyMode,
    group: GroupId,
    stage: DaisyStage,
    event: DaisyEvent,
    r: (DaisyStage, DaisyAction),
)
    requires
        recovery::daisy_awaits(stage, event),
        call_ensures(MultiRaft::daisy_sync_once, (node, mode, group, stage, event), r),
    ensures
        recovery::daisy_moves(*old(node), mode, group, stage, event, *final(node), r.0, r.1),
{
}

/// The pull ended at step `n` as installed at that index and term.
pub open spec fn ends_installed(
    run: Seq<DaisyTaken>,
    n: int,
    last_index: u64,
    last_term: u64,
) -> bool {
    &&& 0 <= n < run.len()
    &&& run[n].action is Return
    &&& run[n].action->result == Ok::<RecoverOutcome, MultiRaftError>(
        RecoverOutcome::Installed { last_index, last_term },
    )
}

/// A pull that ends as installed was of a snapshot that was fetched, at that index and term, newer
/// than what the node had applied. The last advertisement that the node then knows is of the group,
/// at that same index and term, with the size and the digest of the fetched bytes, under the URL
/// that the node hands out.
pub proof fn law_installed_snapshot_is_passed_on(
    mode: DaisyMode,
    group: GroupId,
    run: Seq<DaisyTaken>,
    n: int,
    last_index: u64,
    last_term: u64,
    addr: &Option<String>,
    url: String,
)
    requires
        recovery::is_daisy_run(mode, group, run),
        ends_installed(run, n, last_index, last_term),
        *addr == run[n].before.snapshot_rt.admin_advertise_addr,
        call_ensures(fetch_url, (addr, group), url),
    ensures
        run[0].event is Fetched,
        run[0].event->Fetched_0 is Ok,
        ({
            let snap = run[0].event->Fetched_0->Ok_0;
            let ads = run[n].after.snapshot_rt.ads@;
            &&& snap.last_index == last_index
            &&& snap.last_term == last_term
            &&& later(
                last_term,
                last_index,
                applied(run[0].before, group).1,
                applied(run[0].before, group).0,
            )
            &&& ads.len() > 0
            &&& ads.last().group == group
            &&& ads.last().last_index == last_index
            &&& ads.last().last_term == last_term
            &&& ads.last().size == snap.data@.len()
            &&& ads.last().sha256_hex@ == snap.sha256_hex@
            &&& ads.last().fetch_url@ == url@
            &&& snap.snapshot_id is Some ==> ads.last().snapshot_id@ == snap.snapshot_id->Some_0@
            &&& snap.snapshot_id is None ==> ads.last().snapshot_id@ == text::decimal(
                last_index as nat,
            ) + "-"@ + text::decimal(last_term as nat)
        }),
{
    recovery::lemma_same_snapshot_and_id(mode, group, run, n);
    recovery::lemma_stage_is_of_the_fetched(mode, group, run, n);
    let snap = run[0].event->Fetched_0->Ok_0;
    let before = run[n].before;
    let after = run[n].after;
    assert(recovery::applied_or_zero(run[0].before, group) == applied(run[0].before, group));
    if n == 0 {
        assert(false);
    }
    let id = recovery::id_of(run[n].stage);
    assert(recovery::daisy_finishes(
        before,
        group,
        snap,
        id,
        after,
        run[n].next,
        run[n].action,
    ));
    let ad = choose|ad: SnapshotAdvertisement| #[trigger]
        recovery::is_relay_ad(before.snapshot_rt, group, snap, id, ad) && after.snapshot_rt.ads@
            == snapshot::with_ad(before.snapshot_rt.ads@, ad);
    snapshot::law_snapshots_are_advertised_once(before.snapshot_rt.ads@, ad);
}

/// Once the node has applied up to what a pull installed, the advertisement that the pull recorded
/// is no reason to recover: what is pulled then, if anything, is a still newer snapshot.
pub proof fn law_installed_snapshot_is_not_pulled_again(
    mode: DaisyMode,
    group: GroupId,
    run: Seq<DaisyTaken>,
    n: int,
    last_index: u64,
    last_term: u64,
    addr: &Option<String>,
    url: String,
    node: &MultiRaft,
    r: RecoverStep,
)
    requires
        recovery::is_daisy_run(mode, group, run),
        ends_installed(run, n, last_index, last_term),
        *addr == run[n].before.snapshot_rt.admin_advertise_addr,
        call_ensures(fetch_url, (addr, group), url),
        node.snapshot_rt == run[n].after.snapshot_rt,
        applied(*node, group) == (last_index, last_term),
        call_ensures(MultiRaft::try_recover_from_standby_ads, (node, group), r),
    ensures
        r is Pull ==> later(r->last_term, r->last_index, last_term, last_index),
        (forall|i: int|
            0 <= i < run[n].before.snapshot_rt.ads@.len() && can_be_fetched(
                #[trigger] run[n].before.snapshot_rt.ads@[i],
                group,
            ) ==> !later(
                run[n].before.snapshot_rt.ads@[i].last_term,
                run[n].before.snapshot_rt.ads@[i].last_index,
                last_term,
                last_index,
            )) ==> r is Return,
{
    law_installed_snapshot_is_passed_on(mode, group, run, n, last_index, last_term, addr, url);
    law_recovery_pulls_the_newest(node, group, r);
    let ads = node.snapshot_rt.ads@;
    let was = run[n].before.snapshot_rt.ads@;
    if r is Pull {
        let i = choose|i: int|
            0 <= i < ads.len() && can_be_fetched(#[trigger] ads[i], group) && ads[i].fetch_url@
                == r->url@ && ads[i].last_index == r->last_index && ads[i].last_term
                == r->last_term;
        let k = choose|i: int|
            0 <= i < ads.len() && can_be_fetched(#[trigger] ads[i], group) && later(
                ads[i].last_term,
                ads[i].last_index,
                last_term,
                last_index,
            );
        assert(!later(ads[k].last_term, ads[k].last_index, r->last_term, r->last_index));
        recovery::lemma_stage_is_of_the_fetched(mode, group, run, n);
        if k < ads.len() - 1 {
            recovery::lemma_ad_was_there(mode, group, run, n, k);
            let at = was.index_of(ads[k]);
            assert(can_be_fetched(was[at], group));
        }
    }
}

/// A pull changes what the node advertises only by ending as installed; whatever else it comes to,
/// the node stays as it was. A fetch that fails ends with its reason, and a snapshot that is not
/// newer than what is applied is skipped, with both indexes told.
pub proof fn law_pulls_change_nothing_else(
    node: &mut MultiRaft,
    mode: DaisyMode,
    group: GroupId,
    stage: DaisyStage,
    event: DaisyEvent,
    r: (DaisyStage, DaisyAction),
)
    requires
        recovery::daisy_awaits(stage, event),
        call_ensures(MultiRaft::daisy_sync_once, (node, mode, group, stage, event), r),
    ensures
        final(node).groups == old(node).groups,
        final(node).config == old(node).config,
        final(node).snapshot_rt.catalog == old(node).snapshot_rt.catalog,
        *final(node) != *old(node) ==> r.1 is Return && r.1->result is Ok
            && r.1->result->Ok_0 is Installed,
        event is Fetched && event->Fetched_0 is Err ==> r.1 is Return && r.1->result == Ok::<
            RecoverOutcome,
            MultiRaftError,
        >(RecoverOutcome::FetchFailed { error: event->Fetched_0->Err_0 }),
        event is Fetched && event->Fetched_0 is Ok && !later(
            event->Fetched_0->Ok_0.last_term,
            event->Fetched_0->Ok_0.last_index,
            applied(*old(node), group).1,
            applied(*old(node), group).0,
        ) ==> r.1 is Return && r.1->result == Ok::<RecoverOutcome, MultiRaftError>(
            RecoverOutcome::SkippedNotNewer {
                local_index: applied(*old(node), group).0,
                ad_index: event->Fetched_0->Ok_0.last_index,
            },
        ),
        event is Fetched && event->Fetched_0 is Ok && later(
            event->Fetched_0->Ok_0.last_term,
            event->Fetched_0->Ok_0.last_index,
            applied(*old(node), group).1,
            applied(*old(node), group).0,
        ) ==> (r.1 is Write <==> old(node).snapshot_rt.catalog is Some),
        event is Written && event->Written_0 is Err ==> r.1 is Return && r.1->result is Err,
        event is Installed && event->Installed_0 is Err ==> r.1 is Return && r.1->result is Err,
        event is Installed && event->Installed_0 is Ok ==> r.1 is Return && r.1->result is Ok,
        event is GroupGone ==> r.1 is Return && r.1->result == Err::<
            RecoverOutcome,
            MultiRaftError,
        >(MultiRaftError::UnknownGroup(group)),
        event is Written && event->Written_0 is Ok && mode == DaisyMode::Request ==> (
        r.1 is Install <==> old(node).groups@.contains_key(group)),
        r.1 is Write ==> r.0 is Writing && event is Fetched && r.0->Writing_snap
            == event->Fetched_0->Ok_0 && (r.0->known <==> old(node).groups@.contains_key(group)),
        r.1 is Install ==> r.0 is Installing && stage is Writing && r.0->Installing_snap
            == stage->Writing_snap,
        r.1 is Return ==> r.0 is Done,
        event is Written && event->Written_0 is Ok && mode == DaisyMode::Round ==> (
        r.1 is Install <==> stage->known),
        event is Written && event->Written_0 is Ok ==> r.1 is Install || (r.1 is Return
            && r.1->result is Ok),
        r.1 is Return ==> (r.1->persist <==> r.1->result is Ok && r.1->result->Ok_0 is Installed
            && old(node).snapshot_rt.data_dir@.len() > 0),
        event is Written && event->Written_0 is Err ==> r.1->result->Err_0 is Other && ends_with(
            r.1->result->Err_0->Other_0@,
            event->Written_0->Err_0@,
        ),
        event is Installed && event->Installed_0 is Err ==> r.1->result->Err_0 is Other
            && ends_with(r.1->result->Err_0->Other_0@, event->Installed_0->Err_0@),
{
    if event is Written && event->Written_0 is Err {
        lemma_ends_with("daisy catalog write: "@, event->Written_0->Err_0@);
    }
    if event is Installed && event->Installed_0 is Err {
        lemma_ends_with(recovery::install_label(mode), event->Installed_0->Err_0@);
    }
    assert(recovery::applied_or_zero(*old(node), group) == applied(*old(node), group));
}

/// What a recovery comes to is what the pull came to: installed at the point that was advertised, an
/// unknown group as an error, and any other failure as an outcome that tells its reason.
pub proof fn law_recovery_tells_what_happened(
    last_index: u64,
    last_term: u64,
    pulled: Result<(), PullError>,
    r: Result<RecoverOutcome, MultiRaftError>,
)
    requires
        call_ensures(MultiRaft::recovered, (last_index, last_term, pulled), r),
    ensures
        pulled is Ok <==> r == Ok::<RecoverOutcome, MultiRaftError>(
            RecoverOutcome::Installed { last_index, last_term },
        ),
        r is Err <==> pulled is Err && pulled->Err_0 is UnknownGroup,
        r is Err ==> r->Err_0 == MultiRaftError::UnknownGroup(pulled->Err_0->UnknownGroup_0),
        pulled is Err && pulled->Err_0 is Failed ==> r == Ok::<RecoverOutcome, MultiRaftError>(
            RecoverOutcome::FetchFailed { error: pulled->Err_0->Failed_0 },
        ),
{
}

/// A snapshot is installed on a node that has the group, and then the state machine decides; the
/// bytes installed are those that were fetched.
pub proof fn law_install_is_for_known_groups(
    node: &MultiRaft,
    group: GroupId,
    reply: Result<(), String>,
    r: Result<(), PullError>,
    fetched: Result<FetchedSnapshot, String>,
    snap: Result<FetchedSnapshot, PullError>,
)
    requires
        call_ensures(MultiRaft::install_durable_snapshot, (node, group, reply), r),
        call_ensures(MultiRaft::pull_and_install_snapshot, (fetched,), snap),
    ensures
        r is Ok <==> node.groups@.contains_key(group) && reply is Ok,
        !node.groups@.contains_key(group) ==> r == Err::<(), PullError>(
            PullError::UnknownGroup(group),
        ),
        node.groups@.contains_key(group) && reply is Err ==> r->Err_0 is Failed && ends_with(
            r->Err_0->Failed_0@,
            reply->Err_0@,
        ),
        snap is Ok <==> fetched is Ok,
        fetched is Ok ==> snap->Ok_0 == fetched->Ok_0,
        fetched is Err ==> snap->Err_0 == PullError::Failed(fetched->Err_0),
{
    if reply is Err {
        lemma_ends_with("install_durable_snapshot: "@, reply->Err_0@);
    }
}

/// A snapshot of another node's catalog is installed where there is one and its bytes are there,
/// and it is that one with those bytes.
pub proof fn law_standby_catalog_hands_out_its_latest(
    latest: Result<Option<CatalogEntry>, String>,
    r: Result<CatalogEntry, MultiRaftError>,
    read: Result<Option<Vec<u8>>, String>,
    data: Result<Vec<u8>, MultiRaftError>,
)
    requires
        call_ensures(MultiRaft::try_install_from_standby_catalog, (latest,), r),
        call_ensures(MultiRaft::standby_catalog_data, (read,), data),
    ensures
        r is Ok <==> latest is Ok && latest->Ok_0 is Some,
        r is Ok ==> r->Ok_0 == latest->Ok_0->Some_0,
        data is Ok <==> read is Ok && read->Ok_0 is Some,
        data is Ok ==> data->Ok_0 == read->Ok_0->Some_0,
        r is Err ==> r->Err_0 is Other,
        data is Err ==> data->Err_0 is Other,
        latest is Err ==> ends_with(r->Err_0->Other_0@, latest->Err_0@),
        read is Err ==> ends_with(data->Err_0->Other_0@, read->Err_0@),
{
    if latest is Err {
        lemma_ends_with("catalog latest: "@, latest->Err_0@);
    }
    if read is Err {
        lemma_ends_with("catalog read: "@, read->Err_0@);
    }
}

/// A node pulls in the background exactly where it has an upstream, at least a millisecond apart and
/// as often as configured. It asks where a request for the same group asks.
pub proof fn law_background_pulls_ask_the_upstream(
    node: &MultiRaft,
    group: GroupId,
    l: Option<DaisyLoop>,
    base: &str,
    url: String,
    asked: Result<String, MultiRaftError>,
    plan: FetchPlan,
    trimmed: String,
)
    requires
        call_ensures(MultiRaft::spawn_daisy_sync_loop, (node,), l),
        l is Some ==> base@ == l->Some_0.base@,
        call_ensures(daisy_url, (base, group), url),
        call_ensures(MultiRaft::sync_from_daisy_upstream, (node, group), asked),
        call_ensures(MultiRaft::fetch_snapshot_bytes, (node,), plan),
        call_ensures(text::trim_trailing_slashes, (base,), trimmed),
    ensures
        url@ == trimmed@ + "/snapshots/"@ + text::decimal(group as nat) + "/latest"@,
        l is Some && plan.temp_dir is At ==> l->Some_0.fetch.temp_dir is At
            && l->Some_0.fetch.temp_dir->At_0@ == plan.temp_dir->At_0@,
        l is Some && plan.temp_dir is System ==> l->Some_0.fetch.temp_dir is System,
        l is Some <==> node.config.daisy_upstream_base is Some,
        asked is Ok <==> l is Some,
        l is Some ==> asked->Ok_0@ == url@,
        l is Some ==> l->Some_0.base@ == node.config.daisy_upstream_base->Some_0@,
        l is Some ==> l->Some_0.interval_ms >= 1,
        l is Some && node.config.daisy_sync_interval_ms >= 1 ==> l->Some_0.interval_ms
            == node.config.daisy_sync_interval_ms,
        l is Some ==> l->Some_0.fetch.chunk == plan.chunk,
        plan.chunk >= 1,
        node.config.snapshot_fetch_chunk_bytes >= 1 ==> plan.chunk
            == node.config.snapshot_fetch_chunk_bytes,
        plan.temp_dir is System <==> node.config.data_dir@.len() == 0,
        plan.temp_dir is At ==> plan.temp_dir->At_0@.len() > node.config.data_dir@.len()
            && plan.temp_dir->At_0@.take(node.config.data_dir@.len() as int)
            == node.config.data_dir@,
{
    if plan.temp_dir is At {
        let d = node.config.data_dir@;
        reveal_strlit("snap-fetch-tmp");
        assert(plan.temp_dir->At_0@.take(d.len() as int) =~= d);
    }
}

} // verus!
