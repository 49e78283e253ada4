//! Snapshots that standbys build, advertise and hand out.

use vstd::prelude::*;

use crate::catalog::{CatalogEntry, SnapshotCatalog};
use crate::config::{ClusterConfig, SnapshotMode};
use crate::order;
use crate::text;
use crate::type_config::GroupId;

verus! {

/// The payload that a leader proposes to have standbys build a snapshot: the text
/// `multiraft.standby_snapshot_trigger` between two zero bytes.
pub const STANDBY_SNAPSHOT_TRIGGER: [u8; 36] = [
    0, 109, 117, 108, 116, 105, 114, 97, 102, 116, 46, 115,
    116, 97, 110, 100, 98, 121, 95, 115, 110, 97, 112, 115,
    104, 111, 116, 95, 116, 114, 105, 103, 103, 101, 114, 0,
];

/// Whether `data` is the payload that asks standbys for a snapshot.
pub fn is_standby_snapshot_trigger(data: &[u8]) -> (r: bool)
    ensures
        r == (data@ == STANDBY_SNAPSHOT_TRIGGER@),
{
    if data.len() != 36 {
        return false;
    }
    let mut i: usize = 0;
    while i < 36
        invariant
            i <= 36,
            data@.len() == 36,
            forall|j: int| 0 <= j < i ==> data@[j] == #[trigger] STANDBY_SNAPSHOT_TRIGGER@[j],
        decreases 36 - i,
    {
        if data[i] != STANDBY_SNAPSHOT_TRIGGER[i] {
            return false;
        }
        i = i + 1;
    }
    assert(data@ =~= STANDBY_SNAPSHOT_TRIGGER@);
    true
}

/// What a standby makes known once a snapshot is durable.
#[derive(Clone, Debug, PartialEq, Eq)]
pub struct SnapshotAdvertisement {
    pub group: GroupId,
    pub last_index: u64,
    pub last_term: u64,
    pub snapshot_id: String,
    pub size: u64,
    pub sha256_hex: String,
    /// Where to fetch it; empty where the node advertises no address.
    pub fetch_url: String,
}

/// What came of an attempt to recover from a snapshot of another node.
#[derive(Clone, Debug, PartialEq, Eq)]
pub enum RecoverOutcome {
    Installed { last_index: u64, last_term: u64 },
    SkippedNoAd,
    SkippedNotNewer { local_index: u64, ad_index: u64 },
    FetchFailed { error: String },
}

/// The two speak of the same snapshot.
pub open spec fn same_snapshot(a: SnapshotAdvertisement, b: SnapshotAdvertisement) -> bool {
    a.group == b.group && a.snapshot_id@ == b.snapshot_id@
}

/// Whether the two speak of the same snapshot.
fn is_same_snapshot(a: &SnapshotAdvertisement, b: &SnapshotAdvertisement) -> (r: bool)
    ensures
        r == same_snapshot(*a, *b),
{
    a.group == b.group && text::same_text(a.snapshot_id.as_str(), b.snapshot_id.as_str())
}

/// The advertisements after `ad` is recorded: it comes last, and takes the place of every one of
/// the same snapshot.
pub open spec fn with_ad(ads: Seq<SnapshotAdvertisement>, ad: SnapshotAdvertisement) -> Seq<
    SnapshotAdvertisement,
> {
    ads.filter(|a: SnapshotAdvertisement| !same_snapshot(a, ad)).push(ad)
}

/// Each snapshot is advertised once.
pub open spec fn each_once(ads: Seq<SnapshotAdvertisement>) -> bool {
    forall|i: int, j: int|
        0 <= i < j < ads.len() ==> !same_snapshot(#[trigger] ads[i], #[trigger] ads[j])
}

/// The advertisement at `p` is of `group` and can be fetched.
pub open spec fn fetchable(ads: Seq<SnapshotAdvertisement>, group: GroupId, p: int) -> bool {
    0 <= p < ads.len() && ads[p].group == group && ads[p].fetch_url@.len() > 0
}

/// Nothing of the group can be fetched.
pub open spec fn none_fetchable(ads: Seq<SnapshotAdvertisement>, group: GroupId) -> bool {
    forall|p: int| !#[trigger] fetchable(ads, group, p)
}

/// By what advertisements are ordered: term first, then index.
pub open spec fn ad_key(a: SnapshotAdvertisement) -> (u64, u64) {
    (a.last_term, a.last_index)
}

/// The one at `p` is the newest that can be fetched; of equals, the one recorded last.
pub open spec fn is_best(ads: Seq<SnapshotAdvertisement>, group: GroupId, p: int) -> bool {
    &&& fetchable(ads, group, p)
    &&& forall|q: int| #[trigger]
        fetchable(ads, group, q) ==> !order::pair_lt(ad_key(ads[p]), ad_key(ads[q])) && (q > p
            ==> order::pair_lt(ad_key(ads[q]), ad_key(ads[p])))
}

/// The URL at which a node with the address `addr` hands out its latest snapshot of `group`.
pub open spec fn latest_url(addr: Seq<char>, group: GroupId) -> Seq<char> {
    "http://"@ + addr + "/snapshots/"@ + text::decimal(group as nat) + "/latest"@
}

/// The URL that a node advertises; empty without an address.
pub open spec fn advertised_url(addr: Option<String>, group: GroupId) -> Seq<char> {
    match addr {
        Some(a) => latest_url(a@, group),
        None => Seq::empty(),
    }
}

/// The URL that a node advertises for its latest snapshot of `group`.
pub fn fetch_url(addr: &Option<String>, group: GroupId) -> (r: String)
    ensures
        r@ == advertised_url(*addr, group),
{
    match addr {
        Some(a) => {
            let mut out = "http://".to_owned();
            out.append(a.as_str());
            out.append("/snapshots/");
            out.append(text::decimal_text(group).as_str());
            out.append("/latest");
            out
        },
        None => String::new(),
    }
}

/// A node's snapshot catalog and the advertisements it knows of.
#[derive(Debug)]
pub struct SnapshotRuntime {
    pub catalog: Option<SnapshotCatalog>,
    pub ads: Vec<SnapshotAdvertisement>,
    pub data_dir: String,
    pub admin_advertise_addr: Option<String>,
}

/// The file that keeps the advertisements, below the data directory.
pub const ADS_FILE: &'static str = "snapshot_ads.json";

impl SnapshotRuntime {
    /// A node has a catalog where standbys build the snapshots and it has a data directory. The
    /// advertisements that were kept on disk are taken over, but for a node without one.
    pub fn new(config: &ClusterConfig, kept: Vec<SnapshotAdvertisement>) -> (r: Self)
        ensures
            r.catalog is Some <==> config.snapshot_mode == SnapshotMode::StandbyOffload
                && config.data_dir@.len() > 0,
            r.catalog matches Some(c) ==> c.spec_root() == text::joined(
                config.data_dir@,
                "snapshots"@,
            ) && c.spec_keep() == (if config.snapshot_keep < 1 {
                1
            } else {
                config.snapshot_keep
            }),
            config.data_dir@.len() > 0 ==> r.ads == kept,
            config.data_dir@.len() == 0 ==> r.ads@.len() == 0,
            r.data_dir@ == config.data_dir@,
            match (r.admin_advertise_addr, config.admin_advertise_addr) {
                (Some(a), Some(b)) => a@ == b@,
                (None, None) => true,
                _ => false,
            },
    {
        let in_memory = config.data_dir.as_str().is_empty();
        let catalog = if config.snapshot_mode == SnapshotMode::StandbyOffload && !in_memory {
            let root = text::join_path(config.data_dir.as_str(), "snapshots");
            Some(SnapshotCatalog::new(root, config.snapshot_keep))
        } else {
            None
        };
        let admin_advertise_addr = match &config.admin_advertise_addr {
            Some(a) => Some(a.clone()),
            None => None,
        };
        SnapshotRuntime {
            catalog,
            ads: if in_memory {
                Vec::new()
            } else {
                kept
            },
            data_dir: config.data_dir.clone(),
            admin_advertise_addr,
        }
    }

    /// Records `ad`. `true`: the advertisements are then to be written to disk.
    pub fn record_ad(&mut self, ad: SnapshotAdvertisement) -> (persist: bool)
        ensures
            *final(self) == (SnapshotRuntime { ads: final(self).ads, ..*old(self) }),
            final(self).ads@ == with_ad(old(self).ads@, ad),
            persist == (old(self).data_dir@.len() > 0),
    {
        let ghost start = self.ads@;
        let ghost stays = |a: SnapshotAdvertisement| !same_snapshot(a, ad);
        let ghost mut seen: int = 0;
        let mut i: usize = 0;
        proof {
            assert(start.take(0).filter(stays) =~= Seq::empty()) by {
                reveal(Seq::filter);
            }
            assert(self.ads@ =~= start.take(0).filter(stays) + start.skip(0));
        }
        while i < self.ads.len()
            invariant
                *self == (SnapshotRuntime { ads: self.ads, ..*old(self) }),
                start == old(self).ads@,
                stays == (|a: SnapshotAdvertisement| !same_snapshot(a, ad)),
                0 <= seen <= start.len(),
                i == start.take(seen).filter(stays).len(),
                self.ads@ == start.take(seen).filter(stays) + start.skip(seen),
            decreases start.len() - seen,
        {
            assert(self.ads@[i as int] == start[seen]);
            proof {
                reveal(Seq::filter);
                assert(start.take(seen + 1).drop_last() =~= start.take(seen));
                assert(start.skip(seen).drop_first() =~= start.skip(seen + 1));
            }
            if is_same_snapshot(&self.ads[i], &ad) {
                self.ads.remove(i);
                assert(self.ads@ =~= start.take(seen + 1).filter(stays) + start.skip(seen + 1));
            } else {
                i = i + 1;
                assert(self.ads@ =~= start.take(seen + 1).filter(stays) + start.skip(seen + 1));
            }
            proof {
                seen = seen + 1;
            }
        }
        assert(start.skip(seen).len() == 0);
        assert(start.take(seen) =~= start);
        assert(self.ads@ =~= start.filter(stays));
        self.ads.push(ad);
        !self.data_dir.as_str().is_empty()
    }

    /// The newest advertisement for `group` that can be fetched, by term and index.
    pub fn best_snapshot_ad(&self, group: GroupId) -> (r: Option<&SnapshotAdvertisement>)
        ensures
            match r {
                Some(a) => exists|p: int| #[trigger]
                    is_best(self.ads@, group, p) && *a == self.ads@[p],
                None => none_fetchable(self.ads@, group),
            },
    {
        let mut best: Option<usize> = None;
        let mut i: usize = 0;
        while i < self.ads.len()
            invariant
                i <= self.ads@.len(),
                best matches Some(b) ==> b < i && fetchable(self.ads@, group, b as int) && forall|
                    q: int,
                | #[trigger]
                    fetchable(self.ads@, group, q) && q < i ==> !order::pair_lt(
                        ad_key(self.ads@[b as int]),
                        ad_key(self.ads@[q]),
                    ) && (q > b ==> order::pair_lt(
                        ad_key(self.ads@[q]),
                        ad_key(self.ads@[b as int]),
                    )),
                best is None ==> forall|q: int|
                    q < i ==> !#[trigger] fetchable(self.ads@, group, q),
            decreases self.ads@.len() - i,
        {
            let a = &self.ads[i];
            if a.group == group && !a.fetch_url.as_str().is_empty() {
                let better = match best {
                    None => true,
                    Some(b) => {
                        let old_key = (self.ads[b].last_term, self.ads[b].last_index);
                        !order::pair_less((a.last_term, a.last_index), old_key)
                    },
                };
                if better {
                    best = Some(i);
                }
            }
            i = i + 1;
        }
        match best {
            Some(b) => {
                assert(is_best(self.ads@, group, b as int));
                Some(&self.ads[b])
            },
            None => None,
        }
    }

    /// The advertisement for a snapshot of `group` that this node's catalog holds.
    pub fn advertise(&self, group: GroupId, entry: CatalogEntry) -> (r: SnapshotAdvertisement)
        ensures
            r.group == group,
            r.last_index == entry.last_index,
            r.last_term == entry.last_term,
            r.snapshot_id == entry.snapshot_id,
            r.size == entry.size,
            r.sha256_hex == entry.sha256_hex,
            r.fetch_url@ == advertised_url(self.admin_advertise_addr, group),
    {
        SnapshotAdvertisement {
            group,
            last_index: entry.last_index,
            last_term: entry.last_term,
            snapshot_id: entry.snapshot_id,
            size: entry.size,
            sha256_hex: entry.sha256_hex,
            fetch_url: fetch_url(&self.admin_advertise_addr, group),
        }
    }
}

/// After an advertisement is recorded it stands last, its snapshot is advertised once, and if each
/// snapshot was advertised once before, each still is.
pub proof fn law_snapshots_are_advertised_once(
    ads: Seq<SnapshotAdvertisement>,
    ad: SnapshotAdvertisement,
)
    ensures
        with_ad(ads, ad).last() == ad,
        forall|i: int|
            0 <= i < with_ad(ads, ad).len() - 1 ==> !same_snapshot(
                #[trigger] with_ad(ads, ad)[i],
                ad,
            ),
        each_once(ads) ==> each_once(with_ad(ads, ad)),
{
    let stays = |a: SnapshotAdvertisement| !same_snapshot(a, ad);
    let rest = ads.filter(stays);
    lemma_filtered(ads, stays);
    assert forall|i: int| 0 <= i < with_ad(ads, ad).len() - 1 implies !same_snapshot(
        #[trigger] with_ad(ads, ad)[i],
        ad,
    ) by {
        assert(with_ad(ads, ad)[i] == rest[i]);
        assert(stays(rest[i]));
    }
    if each_once(ads) {
        lemma_filter_keeps_each_once(ads, stays);
    }
}

proof fn lemma_filtered(ads: Seq<SnapshotAdvertisement>, p: spec_fn(SnapshotAdvertisement) -> bool)
    ensures
        forall|i: int| 0 <= i < ads.filter(p).len() ==> p(#[trigger] ads.filter(p)[i]),
    decreases ads.len(),
{
    reveal(Seq::filter);
    if ads.len() > 0 {
        lemma_filtered(ads.drop_last(), p);
    }
}

/// Whatever stands in the filtered sequence stands in the whole one.
pub proof fn lemma_filter_from(
    ads: Seq<SnapshotAdvertisement>,
    p: spec_fn(SnapshotAdvertisement) -> bool,
    i: int,
) -> (at: int)
    requires
        0 <= i < ads.filter(p).len(),
    ensures
        0 <= at < ads.len(),
        ads[at] == ads.filter(p)[i],
    decreases ads.len(),
{
    reveal(Seq::filter);
    if ads.len() == 0 {
        0
    } else if i < ads.drop_last().filter(p).len() {
        let at = lemma_filter_from(ads.drop_last(), p, i);
        assert(ads.drop_last()[at] == ads[at]);
        at
    } else {
        ads.len() - 1
    }
}

proof fn lemma_filter_keeps_each_once(
    ads: Seq<SnapshotAdvertisement>,
    p: spec_fn(SnapshotAdvertisement) -> bool,
)
    requires
        each_once(ads),
    ensures
        each_once(ads.filter(p)),
    decreases ads.len(),
{
    reveal(Seq::filter);
    if ads.len() > 0 {
        let init = ads.drop_last();
        assert(each_once(init)) by {
            assert forall|i: int, j: int| 0 <= i < j < init.len() implies !same_snapshot(
                #[trigger] init[i],
                #[trigger] init[j],
            ) by {
                assert(init[i] == ads[i] && init[j] == ads[j]);
            }
        }
        lemma_filter_keeps_each_once(init, p);
        let f = init.filter(p);
        let g = ads.filter(p);
        assert forall|i: int, j: int| 0 <= i < j < g.len() implies !same_snapshot(
            #[trigger] g[i],
            #[trigger] g[j],
        ) by {
            if j < f.len() {
                assert(g[i] == f[i] && g[j] == f[j]);
            } else {
                assert(g[i] == f[i]);
                let at = lemma_filter_from(init, p, i);
                assert(ads[at] == g[i] && ads[ads.len() - 1] == g[j]);
            }
        }
    }
}

} // verus!
