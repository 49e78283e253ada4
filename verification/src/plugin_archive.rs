//! Archive operations over the catalog of durable snapshots.

use vstd::prelude::*;

use crate::catalog;
use crate::catalog::{CatalogEntry, DirItem, Listing, SnapshotCatalog};
use crate::order;
use crate::plugin::{ArchiveExport, ArchiveSnapshot, LogPosition};
use crate::text;

verus! {

/// Hands out what the catalog holds. Each operation takes the items found in a group's directory.
pub struct CatalogArchive {
    catalog: SnapshotCatalog,
}

/// `p` is the position of the snapshot `e`.
pub open spec fn is_position(p: LogPosition, e: CatalogEntry) -> bool {
    &&& p.group == e.group
    &&& p.term == e.last_term
    &&& p.index == e.last_index
    &&& p.snapshot_id@ == e.snapshot_id@
}

/// The positions are those of the listed snapshots by rising index and term; snapshots at the same
/// point keep the order in which they were found.
pub open spec fn are_positions(l: Listing, by: Seq<usize>, positions: Seq<LogPosition>) -> bool {
    &&& order::is_stable_order(catalog::age_keys(l.entries@), by)
    &&& positions.len() == by.len()
    &&& forall|i: int|
        0 <= i < positions.len() ==> is_position(
            #[trigger] positions[i],
            l.entries@[by[i] as int],
        )
}

/// The item holds a snapshot that was taken at that index and term.
pub open spec fn taken_at(item: DirItem, index: u64, term: u64) -> bool {
    &&& catalog::counts(item)
    &&& item.meta matches catalog::MetaFound::Good(m)
    &&& m.last_index == index
    &&& m.last_term == term
}

/// The item at `n` is the first that holds a snapshot taken at that index and term.
pub open spec fn first_taken_at(items: Seq<DirItem>, index: u64, term: u64, n: int) -> bool {
    &&& 0 <= n < items.len()
    &&& taken_at(items[n], index, term)
    &&& forall|i: int| 0 <= i < n ==> !taken_at(#[trigger] items[i], index, term)
}

/// The snapshot found at index and term can be handed out: the directory can be listed, and holds
/// one.
pub open spec fn can_export(items: Seq<DirItem>, index: u64, term: u64) -> bool {
    &&& catalog::all_readable(items)
    &&& exists|n: int| #[trigger] first_taken_at(items, index, term, n)
}

fn position_of(e: &CatalogEntry) -> (p: LogPosition)
    ensures
        is_position(p, *e),
{
    LogPosition {
        group: e.group,
        term: e.last_term,
        index: e.last_index,
        snapshot_id: e.snapshot_id.clone(),
    }
}

/// The position in the listing of the first snapshot taken at that index and term.
fn entry_at(
    items: &Vec<DirItem>,
    l: &Listing,
    index: u64,
    term: u64,
) -> (r: Option<usize>)
    requires
        catalog::lists(items@, *l),
    ensures
        match r {
            Some(p) => p < l.entries@.len() && first_taken_at(
                items@,
                index,
                term,
                l.from@[p as int] as int,
            ),
            None => forall|i: int|
                0 <= i < items@.len() ==> !taken_at(#[trigger] items@[i], index, term),
        },
{
    let mut p: usize = 0;
    while p < l.entries.len()
        invariant
            p <= l.entries@.len(),
            catalog::lists(items@, *l),
            forall|q: int|
                0 <= q < p ==> !((#[trigger] l.entries@[q]).last_index == index
                    && l.entries@[q].last_term == term),
        decreases l.entries@.len() - p,
    {
        let e = &l.entries[p];
        if e.last_index == index && e.last_term == term {
            proof {
                let n = l.from@[p as int] as int;
                assert(catalog::described_by(l.entries@[p as int], items@[n]));
                assert forall|i: int| 0 <= i < n implies !taken_at(
                    #[trigger] items@[i],
                    index,
                    term,
                ) by {
                    lemma_not_taken(items@, *l, index, term, p as int, i);
                }
            }
            return Some(p);
        }
        p = p + 1;
    }
    proof {
        assert forall|i: int| 0 <= i < items@.len() implies !taken_at(
            #[trigger] items@[i],
            index,
            term,
        ) by {
            lemma_not_taken(items@, *l, index, term, p as int, i);
        }
    }
    None
}

/// Where none of the first `p` entries is at that index and term, no item before the `p`th entry's
/// is.
proof fn lemma_not_taken(
    items: Seq<DirItem>,
    l: Listing,
    index: u64,
    term: u64,
    p: int,
    i: int,
)
    requires
        catalog::lists(items, l),
        0 <= p <= l.entries@.len(),
        forall|q: int|
            0 <= q < p ==> !((#[trigger] l.entries@[q]).last_index == index
                && l.entries@[q].last_term == term),
        0 <= i < items.len(),
        p < l.entries@.len() ==> i < l.from@[p],
    ensures
        !taken_at(items[i], index, term),
{
    if taken_at(items[i], index, term) {
        assert(catalog::counts(items[i]));
        assert(order::has_position(l.from@, i));
        let q = choose|q: int| 0 <= q < l.from@.len() && #[trigger] l.from@[q] == i;
        assert(catalog::described_by(l.entries@[q], items[l.from@[q] as int]));
        if q > p {
            assert(l.from@[p] < l.from@[q]);
        }
        assert(l.entries@[q].last_index == index);
    }
}

impl CatalogArchive {
    pub closed spec fn spec_catalog(&self) -> SnapshotCatalog {
        self.catalog
    }

    pub fn new(catalog: SnapshotCatalog) -> (r: Self)
        ensures
            r.spec_catalog() == catalog,
    {
        CatalogArchive { catalog }
    }

    pub fn name(&self) -> (r: &'static str)
        ensures
            r@ == "catalog-archive"@,
    {
        "catalog-archive"
    }

    /// The positions of the snapshots, oldest first; none where the directory cannot be listed.
    pub fn list_positions(&self, items: &Vec<DirItem>) -> (r: Vec<LogPosition>)
        ensures
            if catalog::all_readable(items@) {
                exists|l: Listing, by: Seq<usize>|
                    catalog::lists(items@, l) && #[trigger] are_positions(l, by, r@)
            } else {
                r@.len() == 0
            },
    {
        let l = match self.catalog.list(items) {
            Err(_) => {
                proof {
                    let k = choose|k: int| #[trigger] catalog::first_unreadable(items@, k);
                    assert(catalog::counts(items@[k]));
                }
                return Vec::new();
            },
            Ok(l) => l,
        };
        let keys = catalog::age_key_list(&l.entries);
        let by = order::stable_order(&keys);
        let mut out: Vec<LogPosition> = Vec::new();
        let mut i: usize = 0;
        while i < by.len()
            invariant
                i <= by@.len(),
                order::is_stable_order(catalog::age_keys(l.entries@), by@),
                out@.len() == i,
                forall|j: int|
                    0 <= j < i ==> is_position(#[trigger] out@[j], l.entries@[by@[j] as int]),
            decreases by@.len() - i,
        {
            assert(by@[i as int] < catalog::age_keys(l.entries@).len());
            out.push(position_of(&l.entries[by[i]]));
            i = i + 1;
        }
        assert(are_positions(l, by@, out@));
        out
    }

    /// What is known of the snapshot at that index and term, without its bytes; of several the
    /// first that was found.
    pub fn export_at(&self, items: &Vec<DirItem>, index: u64, term: u64) -> (r: Option<
        ArchiveExport,
    >)
        ensures
            r is Some <==> can_export(items@, index, term),
            r matches Some(x) ==> exists|n: int| #[trigger]
                first_taken_at(items@, index, term, n) && is_export(x, items@[n]),
    {
        let l = match self.catalog.list(items) {
            Err(_) => {
                proof {
                    let k = choose|k: int| #[trigger] catalog::first_unreadable(items@, k);
                    assert(catalog::counts(items@[k]));
                }
                return None;
            },
            Ok(l) => l,
        };
        match entry_at(items, &l, index, term) {
            None => None,
            Some(p) => {
                let n: usize = l.from[p];
                let e = &l.entries[p];
                assert(first_taken_at(items@, index, term, n as int));
                assert(catalog::described_by(l.entries@[p as int], items@[n as int]));
                let x = ArchiveExport {
                    position: position_of(e),
                    size: e.size,
                    sha256_hex: e.sha256_hex.clone(),
                    data_path_hint: text::join_path(items[n].path.as_str(), catalog::DATA_FILE),
                };
                assert(is_export(x, items@[n as int]));
                Some(x)
            },
        }
    }

    /// The position among the items of the snapshot at that index and term, whose bytes are then
    /// read; of several the first that was found.
    pub fn read_bytes_at(&self, items: &Vec<DirItem>, index: u64, term: u64) -> (r: Option<usize>)
        ensures
            r is Some <==> can_export(items@, index, term),
            r matches Some(d) ==> first_taken_at(items@, index, term, d as int),
    {
        let l = match self.catalog.list(items) {
            Err(_) => {
                proof {
                    let k = choose|k: int| #[trigger] catalog::first_unreadable(items@, k);
                    assert(catalog::counts(items@[k]));
                }
                return None;
            },
            Ok(l) => l,
        };
        match entry_at(items, &l, index, term) {
            None => None,
            Some(p) => Some(l.from[p]),
        }
    }

    pub fn snapshot(&self) -> (r: ArchiveSnapshot)
        ensures
            r.plugin@ == "catalog-archive"@,
            r.positions@.len() == 0,
    {
        ArchiveSnapshot { plugin: self.name(), positions: Vec::new() }
    }
}

/// `x` tells of the snapshot that the item holds.
pub open spec fn is_export(x: ArchiveExport, item: DirItem) -> bool {
    &&& item.meta matches catalog::MetaFound::Good(m)
    &&& x.position.group == m.group
    &&& x.position.term == m.last_term
    &&& x.position.index == m.last_index
    &&& x.position.snapshot_id@ == m.snapshot_id@
    &&& x.size == m.size
    &&& x.sha256_hex@ == m.sha256_hex@
    &&& x.data_path_hint@ == text::joined(item.path@, catalog::DATA_FILE@)
}

/// What is exported is what is read: the bytes read for an index and term are those of the
/// snapshot that the export tells of, whatever ids the snapshots have.
pub proof fn law_export_tells_of_what_is_read(
    items: Seq<DirItem>,
    index: u64,
    term: u64,
    x: ArchiveExport,
    n: int,
    d: int,
)
    requires
        first_taken_at(items, index, term, n),
        is_export(x, items[n]),
        first_taken_at(items, index, term, d),
    ensures
        d == n,
        x.position.index == index,
        x.position.term == term,
{
}

} // verus!
