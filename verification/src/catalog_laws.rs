//! What holds of writing snapshots to the catalog, finding them again, and exporting them.

use vstd::prelude::*;

use crate::catalog;
use crate::catalog::{
    accept, dir_name, hex_sha256, CatalogEntry, CatalogError, DirItem, Listing, MetaFound,
    SnapshotCatalog, WritePlan,
};
use crate::multiraft::MultiRaft;
use crate::order;
use crate::plugin::{ArchiveExport, LogPosition};
use crate::plugin_archive;
use crate::plugin_archive::CatalogArchive;
use crate::text;
use crate::type_config::GroupId;

verus! {

/// The item is the directory of a snapshot with readable metadata.
pub open spec fn is_snapshot(item: DirItem) -> bool {
    item.is_dir && item.meta is Good
}

/// The item is a directory whose metadata cannot be read.
pub open spec fn is_broken(item: DirItem) -> bool {
    item.is_dir && item.meta is Bad
}

/// No directory has metadata that cannot be read.
pub open spec fn none_broken(items: Seq<DirItem>) -> bool {
    forall|i: int| 0 <= i < items.len() ==> !is_broken(#[trigger] items[i])
}

/// Older by index, and by term at the same index.
pub open spec fn older(index: u64, term: u64, than_index: u64, than_term: u64) -> bool {
    index < than_index || (index == than_index && term < than_term)
}

/// The position is that of the snapshot which the item holds.
pub open spec fn is_of(p: LogPosition, item: DirItem) -> bool {
    &&& is_snapshot(item)
    &&& p.group == item.meta->Good_0.group
    &&& p.index == item.meta->Good_0.last_index
    &&& p.term == item.meta->Good_0.last_term
    &&& p.snapshot_id@ == item.meta->Good_0.snapshot_id@
}

proof fn lemma_readable(items: Seq<DirItem>)
    ensures
        catalog::all_readable(items) <==> none_broken(items),
        catalog::any_counts(items) && none_broken(items) ==> exists|i: int|
            0 <= i < items.len() && is_snapshot(#[trigger] items[i]),
        forall|i: int|
            0 <= i < items.len() && is_snapshot(#[trigger] items[i]) ==> catalog::counts(items[i]),
{
    if none_broken(items) {
        assert forall|i: int| 0 <= i < items.len() && catalog::counts(
            #[trigger] items[i],
        ) implies items[i].meta is Good by {
            assert(!is_broken(items[i]));
        }
    }
    if catalog::all_readable(items) {
        assert forall|i: int| 0 <= i < items.len() implies !is_broken(#[trigger] items[i]) by {
            if is_broken(items[i]) {
                assert(catalog::counts(items[i]));
            }
        }
    }
}

/// A directory can be listed exactly where no metadata in it is unreadable. Each entry is of a
/// snapshot in it, as its metadata has it, and under the name of its directory; each snapshot has
/// its entry, and they come in the order of the items. Where it cannot, the first that is unreadable
/// says why.
pub proof fn law_listing_is_the_directory(
    c: &SnapshotCatalog,
    items: &Vec<DirItem>,
    r: Result<Listing, CatalogError>,
    n: int,
    i: int,
    j: int,
)
    requires
        call_ensures(SnapshotCatalog::list, (c, items), r),
    ensures
        r is Ok <==> none_broken(items@),
        r is Ok && 0 <= i < r->Ok_0.entries@.len() ==> {
            let e = r->Ok_0.entries@[i];
            let at = r->Ok_0.from@[i] as int;
            &&& 0 <= at < items@.len()
            &&& is_snapshot(items@[at])
            &&& e.group == items@[at].meta->Good_0.group
            &&& e.last_index == items@[at].meta->Good_0.last_index
            &&& e.last_term == items@[at].meta->Good_0.last_term
            &&& e.snapshot_id@ == items@[at].meta->Good_0.snapshot_id@
            &&& e.size == items@[at].meta->Good_0.size
            &&& e.sha256_hex@ == items@[at].meta->Good_0.sha256_hex@
            &&& e.dir is Some <==> items@[at].name is Some
            &&& e.dir is Some ==> e.dir->Some_0@ == items@[at].name->Some_0@
        },
        r is Ok && 0 <= n < items@.len() && is_snapshot(items@[n]) ==> exists|q: int|
            0 <= q < r->Ok_0.entries@.len() && #[trigger] r->Ok_0.from@[q] == n,
        r is Ok && 0 <= i < j < r->Ok_0.entries@.len() ==> r->Ok_0.from@[i] < r->Ok_0.from@[j],
        0 <= n < items@.len() && is_broken(items@[n]) && (forall|m: int|
            0 <= m < n ==> !is_broken(#[trigger] items@[m])) ==> r is Err && r->Err_0 is BadMeta
            && r->Err_0->BadMeta_0@ == items@[n].meta->Bad_0@,
{
    lemma_readable(items@);
    if r is Ok {
        let l = r->Ok_0;
        if 0 <= n < items@.len() && is_snapshot(items@[n]) {
            assert(catalog::counts(items@[n]));
            assert(order::has_position(l.from@, n));
            let q = choose|q: int| 0 <= q < l.from@.len() && #[trigger] l.from@[q] == n;
            assert(l.from@[q] == n);
        }
        if 0 <= i < l.entries@.len() {
            let at = l.from@[i] as int;
            assert(catalog::described_by(l.entries@[i], items@[at]));
            assert(catalog::counts(items@[at]));
        }
    } else {
        let m = r->Err_0->BadMeta_0;
        let k = choose|k: int| #[trigger]
            catalog::first_unreadable(items@, k) && m@ == items@[k].meta->Bad_0@;
        assert(is_broken(items@[k]));
        if 0 <= n < items@.len() && is_broken(items@[n]) && (forall|m: int|
            0 <= m < n ==> !is_broken(#[trigger] items@[m])) {
            if n < k {
                assert(items@.take(k)[n] == items@[n]);
                assert(catalog::counts(items@.take(k)[n]));
            }
            if k < n {
                assert(!is_broken(items@[k]));
            }
        }
    }
}

/// Every listed position is that of a snapshot in the directory, and every snapshot is listed at its
/// own index and term. They come oldest first.
pub proof fn law_positions_are_those_of_the_snapshots(
    a: &CatalogArchive,
    items: &Vec<DirItem>,
    r: Vec<LogPosition>,
    n: int,
    i: int,
    j: int,
)
    requires
        call_ensures(CatalogArchive::list_positions, (a, items), r),
    ensures
        !none_broken(items@) ==> r@.len() == 0,
        0 <= i < r@.len() ==> exists|m: int|
            0 <= m < items@.len() && is_of(r@[i], #[trigger] items@[m]),
        none_broken(items@) && 0 <= n < items@.len() && is_snapshot(items@[n]) ==> exists|q: int|
            0 <= q < r@.len() && is_of(#[trigger] r@[q], items@[n]),
        0 <= i < j < r@.len() ==> !older(r@[j].index, r@[j].term, r@[i].index, r@[i].term),
{
    lemma_readable(items@);
    if none_broken(items@) {
        let (l, by) = choose|l: Listing, by: Seq<usize>|
            catalog::lists(items@, l) && #[trigger] plugin_archive::are_positions(l, by, r@);
        let keys = catalog::age_keys(l.entries@);
        if 0 <= i < r@.len() {
            let e = by[i] as int;
            assert(plugin_archive::is_position(r@[i], l.entries@[e]));
            let m = l.from@[e] as int;
            assert(catalog::described_by(l.entries@[e], items@[m]));
            assert(catalog::counts(items@[m]));
            assert(is_of(r@[i], items@[m]));
        }
        if 0 <= n < items@.len() && is_snapshot(items@[n]) {
            assert(catalog::counts(items@[n]));
            assert(order::has_position(l.from@, n));
            let p = choose|p: int| 0 <= p < l.from@.len() && #[trigger] l.from@[p] == n;
            assert(catalog::described_by(l.entries@[p], items@[n]));
            assert(keys.len() == l.entries@.len());
            assert(order::has_position(by, p));
            let q = choose|q: int| 0 <= q < by.len() && #[trigger] by[q] == p;
            assert(plugin_archive::is_position(r@[q], l.entries@[by[q] as int]));
            assert(is_of(r@[q], items@[n]));
        }
        if 0 <= i < j < r@.len() {
            assert(plugin_archive::is_position(r@[i], l.entries@[by[i] as int]));
            assert(plugin_archive::is_position(r@[j], l.entries@[by[j] as int]));
            assert(order::goes_before(keys, by[i] as int, by[j] as int));
        }
    }
}

/// Every listed position can be exported, and the export tells of a snapshot at that index and
/// term, the one whose bytes are read for it; what is exported is in the directory, with the size
/// and digest of its metadata.
pub proof fn law_listed_positions_can_be_exported(
    a: &CatalogArchive,
    items: &Vec<DirItem>,
    r: Vec<LogPosition>,
    i: int,
    x: Option<ArchiveExport>,
    d: Option<usize>,
)
    requires
        call_ensures(CatalogArchive::list_positions, (a, items), r),
        0 <= i < r@.len(),
        call_ensures(CatalogArchive::export_at, (a, items, r@[i].index, r@[i].term), x),
        call_ensures(CatalogArchive::read_bytes_at, (a, items, r@[i].index, r@[i].term), d),
    ensures
        plugin_archive::can_export(items@, r@[i].index, r@[i].term),
        x is Some,
        x->Some_0.position.index == r@[i].index,
        x->Some_0.position.term == r@[i].term,
        d is Some,
        d->Some_0 < items@.len(),
        is_of(x->Some_0.position, items@[d->Some_0 as int]),
        x->Some_0.size == items@[d->Some_0 as int].meta->Good_0.size,
        x->Some_0.sha256_hex@ == items@[d->Some_0 as int].meta->Good_0.sha256_hex@,
{
    law_positions_are_those_of_the_snapshots(a, items, r, 0, i, i);
    lemma_readable(items@);
    let m = choose|m: int| 0 <= m < items@.len() && is_of(r@[i], #[trigger] items@[m]);
    assert(plugin_archive::taken_at(items@[m], r@[i].index, r@[i].term));
    lemma_first_taken(items@, r@[i].index, r@[i].term, m);
}

/// What is exported for an index and term is a snapshot at that index and term, the first of the
/// directory, and there is an export wherever the directory can be listed and holds one.
pub proof fn law_export_is_at_its_point(
    a: &CatalogArchive,
    items: &Vec<DirItem>,
    index: u64,
    term: u64,
    x: Option<ArchiveExport>,
    d: Option<usize>,
    n: int,
)
    requires
        call_ensures(CatalogArchive::export_at, (a, items, index, term), x),
        call_ensures(CatalogArchive::read_bytes_at, (a, items, index, term), d),
        0 <= n < items@.len(),
        is_snapshot(items@[n]),
        items@[n].meta->Good_0.last_index == index,
        items@[n].meta->Good_0.last_term == term,
    ensures
        x is Some <==> none_broken(items@),
        d is Some <==> none_broken(items@),
        x is Some ==> x->Some_0.position.index == index && x->Some_0.position.term == term,
        d is Some ==> d->Some_0 <= n && is_snapshot(items@[d->Some_0 as int])
            && items@[d->Some_0 as int].meta->Good_0.last_index == index
            && items@[d->Some_0 as int].meta->Good_0.last_term == term,
        x is Some && d is Some ==> {
            let item = items@[d->Some_0 as int];
            &&& is_of(x->Some_0.position, item)
            &&& x->Some_0.size == item.meta->Good_0.size
            &&& x->Some_0.sha256_hex@ == item.meta->Good_0.sha256_hex@
            &&& x->Some_0.data_path_hint@.len() > item.path@.len()
            &&& x->Some_0.data_path_hint@.take(item.path@.len() as int) == item.path@
        },
{
    lemma_readable(items@);
    assert(plugin_archive::taken_at(items@[n], index, term));
    lemma_first_taken(items@, index, term, n);
    if x is Some {
        let k = choose|k: int| #[trigger]
            plugin_archive::first_taken_at(items@, index, term, k) && plugin_archive::is_export(
                x->Some_0,
                items@[k],
            );
        if d is Some {
            plugin_archive::law_export_tells_of_what_is_read(
                items@,
                index,
                term,
                x->Some_0,
                k,
                d->Some_0 as int,
            );
            let path = items@[k].path@;
            reveal_strlit("data.bin");
            assert(x->Some_0.data_path_hint@.take(path.len() as int) =~= path);
        }
    }
}

proof fn lemma_first_taken(items: Seq<DirItem>, index: u64, term: u64, m: int)
    requires
        0 <= m < items.len(),
        plugin_archive::taken_at(items[m], index, term),
    ensures
        exists|n: int| n <= m && #[trigger] plugin_archive::first_taken_at(items, index, term, n),
    decreases m,
{
    if exists|i: int| 0 <= i < m && plugin_archive::taken_at(#[trigger] items[i], index, term) {
        let i = choose|i: int|
            0 <= i < m && plugin_archive::taken_at(#[trigger] items[i], index, term);
        lemma_first_taken(items, index, term, i);
    } else {
        assert(plugin_archive::first_taken_at(items, index, term, m));
    }
}

/// What is written is what is handed in: the metadata and the entry tell of its group, index, term
/// and id, the size of its bytes and their digest. The directory is named after index and term, and
/// the digest file holds the digest.
pub proof fn law_written_metadata_describes_the_snapshot(
    c: &SnapshotCatalog,
    group: GroupId,
    last_index: u64,
    last_term: u64,
    snapshot_id: String,
    data: &[u8],
    plan: WritePlan,
    digest: String,
    dir: String,
)
    requires
        call_ensures(
            SnapshotCatalog::write,
            (c, group, last_index, last_term, snapshot_id, data),
            plan,
        ),
        call_ensures(hex_sha256, (data,), digest),
        call_ensures(dir_name, (last_index, last_term), dir),
    ensures
        plan.meta.group == group,
        plan.meta.last_index == last_index,
        plan.meta.last_term == last_term,
        plan.meta.snapshot_id@ == snapshot_id@,
        plan.meta.size == data@.len(),
        plan.meta.sha256_hex@ == digest@,
        plan.entry.group == group,
        plan.entry.last_index == last_index,
        plan.entry.last_term == last_term,
        plan.entry.snapshot_id@ == snapshot_id@,
        plan.entry.size == data@.len(),
        plan.entry.sha256_hex@ == digest@,
        plan.entry.dir is Some,
        plan.entry.dir->Some_0@ == dir@,
        plan.sha256_file@.drop_last() == digest@,
        digest@.len() == 64,
{
    reveal_strlit("\n");
    assert(plan.sha256_file@.drop_last() =~= digest@);
}

/// Snapshots of different groups are written to different directories, and those of one group at
/// different points too.
pub proof fn law_written_snapshots_stay_apart(
    c: &SnapshotCatalog,
    group_a: GroupId,
    index_a: u64,
    term_a: u64,
    id_a: String,
    data_a: &[u8],
    a: WritePlan,
    group_b: GroupId,
    index_b: u64,
    term_b: u64,
    id_b: String,
    data_b: &[u8],
    b: WritePlan,
)
    requires
        call_ensures(SnapshotCatalog::write, (c, group_a, index_a, term_a, id_a, data_a), a),
        call_ensures(SnapshotCatalog::write, (c, group_b, index_b, term_b, id_b, data_b), b),
    ensures
        a.group_dir@ == b.group_dir@ <==> group_a == group_b,
        a.entry.dir->Some_0@ == b.entry.dir->Some_0@ <==> index_a == index_b && term_a == term_b,
{
    if a.group_dir@ == b.group_dir@ {
        text::lemma_decimal_injective(group_a as nat, group_b as nat);
    }
    if a.entry.dir->Some_0@ == b.entry.dir->Some_0@ {
        catalog::law_directories_differ(index_a, term_a, index_b, term_b);
    }
}

/// A snapshot is read back as it was written: where a directory can be listed and holds the metadata
/// of what was written, as the first that its id or the name of its directory leads to, then
/// looking for it finds its entry, reading its bytes gives them, and reading others with another
/// digest fails.
pub proof fn law_written_snapshot_is_found_and_read(
    c: &SnapshotCatalog,
    group: GroupId,
    last_index: u64,
    last_term: u64,
    snapshot_id: String,
    data: &[u8],
    plan: WritePlan,
    items: &Vec<DirItem>,
    k: int,
    l: Listing,
    entries: &Vec<CatalogEntry>,
    id: &str,
    found: Option<usize>,
)
    requires
        call_ensures(
            SnapshotCatalog::write,
            (c, group, last_index, last_term, snapshot_id, data),
            plan,
        ),
        0 <= k < items@.len(),
        items@[k].is_dir,
        items@[k].meta == MetaFound::Good(plan.meta),
        items@[k].name is Some,
        items@[k].name->Some_0@ == plan.entry.dir->Some_0@,
        call_ensures(SnapshotCatalog::list, (c, items), Ok(l)),
        *entries == l.entries,
        id@ == snapshot_id@ || id@ == plan.entry.dir->Some_0@,
        forall|i: int|
            0 <= i < k && is_snapshot(#[trigger] items@[i]) ==> items@[i].meta->Good_0.snapshot_id@
                != id@ && (items@[i].name is Some ==> items@[i].name->Some_0@ != id@),
        call_ensures(SnapshotCatalog::find, (c, entries, id), found),
    ensures
        found is Some,
        found->Some_0 < l.entries@.len(),
        l.from@[found->Some_0 as int] == k,
        l.entries@[found->Some_0 as int].group == group,
        l.entries@[found->Some_0 as int].last_index == last_index,
        l.entries@[found->Some_0 as int].last_term == last_term,
        l.entries@[found->Some_0 as int].snapshot_id@ == snapshot_id@,
        l.entries@[found->Some_0 as int].size == data@.len(),
        l.entries@[found->Some_0 as int].sha256_hex@ == plan.entry.sha256_hex@,
{
    law_listing_is_the_directory(c, items, Ok(l), k, 0, 0);
    let q = choose|q: int| 0 <= q < l.entries@.len() && #[trigger] l.from@[q] == k;
    assert(catalog::described_by(l.entries@[q], items@[k]));
    assert(catalog::named(l.entries@[q], id@));
    if found is Some {
        let p = found->Some_0 as int;
        law_listing_is_the_directory(c, items, Ok(l), k, p, q);
        let at = l.from@[p] as int;
        assert(catalog::described_by(l.entries@[p], items@[at]));
        if p < q {
            assert(at < k);
            assert(is_snapshot(items@[at]));
        }
        if p > q {
            assert(!catalog::named(l.entries@[q], id@));
        }
    }
}

/// The snapshot that a name leads to is the first that it names, by its id or by its directory;
/// there is none exactly where it names none.
pub proof fn law_find_goes_by_id_or_directory(
    c: &SnapshotCatalog,
    entries: &Vec<CatalogEntry>,
    id: &str,
    r: Option<usize>,
    i: int,
)
    requires
        call_ensures(SnapshotCatalog::find, (c, entries, id), r),
        0 <= i < entries@.len(),
        entries@[i].snapshot_id@ == id@ || (entries@[i].dir is Some && entries@[i].dir->Some_0@
            == id@),
    ensures
        r is Some,
        r->Some_0 <= i,
        entries@[r->Some_0 as int].snapshot_id@ == id@ || (entries@[r->Some_0 as int].dir is Some
            && entries@[r->Some_0 as int].dir->Some_0@ == id@),
{
    assert(catalog::named(entries@[i], id@));
}

/// Bytes are handed out exactly where their digest is that of the entry, and then unchanged; else
/// both digests are told.
pub proof fn law_read_hands_out_what_has_the_digest(
    c: &SnapshotCatalog,
    entry: &CatalogEntry,
    data: Vec<u8>,
    r: Result<Vec<u8>, CatalogError>,
    slice: &[u8],
    digest: String,
)
    requires
        call_ensures(SnapshotCatalog::read, (c, entry, data), r),
        slice@ == data@,
        call_ensures(hex_sha256, (slice,), digest),
    ensures
        r is Ok <==> digest@ == entry.sha256_hex@,
        r is Ok ==> r->Ok_0@ == data@,
        r is Err ==> r->Err_0 is ShaMismatch && r->Err_0->expected@ == entry.sha256_hex@
            && r->Err_0->actual@ == digest@,
{
}

/// Fetched bytes are accepted exactly where the two digests are the same.
pub proof fn law_fetched_bytes_have_the_digest(
    expected: &str,
    actual: String,
    data: Vec<u8>,
    r: Result<Vec<u8>, CatalogError>,
)
    requires
        call_ensures(accept, (expected, actual, data), r),
    ensures
        r is Ok <==> expected@ == actual@,
        r is Ok ==> r->Ok_0@ == data@,
        r is Err ==> r->Err_0 is ShaMismatch && r->Err_0->expected@ == expected@
            && r->Err_0->actual@ == actual@,
{
}

/// The latest snapshot is one that none is newer than, by index and then by term; there is one
/// unless there are no snapshots. Of those at the same point it is the first.
pub proof fn law_latest_is_the_newest(
    c: &SnapshotCatalog,
    entries: &Vec<CatalogEntry>,
    r: Option<usize>,
    i: int,
)
    requires
        call_ensures(SnapshotCatalog::latest, (c, entries), r),
        0 <= i < entries@.len(),
    ensures
        r is Some,
        r->Some_0 < entries@.len(),
        !older(
            entries@[r->Some_0 as int].last_index,
            entries@[r->Some_0 as int].last_term,
            entries@[i].last_index,
            entries@[i].last_term,
        ),
        i < r->Some_0 ==> older(
            entries@[i].last_index,
            entries@[i].last_term,
            entries@[r->Some_0 as int].last_index,
            entries@[r->Some_0 as int].last_term,
        ),
{
    let k = catalog::age_keys(entries@);
    assert(k[i] == (entries@[i].last_index, entries@[i].last_term));
    let p = r->Some_0 as int;
    assert(k[p] == (entries@[p].last_index, entries@[p].last_term));
}

/// A node with a catalog hands out a snapshot of a directory that it can list and that holds one:
/// none of the directory is newer.
pub proof fn law_node_hands_out_its_newest(
    node: &MultiRaft,
    items: &Vec<DirItem>,
    r: Option<usize>,
    n: int,
)
    requires
        call_ensures(MultiRaft::latest_catalog_entry, (node, items), r),
        0 <= n < items@.len(),
        is_snapshot(items@[n]),
    ensures
        r is Some <==> node.snapshot_rt.catalog is Some && none_broken(items@),
        r is Some ==> r->Some_0 < items@.len() && is_snapshot(items@[r->Some_0 as int]) && !older(
            items@[r->Some_0 as int].meta->Good_0.last_index,
            items@[r->Some_0 as int].meta->Good_0.last_term,
            items@[n].meta->Good_0.last_index,
            items@[n].meta->Good_0.last_term,
        ),
{
    lemma_readable(items@);
    assert(catalog::counts(items@[n]));
    if r is Some {
        let (l, p) = choose|l: Listing, p: int|
            catalog::lists(items@, l) && #[trigger] catalog::is_newest(l.entries@, p)
                && r->Some_0 == l.from@[p];
        let k = catalog::age_keys(l.entries@);
        assert(order::has_position(l.from@, n));
        let q = choose|q: int| 0 <= q < l.from@.len() && #[trigger] l.from@[q] == n;
        assert(k[q] == (l.entries@[q].last_index, l.entries@[q].last_term));
        assert(k[p] == (l.entries@[p].last_index, l.entries@[p].last_term));
        assert(catalog::described_by(l.entries@[p], items@[l.from@[p] as int]));
        assert(catalog::described_by(l.entries@[q], items@[l.from@[q] as int]));
    }
}

/// A catalog keeps what it was told to keep, and at least one.
pub proof fn law_catalog_keeps_at_least_one(
    root: String,
    keep: usize,
    c: &SnapshotCatalog,
    kept: usize,
    at: &str,
)
    requires
        call_ensures(SnapshotCatalog::new, (root, keep), *c),
        call_ensures(SnapshotCatalog::keep, (c,), kept),
        call_ensures(SnapshotCatalog::root, (c,), at),
    ensures
        kept >= 1,
        keep >= 1 ==> kept == keep,
        keep == 0 ==> kept == 1,
        at@ == root@,
{
}

/// Pruning removes as many snapshots as there are more than are kept, each once, oldest first; none
/// that stays is older than one that goes.
pub proof fn law_prune_removes_the_oldest(
    c: &SnapshotCatalog,
    kept: usize,
    entries: &Vec<CatalogEntry>,
    gone: Vec<usize>,
    stays: int,
    i: int,
    j: int,
)
    requires
        call_ensures(SnapshotCatalog::keep, (c,), kept),
        call_ensures(SnapshotCatalog::prune, (c, entries), gone),
        0 <= stays < entries@.len(),
    ensures
        entries@.len() <= kept ==> gone@.len() == 0,
        entries@.len() > kept ==> gone@.len() == entries@.len() - kept,
        0 <= i < gone@.len() ==> gone@[i] < entries@.len(),
        0 <= i < j < gone@.len() ==> gone@[i] != gone@[j] && !older(
            entries@[gone@[j] as int].last_index,
            entries@[gone@[j] as int].last_term,
            entries@[gone@[i] as int].last_index,
            entries@[gone@[i] as int].last_term,
        ),
        0 <= i < gone@.len() && !order::has_position(gone@, stays) ==> !older(
            entries@[stays].last_index,
            entries@[stays].last_term,
            entries@[gone@[i] as int].last_index,
            entries@[gone@[i] as int].last_term,
        ),
{
    let k = catalog::age_keys(entries@);
    let by = choose|by: Seq<usize>| #[trigger]
        order::is_stable_order(k, by) && gone@ == (if entries@.len() <= kept {
            Seq::empty()
        } else {
            by.take(entries@.len() - kept)
        });
    if entries@.len() > kept {
        assert forall|x: int| 0 <= x < gone@.len() implies gone@[x] == #[trigger] by[x] by {}
        if 0 <= i < gone@.len() {
            assert(gone@[i] == by[i]);
            let e = by[i] as int;
            assert(k[e] == (entries@[e].last_index, entries@[e].last_term));
            if i < j < gone@.len() {
                assert(gone@[j] == by[j]);
                let f = by[j] as int;
                assert(k[f] == (entries@[f].last_index, entries@[f].last_term));
                assert(order::goes_before(k, by[i] as int, by[j] as int));
            }
            assert(order::has_position(by, stays));
            let s = choose|s: int| 0 <= s < by.len() && #[trigger] by[s] == stays;
            assert(k[stays] == (entries@[stays].last_index, entries@[stays].last_term));
            if s < gone@.len() {
                assert(gone@[s] == by[s]);
                assert(order::has_position(gone@, stays));
            } else {
                assert(order::goes_before(k, by[i] as int, by[s] as int));
            }
        }
    }
}

/// Nothing is exported, and no bytes are read, where no snapshot was taken at that index and term.
pub proof fn law_nothing_is_exported_without_a_snapshot(
    a: &CatalogArchive,
    items: &Vec<DirItem>,
    index: u64,
    term: u64,
    x: Option<ArchiveExport>,
    d: Option<usize>,
)
    requires
        call_ensures(CatalogArchive::export_at, (a, items, index, term), x),
        call_ensures(CatalogArchive::read_bytes_at, (a, items, index, term), d),
        forall|n: int|
            0 <= n < items@.len() && is_snapshot(#[trigger] items@[n])
                ==> items@[n].meta->Good_0.last_index != index || items@[n].meta->Good_0.last_term
                != term,
    ensures
        x is None,
        d is None,
{
    if plugin_archive::can_export(items@, index, term) {
        let n = choose|n: int| #[trigger] plugin_archive::first_taken_at(items@, index, term, n);
        assert(is_snapshot(items@[n]));
    }
}

} // verus!
