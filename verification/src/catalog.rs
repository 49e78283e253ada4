//! The catalog of durable snapshots: one directory `<index>-<term>` for each, below one for the
//! group.

use sha2::Digest;
use vstd::prelude::*;

use crate::order;
use crate::text;
use crate::type_config::GroupId;

verus! {

/// One durable snapshot.
#[derive(Debug)]
pub struct CatalogEntry {
    pub group: GroupId,
    pub last_index: u64,
    pub last_term: u64,
    pub snapshot_id: String,
    pub size: u64,
    pub sha256_hex: String,
    /// The name of its directory, where that is text.
    pub dir: Option<String>,
}

/// What the metadata file of a snapshot holds.
#[derive(Debug)]
pub struct MetaFile {
    pub group: GroupId,
    pub last_index: u64,
    pub last_term: u64,
    pub snapshot_id: String,
    pub size: u64,
    pub sha256_hex: String,
}

/// What a directory's metadata file was found to be.
#[derive(Debug)]
pub enum MetaFound {
    Missing,
    /// It could not be read as metadata.
    Bad(String),
    Good(MetaFile),
}

/// One item found in a group's directory.
#[derive(Debug)]
pub struct DirItem {
    pub is_dir: bool,
    /// Its name, where that is text.
    pub name: Option<String>,
    /// Its path, as it is shown.
    pub path: String,
    pub meta: MetaFound,
}

/// Why a catalog cannot be read.
#[derive(Debug)]
pub enum CatalogError {
    BadMeta(String),
    ShaMismatch { expected: String, actual: String },
}

/// The text of `e`.
pub open spec fn catalog_error_text(e: CatalogError) -> Seq<char> {
    match e {
        CatalogError::BadMeta(m) => m@,
        CatalogError::ShaMismatch { expected, actual } => "snapshot sha256 mismatch: expected "@
            + expected@ + ", got "@ + actual@,
    }
}

impl CatalogError {
    pub fn message(&self) -> (r: String)
        ensures
            r@ == catalog_error_text(*self),
    {
        match self {
            CatalogError::BadMeta(m) => m.clone(),
            CatalogError::ShaMismatch { expected, actual } => {
                let mut out = "snapshot sha256 mismatch: expected ".to_owned();
                out.append(expected.as_str());
                out.append(", got ");
                out.append(actual.as_str());
                out
            },
        }
    }
}

/// The SHA-256 digest of a byte string.
pub uninterp spec fn sha256(data: Seq<u8>) -> Seq<u8>;

/// Calls `sha2::Sha256::digest`: the digest is a function of the bytes alone, 32 bytes long.
#[verifier::external_body]
fn sha256_digest(data: &[u8]) -> (r: Vec<u8>)
    ensures
        r@ == sha256(data@),
        r@.len() == 32,
{
    sha2::Sha256::digest(data).to_vec()
}

/// The SHA-256 digest of `data` in lower-case hexadecimal.
pub fn hex_sha256(data: &[u8]) -> (r: String)
    ensures
        r@ == text::hex(sha256(data@)),
        r@.len() == 64,
{
    let digest = sha256_digest(data);
    text::hex_text(digest.as_slice())
}

/// The name of a snapshot's directory.
pub open spec fn snapshot_dir_name(last_index: u64, last_term: u64) -> Seq<char> {
    text::decimal(last_index as nat) + "-"@ + text::decimal(last_term as nat)
}

/// The name of a snapshot's directory: `<index>-<term>`.
pub fn dir_name(last_index: u64, last_term: u64) -> (r: String)
    ensures
        r@ == snapshot_dir_name(last_index, last_term),
{
    let mut out = text::decimal_text(last_index);
    out.append("-");
    out.append(text::decimal_text(last_term).as_str());
    out
}

/// What is to be written for a snapshot, in this order: the data, the metadata, the digest; then
/// its directory is synced and older snapshots are pruned.
#[derive(Debug)]
pub struct WritePlan {
    /// The name of the group's directory below the root.
    pub group_dir: String,
    pub meta: MetaFile,
    /// The contents of the digest file.
    pub sha256_file: String,
    pub entry: CatalogEntry,
}

/// The snapshot file of an entry.
pub const DATA_FILE: &'static str = "data.bin";

/// The metadata file of an entry.
pub const META_FILE: &'static str = "meta.json";

/// The digest file of an entry.
pub const SHA256_FILE: &'static str = "sha256";

/// What a group's directory holds: its snapshots, each with the position of the item it was read
/// from.
#[derive(Debug)]
pub struct Listing {
    pub entries: Vec<CatalogEntry>,
    pub from: Vec<usize>,
}

/// An item counts where it is a directory that holds a metadata file.
pub open spec fn counts(item: DirItem) -> bool {
    item.is_dir && !(item.meta is Missing)
}

/// One of the items counts.
pub open spec fn any_counts(items: Seq<DirItem>) -> bool {
    exists|i: int| 0 <= i < items.len() && counts(#[trigger] items[i])
}

/// `e` is the entry that the item's metadata describes.
pub open spec fn described_by(e: CatalogEntry, item: DirItem) -> bool {
    &&& item.meta matches MetaFound::Good(m)
    &&& e.group == m.group
    &&& e.last_index == m.last_index
    &&& e.last_term == m.last_term
    &&& e.snapshot_id@ == m.snapshot_id@
    &&& e.size == m.size
    &&& e.sha256_hex@ == m.sha256_hex@
    &&& match (e.dir, item.name) {
        (Some(a), Some(b)) => a@ == b@,
        (None, None) => true,
        _ => false,
    }
}

/// No item that counts has metadata that could not be read.
pub open spec fn all_readable(items: Seq<DirItem>) -> bool {
    forall|i: int| 0 <= i < items.len() && counts(#[trigger] items[i]) ==> items[i].meta is Good
}

/// The item at `k` is the first whose metadata could not be read.
pub open spec fn first_unreadable(items: Seq<DirItem>, k: int) -> bool {
    &&& 0 <= k < items.len()
    &&& counts(items[k])
    &&& items[k].meta is Bad
    &&& all_readable(items.take(k))
}

/// The listing has an entry for each item that counts, in order.
pub open spec fn lists(items: Seq<DirItem>, l: Listing) -> bool {
    &&& l.entries@.len() == l.from@.len()
    &&& forall|i: int, j: int| 0 <= i < j < l.from@.len() ==> l.from@[i] < l.from@[j]
    &&& forall|i: int|
        0 <= i < l.from@.len() ==> (#[trigger] l.from@[i]) < items.len() && counts(
            items[l.from@[i] as int],
        ) && described_by(l.entries@[i], items[l.from@[i] as int])
    &&& forall|n: int|
        0 <= n < items.len() && counts(#[trigger] items[n]) ==> order::has_position(l.from@, n)
}

/// By what snapshots are ordered: index first, then term.
pub open spec fn age_keys(entries: Seq<CatalogEntry>) -> Seq<(u64, u64)> {
    entries.map_values(|e: CatalogEntry| (e.last_index, e.last_term))
}

/// `id` names the entry: as its snapshot id, or as its directory.
pub open spec fn named(e: CatalogEntry, id: Seq<char>) -> bool {
    e.snapshot_id@ == id || (e.dir matches Some(d) && d@ == id)
}

/// `id` names none of the entries.
pub open spec fn none_named(entries: Seq<CatalogEntry>, id: Seq<char>) -> bool {
    forall|i: int| 0 <= i < entries.len() ==> !named(#[trigger] entries[i], id)
}

/// `gone` are the positions of the snapshots to remove, oldest first: all but the `keep` newest. Of
/// equal ones those listed first go first.
pub open spec fn are_to_go(entries: Seq<CatalogEntry>, keep: int, gone: Seq<usize>) -> bool {
    exists|by_age: Seq<usize>| #[trigger]
        order::is_stable_order(age_keys(entries), by_age) && gone == (if entries.len() <= keep {
            Seq::empty()
        } else {
            by_age.take(entries.len() - keep)
        })
}

/// The catalog's directory, and how many snapshots of each group it keeps.
#[derive(Clone, Debug)]
pub struct SnapshotCatalog {
    root: String,
    keep: usize,
}

impl SnapshotCatalog {
    pub closed spec fn spec_root(&self) -> Seq<char> {
        self.root@
    }

    pub closed spec fn spec_keep(&self) -> usize {
        self.keep
    }

    /// A catalog below `root` that keeps `keep` snapshots of each group, at least one.
    pub fn new(root: String, keep: usize) -> (r: Self)
        ensures
            r.spec_root() == root@,
            r.spec_keep() == (if keep < 1 {
                1
            } else {
                keep
            }),
    {
        SnapshotCatalog {
            root,
            keep: if keep < 1 {
                1
            } else {
                keep
            },
        }
    }

    pub fn root(&self) -> (r: &str)
        ensures
            r@ == self.spec_root(),
    {
        self.root.as_str()
    }

    pub fn keep(&self) -> (r: usize)
        ensures
            r == self.spec_keep(),
    {
        self.keep
    }

    /// What is written for a snapshot of `group`.
    pub fn write(
        &self,
        group: GroupId,
        last_index: u64,
        last_term: u64,
        snapshot_id: String,
        data: &[u8],
    ) -> (r: WritePlan)
        ensures
            r.group_dir@ == text::decimal(group as nat),
            r.sha256_file@ == text::hex(sha256(data@)) + "\n"@,
            r.meta.group == group,
            r.meta.last_index == last_index,
            r.meta.last_term == last_term,
            r.meta.snapshot_id@ == snapshot_id@,
            r.meta.size == data@.len(),
            r.meta.sha256_hex@ == text::hex(sha256(data@)),
            r.entry.group == group,
            r.entry.last_index == last_index,
            r.entry.last_term == last_term,
            r.entry.snapshot_id@ == snapshot_id@,
            r.entry.size == data@.len(),
            r.entry.sha256_hex@ == text::hex(sha256(data@)),
            r.entry.dir matches Some(d) && d@ == snapshot_dir_name(last_index, last_term),
    {
        let sha256_hex = hex_sha256(data);
        let size: u64 = data.len() as u64;
        WritePlan {
            group_dir: text::decimal_text(group),
            sha256_file: text::concat(sha256_hex.as_str(), "\n"),
            meta: MetaFile {
                group,
                last_index,
                last_term,
                snapshot_id: snapshot_id.clone(),
                size,
                sha256_hex: sha256_hex.clone(),
            },
            entry: CatalogEntry {
                group,
                last_index,
                last_term,
                snapshot_id,
                size,
                sha256_hex,
                dir: Some(dir_name(last_index, last_term)),
            },
        }
    }

    /// The snapshots among the items of a group's directory; metadata that cannot be read is an
    /// error.
    pub fn list(&self, items: &Vec<DirItem>) -> (r: Result<Listing, CatalogError>)
        ensures
            match r {
                Ok(l) => all_readable(items@) && lists(items@, l),
                Err(CatalogError::BadMeta(m)) => exists|k: int| #[trigger]
                    first_unreadable(items@, k) && m@ == items@[k].meta->Bad_0@,
                Err(_) => false,
            },
    {
        let mut entries: Vec<CatalogEntry> = Vec::new();
        let mut from: Vec<usize> = Vec::new();
        let mut i: usize = 0;
        while i < items.len()
            invariant
                i <= items@.len(),
                all_readable(items@.take(i as int)),
                lists(items@.take(i as int), (Listing { entries, from })),
            decreases items@.len() - i,
        {
            let item = &items[i];
            let ghost head = items@.take(i as int);
            let ghost next = items@.take(i + 1);
            let ghost was = Listing { entries, from };
            assert(next =~= head.push(*item));
            if item.is_dir {
                match &item.meta {
                    MetaFound::Missing => {},
                    MetaFound::Bad(m) => {
                        assert(first_unreadable(items@, i as int));
                        return Err(CatalogError::BadMeta(m.clone()));
                    },
                    MetaFound::Good(m) => {
                        let dir = match &item.name {
                            Some(n) => Some(n.clone()),
                            None => None,
                        };
                        entries.push(
                            CatalogEntry {
                                group: m.group,
                                last_index: m.last_index,
                                last_term: m.last_term,
                                snapshot_id: m.snapshot_id.clone(),
                                size: m.size,
                                sha256_hex: m.sha256_hex.clone(),
                                dir,
                            },
                        );
                        from.push(i);
                    },
                }
            }
            proof {
                assert(all_readable(next)) by {
                    assert forall|j: int|
                        0 <= j < next.len() && counts(#[trigger] next[j]) implies next[j].meta is Good by {
                        if j < i {
                            assert(next[j] == head[j]);
                        }
                    }
                }
                assert(lists(next, (Listing { entries, from }))) by {
                    assert forall|n: int|
                        0 <= n < next.len() && counts(#[trigger] next[n]) implies order::has_position(
                        from@,
                        n,
                    ) by {
                        if n < i {
                            assert(next[n] == head[n]);
                            assert(order::has_position(was.from@, n));
                            let a = choose|a: int|
                                0 <= a < was.from@.len() && #[trigger] was.from@[a] == n;
                            assert(from@[a] == n);
                        } else {
                            assert(from@[was.from@.len() as int] == n);
                        }
                    }
                    assert forall|a: int| 0 <= a < from@.len() implies (#[trigger] from@[a])
                        < next.len() && counts(next[from@[a] as int]) && described_by(
                        entries@[a],
                        next[from@[a] as int],
                    ) by {
                        if a < was.from@.len() {
                            assert(was.from@[a] == from@[a]);
                            assert(next[from@[a] as int] == head[from@[a] as int]);
                        }
                    }
                }
            }
            i = i + 1;
        }
        assert(items@.take(i as int) =~= items@);
        Ok(Listing { entries, from })
    }

    /// The position of the newest snapshot by index and term; of equals the first.
    pub fn latest(&self, entries: &Vec<CatalogEntry>) -> (r: Option<usize>)
        ensures
            r is None <==> entries@.len() == 0,
            r matches Some(p) ==> is_newest(entries@, p as int),
    {
        if entries.len() == 0 {
            return None;
        }
        let mut best: usize = 0;
        let mut i: usize = 1;
        while i < entries.len()
            invariant
                1 <= i <= entries@.len(),
                best < i,
                is_newest(entries@.take(i as int), best as int),
            decreases entries@.len() - i,
        {
            let ghost head = entries@.take(i as int);
            let ghost next = entries@.take(i + 1);
            let ghost was = best as int;
            let a = (entries[best].last_index, entries[best].last_term);
            let b = (entries[i].last_index, entries[i].last_term);
            if order::pair_less(a, b) {
                best = i;
            }
            proof {
                let hk = age_keys(head);
                let nk = age_keys(next);
                assert forall|q: int| 0 <= q < next.len() implies !order::pair_lt(
                    nk[best as int],
                    #[trigger] nk[q],
                ) && (q < best ==> order::pair_lt(nk[q], nk[best as int])) by {
                    if q < i {
                        assert(nk[q] == hk[q]);
                    }
                    assert(nk[was] == hk[was]);
                }
            }
            i = i + 1;
        }
        assert(entries@.take(i as int) =~= entries@);
        Some(best)
    }

    /// The position of the first snapshot that `snapshot_id` names.
    pub fn find(&self, entries: &Vec<CatalogEntry>, snapshot_id: &str) -> (r: Option<usize>)
        ensures
            match r {
                Some(p) => is_first_named(entries@, snapshot_id@, p as int),
                None => none_named(entries@, snapshot_id@),
            },
    {
        let mut i: usize = 0;
        while i < entries.len()
            invariant
                i <= entries@.len(),
                forall|j: int| 0 <= j < i ==> !named(#[trigger] entries@[j], snapshot_id@),
            decreases entries@.len() - i,
        {
            let e = &entries[i];
            let by_dir = match &e.dir {
                Some(d) => text::same_text(d.as_str(), snapshot_id),
                None => false,
            };
            if text::same_text(e.snapshot_id.as_str(), snapshot_id) || by_dir {
                return Some(i);
            }
            i = i + 1;
        }
        None
    }

    /// The bytes read for `entry`, if their digest is the one that was written.
    pub fn read(&self, entry: &CatalogEntry, data: Vec<u8>) -> (r: Result<Vec<u8>, CatalogError>)
        ensures
            match r {
                Ok(d) => d == data && text::hex(sha256(data@)) == entry.sha256_hex@,
                Err(CatalogError::ShaMismatch { expected, actual }) => {
                    &&& text::hex(sha256(data@)) != entry.sha256_hex@
                    &&& expected@ == entry.sha256_hex@
                    &&& actual@ == text::hex(sha256(data@))
                },
                Err(_) => false,
            },
    {
        let actual = hex_sha256(data.as_slice());
        accept(entry.sha256_hex.as_str(), actual, data)
    }

    /// The positions of the snapshots to remove, oldest first: all but the `keep` newest. Of equal
    /// ones those listed first go first.
    pub fn prune(&self, entries: &Vec<CatalogEntry>) -> (r: Vec<usize>)
        ensures
            are_to_go(entries@, self.spec_keep() as int, r@),
    {
        let keys = age_key_list(entries);
        let mut by_age = order::stable_order(&keys);
        let ghost full = by_age@;
        if entries.len() <= self.keep {
            assert(order::is_stable_order(age_keys(entries@), full));
            return Vec::new();
        }
        by_age.truncate(entries.len() - self.keep);
        assert(order::is_stable_order(age_keys(entries@), full));
        assert(by_age@ =~= full.take(entries@.len() - self.spec_keep()));
        by_age
    }
}

/// The index and term of each entry.
pub fn age_key_list(entries: &Vec<CatalogEntry>) -> (r: Vec<(u64, u64)>)
    ensures
        r@ == age_keys(entries@),
{
    let mut keys: Vec<(u64, u64)> = Vec::new();
    let mut i: usize = 0;
    while i < entries.len()
        invariant
            i <= entries@.len(),
            keys@ == age_keys(entries@).take(i as int),
        decreases entries@.len() - i,
    {
        let e = &entries[i];
        keys.push((e.last_index, e.last_term));
        assert(keys@ =~= age_keys(entries@).take(i + 1));
        i = i + 1;
    }
    assert(age_keys(entries@).take(i as int) =~= age_keys(entries@));
    keys
}

/// No snapshot is newer than the one at `p`, and each before it is older.
pub open spec fn is_newest(entries: Seq<CatalogEntry>, p: int) -> bool {
    let k = age_keys(entries);
    &&& 0 <= p < entries.len()
    &&& forall|q: int|
        0 <= q < entries.len() ==> !order::pair_lt(k[p], #[trigger] k[q]) && (q < p
            ==> order::pair_lt(k[q], k[p]))
}

/// The entry at `p` is the first that `id` names.
pub open spec fn is_first_named(entries: Seq<CatalogEntry>, id: Seq<char>, p: int) -> bool {
    &&& 0 <= p < entries.len()
    &&& named(entries[p], id)
    &&& forall|i: int| 0 <= i < p ==> !named(#[trigger] entries[i], id)
}

/// `data`, where the digest it was found to have is the expected one.
pub fn accept(expected: &str, actual: String, data: Vec<u8>) -> (r: Result<Vec<u8>, CatalogError>)
    ensures
        match r {
            Ok(d) => d == data && actual@ == expected@,
            Err(CatalogError::ShaMismatch { expected: e, actual: a }) => {
                &&& actual@ != expected@
                &&& e@ == expected@
                &&& a@ == actual@
            },
            Err(_) => false,
        },
{
    if text::same_text(actual.as_str(), expected) {
        Ok(data)
    } else {
        Err(CatalogError::ShaMismatch { expected: expected.to_owned(), actual })
    }
}

/// Snapshots at different points have different directories: writing one never overwrites another.
pub proof fn law_directories_differ(index_a: u64, term_a: u64, index_b: u64, term_b: u64)
    requires
        snapshot_dir_name(index_a, term_a) == snapshot_dir_name(index_b, term_b),
    ensures
        index_a == index_b,
        term_a == term_b,
{
    reveal_strlit("-");
    let ia = text::decimal(index_a as nat);
    let ib = text::decimal(index_b as nat);
    let ta = text::decimal(term_a as nat);
    let tb = text::decimal(term_b as nat);
    let a = snapshot_dir_name(index_a, term_a);
    let b = snapshot_dir_name(index_b, term_b);
    text::lemma_decimal_digits(index_a as nat);
    text::lemma_decimal_digits(index_b as nat);
    assert(a[ia.len() as int] == '-');
    assert(b[ib.len() as int] == '-');
    if ia.len() < ib.len() {
        assert(b[ia.len() as int] == ib[ia.len() as int]);
    } else if ib.len() < ia.len() {
        assert(a[ib.len() as int] == ia[ib.len() as int]);
    }
    assert(a.take(ia.len() as int) =~= ia);
    assert(b.take(ib.len() as int) =~= ib);
    assert(a.skip(ia.len() as int + 1) =~= ta);
    assert(b.skip(ib.len() as int + 1) =~= tb);
    text::lemma_decimal_injective(index_a as nat, index_b as nat);
    text::lemma_decimal_injective(term_a as nat, term_b as nat);
}

/// What was written is read back: where a directory holds the metadata that `write` gave for
/// `data`, and `id` names no other snapshot of the group, `id` finds that snapshot, and reading
/// `data` for it passes the digest check.
pub proof fn law_written_snapshot_is_read_back(
    items: Seq<DirItem>,
    l: Listing,
    k: int,
    id: Seq<char>,
    data: Seq<u8>,
)
    requires
        lists(items, l),
        0 <= k < items.len(),
        items[k].is_dir,
        items[k].meta matches MetaFound::Good(m) && m.sha256_hex@ == text::hex(sha256(data)) && (
        m.snapshot_id@ == id || (items[k].name matches Some(n) && n@ == id)),
        forall|i: int|
            0 <= i < l.entries@.len() && l.from@[i] != k ==> !named(#[trigger] l.entries@[i], id),
    ensures
        exists|p: int| #[trigger]
            is_first_named(l.entries@, id, p) && l.from@[p] == k && l.entries@[p].sha256_hex@
                == text::hex(sha256(data)),
{
    assert(counts(items[k]));
    assert(order::has_position(l.from@, k));
    let p = choose|p: int| 0 <= p < l.from@.len() && #[trigger] l.from@[p] == k;
    assert(described_by(l.entries@[p], items[l.from@[p] as int]));
    assert forall|i: int| 0 <= i < p implies !named(#[trigger] l.entries@[i], id) by {
        assert(l.from@[i] < l.from@[p]);
    }
    assert(is_first_named(l.entries@, id, p));
}

/// Pruning leaves the newest: of `n` snapshots all but the first `n - keep` by age stay, none of
/// them older than one that goes; with `keep` at least one, a newest snapshot stays.
pub proof fn law_prune_keeps_the_newest(
    entries: Seq<CatalogEntry>,
    by_age: Seq<usize>,
    keep: nat,
    gone: int,
    stays: int,
)
    requires
        keep >= 1,
        entries.len() > keep,
        order::is_stable_order(age_keys(entries), by_age),
        0 <= gone < entries.len() - keep <= stays < entries.len(),
    ensures
        !order::pair_lt(
            age_keys(entries)[by_age[stays] as int],
            age_keys(entries)[by_age[gone] as int],
        ),
        by_age[stays] != by_age[gone],
        !by_age.take(entries.len() - keep).contains(by_age[stays]),
        forall|q: int|
            0 <= q < entries.len() ==> !order::pair_lt(
                age_keys(entries)[by_age[entries.len() - 1] as int],
                #[trigger] age_keys(entries)[q],
            ),
{
    let k = age_keys(entries);
    assert(order::goes_before(k, by_age[gone] as int, by_age[stays] as int));
    let last = entries.len() - 1;
    assert forall|q: int| 0 <= q < entries.len() implies !order::pair_lt(
        k[by_age[last] as int],
        #[trigger] k[q],
    ) by {
        assert(order::has_position(by_age, q));
        let i = choose|i: int| 0 <= i < by_age.len() && #[trigger] by_age[i] == q;
        if i < last {
            assert(order::goes_before(k, by_age[i] as int, by_age[last] as int));
        }
    }
}

/// What is known of a snapshot, besides its index and term.
pub ghost struct Known {
    pub group: GroupId,
    pub snapshot_id: Seq<char>,
    pub size: u64,
    pub sha256_hex: Seq<char>,
    pub dir: Option<Seq<char>>,
}

pub open spec fn known(e: CatalogEntry) -> Known {
    Known {
        group: e.group,
        snapshot_id: e.snapshot_id@,
        size: e.size,
        sha256_hex: e.sha256_hex@,
        dir: match e.dir {
            Some(d) => Some(d@),
            None => None,
        },
    }
}

/// Index and term.
pub open spec fn key(e: CatalogEntry) -> (u64, u64) {
    (e.last_index, e.last_term)
}

/// One of the entries has the key `k`.
pub open spec fn has_key(entries: Seq<CatalogEntry>, k: (u64, u64)) -> bool {
    exists|i: int| 0 <= i < entries.len() && key(#[trigger] entries[i]) == k
}

/// The entries are what the group's directory holds, by index and term: each once.
pub open spec fn shows(entries: Seq<CatalogEntry>, held: Map<(u64, u64), Known>) -> bool {
    &&& age_keys(entries).no_duplicates()
    &&& forall|i: int|
        0 <= i < entries.len() ==> held.contains_key(key(#[trigger] entries[i])) && held[key(
            entries[i],
        )] == known(entries[i])
    &&& forall|k: (u64, u64)| #[trigger] held.contains_key(k) ==> has_key(entries, k)
}

/// The keys of the entries at these positions.
pub open spec fn keys_at(entries: Seq<CatalogEntry>, at: Seq<usize>) -> Seq<(u64, u64)> {
    at.map_values(|p: usize| key(entries[p as int]))
}

/// What the group's directory holds once a snapshot is written, in the place of an older one at
/// the same point.
pub open spec fn with_written(
    held: Map<(u64, u64), Known>,
    entry: CatalogEntry,
) -> Map<(u64, u64), Known> {
    held.insert(key(entry), known(entry))
}

/// What it holds once the entries at `gone` have been removed.
pub open spec fn without(
    held: Map<(u64, u64), Known>,
    entries: Seq<CatalogEntry>,
    gone: Seq<usize>,
) -> Map<(u64, u64), Known> {
    held.remove_keys(keys_at(entries, gone).to_set())
}

/// `left` are the `keep` newest of `held`.
pub open spec fn are_newest(
    held: Map<(u64, u64), Known>,
    keep: int,
    left: Map<(u64, u64), Known>,
) -> bool {
    &&& held.dom().finite()
    &&& left.dom().finite()
    &&& left.submap_of(held)
    &&& left.dom().len() == (if held.dom().len() <= keep {
        held.dom().len() as int
    } else {
        keep
    })
    &&& forall|a: (u64, u64), b: (u64, u64)| #[trigger]
        held.contains_key(a) && !left.contains_key(a) && #[trigger] left.contains_key(b)
            ==> order::pair_lt(a, b)
}

proof fn lemma_positions_differ(entries: Seq<CatalogEntry>, by_age: Seq<usize>)
    requires
        age_keys(entries).no_duplicates(),
        order::is_stable_order(age_keys(entries), by_age),
    ensures
        keys_at(entries, by_age).no_duplicates(),
        keys_at(entries, by_age).len() == entries.len(),
        forall|i: int, j: int|
            0 <= i < j < by_age.len() ==> order::pair_lt(
                #[trigger] keys_at(entries, by_age)[i],
                #[trigger] keys_at(entries, by_age)[j],
            ),
        forall|k: (u64, u64)| #[trigger]
            has_key(entries, k) <==> keys_at(entries, by_age).contains(k),
{
    let ks = age_keys(entries);
    let sorted = keys_at(entries, by_age);
    assert forall|i: int, j: int| 0 <= i < j < by_age.len() implies order::pair_lt(
        #[trigger] sorted[i],
        #[trigger] sorted[j],
    ) by {
        assert(order::goes_before(ks, by_age[i] as int, by_age[j] as int));
        assert(ks[by_age[i] as int] == sorted[i] && ks[by_age[j] as int] == sorted[j]);
        assert(by_age[i] != by_age[j]);
    }
    assert forall|i: int, j: int|
        0 <= i < sorted.len() && 0 <= j < sorted.len() && i != j implies sorted[i] != sorted[j] by {
        if i < j {
            assert(order::pair_lt(sorted[i], sorted[j]));
        } else {
            assert(order::pair_lt(sorted[j], sorted[i]));
        }
    }
    assert forall|k: (u64, u64)| #[trigger] has_key(entries, k) <==> sorted.contains(k) by {
        if has_key(entries, k) {
            let p = choose|i: int| 0 <= i < entries.len() && key(#[trigger] entries[i]) == k;
            assert(order::has_position(by_age, p));
            let i = choose|i: int| 0 <= i < by_age.len() && #[trigger] by_age[i] == p;
            assert(sorted[i] == k);
        }
        if sorted.contains(k) {
            let i = sorted.index_of(k);
            assert(by_age[i] < ks.len());
            assert(key(entries[by_age[i] as int]) == k);
        }
    }
}

/// Pruning leaves a group's directory with its `keep` newest snapshots.
proof fn lemma_prune_leaves_the_newest(
    held: Map<(u64, u64), Known>,
    entries: Seq<CatalogEntry>,
    keep: int,
    gone: Seq<usize>,
)
    requires
        keep >= 1,
        shows(entries, held),
        are_to_go(entries, keep, gone),
    ensures
        are_newest(held, keep, without(held, entries, gone)),
{
    broadcast use vstd::seq_lib::seq_to_set_is_finite;

    let by_age = choose|by_age: Seq<usize>| #[trigger]
        order::is_stable_order(age_keys(entries), by_age) && gone == (if entries.len() <= keep {
            Seq::empty()
        } else {
            by_age.take(entries.len() - keep)
        });
    let left = without(held, entries, gone);
    let sorted = keys_at(entries, by_age);
    lemma_positions_differ(entries, by_age);
    let m = if entries.len() <= keep {
        0int
    } else {
        entries.len() - keep
    };
    assert(gone =~= by_age.take(m));
    assert(keys_at(entries, gone) =~= sorted.take(m));
    assert forall|k: (u64, u64)| #[trigger] held.contains_key(k) <==> sorted.contains(k) by {
        if sorted.contains(k) {
            assert(has_key(entries, k));
        }
    }
    assert(held.dom() =~= sorted.to_set());
    sorted.unique_seq_to_set();
    let rest = sorted.skip(m);
    assert(rest.no_duplicates()) by {
        assert forall|i: int, j: int|
            0 <= i < rest.len() && 0 <= j < rest.len() && i != j implies rest[i] != rest[j] by {
            assert(rest[i] == sorted[m + i] && rest[j] == sorted[m + j]);
        }
    }
    rest.unique_seq_to_set();
    assert forall|k: (u64, u64)| #[trigger] left.dom().contains(k) <==> rest.to_set().contains(
        k,
    ) by {
        if left.dom().contains(k) {
            let i = sorted.index_of(k);
            if i < m {
                assert(sorted.take(m)[i] == k);
                assert(keys_at(entries, gone).to_set().contains(k));
            }
            assert(rest[i - m] == k);
        }
        if rest.to_set().contains(k) {
            let i = rest.index_of(k);
            assert(sorted[m + i] == k);
            assert(sorted.contains(k));
            if sorted.take(m).contains(k) {
                let j = sorted.take(m).index_of(k);
                assert(sorted[j] == k);
            }
        }
    }
    assert(left.dom() =~= rest.to_set());
    assert forall|a: (u64, u64), b: (u64, u64)| #[trigger]
        held.contains_key(a) && !left.contains_key(a) && #[trigger] left.contains_key(
            b,
        ) implies order::pair_lt(a, b) by {
        let i = sorted.index_of(a);
        if i >= m {
            assert(rest[i - m] == a);
            assert(left.dom().contains(a));
        }
        assert(rest.to_set().contains(b));
        let j = rest.index_of(b);
        assert(sorted[m + j] == b);
    }
}

/// What the directory `dir` holds; one that is not there holds nothing.
pub open spec fn held_in(
    disk: Map<Seq<char>, Map<(u64, u64), Known>>,
    dir: Seq<char>,
) -> Map<(u64, u64), Known> {
    if disk.contains_key(dir) {
        disk[dir]
    } else {
        Map::empty()
    }
}

/// After a snapshot is written and the group is pruned, its directory holds the `keep` newest of
/// the snapshots that were there, but for one at the same point, and the new one: the new one
/// itself goes where it is older than all of those. The directories of other groups are left
/// alone.
pub proof fn law_write_keeps_the_newest(
    disk: Map<Seq<char>, Map<(u64, u64), Known>>,
    plan: WritePlan,
    entries: Seq<CatalogEntry>,
    keep: int,
    gone: Seq<usize>,
    other: GroupId,
)
    requires
        keep >= 1,
        plan.group_dir@ == text::decimal(plan.entry.group as nat),
        shows(entries, with_written(held_in(disk, plan.group_dir@), plan.entry)),
        are_to_go(entries, keep, gone),
        other != plan.entry.group,
    ensures
        ({
            let held = with_written(held_in(disk, plan.group_dir@), plan.entry);
            let left = without(held, entries, gone);
            let after = disk.insert(plan.group_dir@, left);
            &&& are_newest(held, keep, left)
            &&& forall|k: (u64, u64)| #[trigger]
                left.contains_key(k) ==> left[k] == (if k == key(plan.entry) {
                    known(plan.entry)
                } else {
                    held_in(disk, plan.group_dir@)[k]
                }) && (k == key(plan.entry) || held_in(disk, plan.group_dir@).contains_key(k))
            &&& held_in(after, text::decimal(other as nat)) == held_in(
                disk,
                text::decimal(other as nat),
            )
        }),
{
    let held = with_written(held_in(disk, plan.group_dir@), plan.entry);
    lemma_prune_leaves_the_newest(held, entries, keep, gone);
    if text::decimal(other as nat) == plan.group_dir@ {
        text::lemma_decimal_injective(other as nat, plan.entry.group as nat);
    }
}

} // verus!
