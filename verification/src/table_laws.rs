//! What holds of the table of a log's entries.

use vstd::prelude::*;

use crate::log_table;
use crate::log_table::{IndexBound, LogEntry, LogTable};
use crate::type_config::LogId;

verus! {

/// An entry that is put in is found under its index, as it is; entries under other indexes stay. A
/// new table has none.
pub proof fn law_entry_is_found_under_its_index(
    fresh: LogTable,
    table: &mut LogTable,
    entry: LogEntry,
    k: u64,
)
    requires
        call_ensures(LogTable::new, (), fresh),
        old(table).wf(),
        call_ensures(LogTable::insert, (table, entry), ()),
    ensures
        !fresh@.contains_key(k),
        fresh.wf(),
        final(table).wf(),
        final(table)@.contains_key(entry.log_id.index),
        final(table)@[entry.log_id.index].log_id == entry.log_id,
        final(table)@[entry.log_id.index] == entry@,
        k != entry.log_id.index ==> (final(table)@.contains_key(k) <==> old(table)@.contains_key(
            k,
        )) && final(table)@[k] == old(table)@[k],
{
}

/// Cutting a table from an index on leaves what stands below it, and cutting it through an index
/// leaves what stands above; the two parts are all of it.
pub proof fn law_cuts_part_the_table(
    tail_cut: &mut LogTable,
    head_cut: &mut LogTable,
    start: u64,
    last: u64,
    k: u64,
)
    requires
        old(tail_cut).wf(),
        *old(head_cut) == *old(tail_cut),
        start == last + 1,
        call_ensures(LogTable::remove_from, (tail_cut, start), ()),
        call_ensures(LogTable::remove_through, (head_cut, last), ()),
    ensures
        final(tail_cut)@.contains_key(k) <==> old(tail_cut)@.contains_key(k) && k < start,
        final(tail_cut)@.contains_key(k) ==> final(tail_cut)@[k] == old(tail_cut)@[k],
        final(head_cut)@.contains_key(k) <==> old(tail_cut)@.contains_key(k) && k > last,
        final(head_cut)@.contains_key(k) ==> final(head_cut)@[k] == old(tail_cut)@[k],
        final(tail_cut).wf(),
        final(head_cut).wf(),
{
}

/// The entries of a table stand by rising index; there are as many as it counts, and each is the one
/// under its index. The last of them has the greatest index.
pub proof fn law_table_is_walked_by_index(
    table: &LogTable,
    entries: &Vec<LogEntry>,
    n: usize,
    last: Option<LogId>,
    i: int,
    j: int,
    k: u64,
)
    requires
        table.wf(),
        call_ensures(LogTable::entries, (table,), entries),
        call_ensures(LogTable::len, (table,), n),
        call_ensures(LogTable::last_log_id, (table,), last),
    ensures
        n == entries@.len(),
        0 <= i < j < entries@.len() ==> entries@[i].log_id.index < entries@[j].log_id.index,
        0 <= i < entries@.len() ==> table@.contains_key(entries@[i].log_id.index)
            && table@[entries@[i].log_id.index] == entries@[i]@,
        table@.contains_key(k) ==> exists|p: int|
            0 <= p < entries@.len() && (#[trigger] entries@[p]).log_id.index == k,
        last is None <==> n == 0,
        last is Some ==> table@.contains_key(last->Some_0.index)
            && table@[last->Some_0.index].log_id == last->Some_0,
        last is Some && table@.contains_key(k) ==> k <= last->Some_0.index,
{
    let v = log_table::entry_views(entries@);
    assert(v == table.ordered());
    assert(v.len() == entries@.len());
    if 0 <= i < entries@.len() {
        assert(v[i] == entries@[i]@);
        lemma_at(v, i);
        if i < j < entries@.len() {
            assert(v[j] == entries@[j]@);
        }
    }
    if table@.contains_key(k) {
        log_table::lemma_replay_dom(v, k);
        let p = choose|p: int| log_table::has_index(v, p, k);
        assert(v[p] == entries@[p]@);
        assert(entries@[p].log_id.index == k);
        if p < v.len() - 1 {
            assert(v[p].log_id.index < v[v.len() - 1].log_id.index);
        }
    }
    if n > 0 {
        lemma_at(v, v.len() - 1);
    }
}

proof fn lemma_at(v: Seq<log_table::EntryView>, i: int)
    requires
        log_table::rising(v),
        0 <= i < v.len(),
    ensures
        log_table::replay(v).contains_key(v[i].log_id.index),
        log_table::replay(v)[v[i].log_id.index] == v[i],
{
    assert forall|j: int| i < j < v.len() implies (#[trigger] v[j]).log_id.index
        != v[i].log_id.index by {
        assert(v[i].log_id.index < v[j].log_id.index);
    }
    log_table::lemma_replay_at(v, i);
}

/// Where in a range an index lies.
pub open spec fn lies_between(lo: IndexBound, hi: IndexBound, k: u64) -> bool {
    &&& lo is Included ==> lo->Included_0 <= k
    &&& lo is Excluded ==> lo->Excluded_0 < k
    &&& hi is Included ==> k <= hi->Included_0
    &&& hi is Excluded ==> k < hi->Excluded_0
}

/// A range gives the entries whose index lies in it, by rising index, each as it stands in the table:
/// an included end belongs to the range, and an excluded one does not.
pub proof fn law_range_gives_what_lies_in_it(
    table: &LogTable,
    lo: IndexBound,
    hi: IndexBound,
    r: Vec<LogEntry>,
    i: int,
    j: int,
    k: u64,
)
    requires
        table.wf(),
        log_table::bounds_in_order(lo, hi),
        call_ensures(LogTable::range, (table, lo, hi), r),
    ensures
        0 <= i < r@.len() ==> lies_between(lo, hi, r@[i].log_id.index) && table@.contains_key(
            r@[i].log_id.index,
        ) && table@[r@[i].log_id.index] == r@[i]@,
        0 <= i < j < r@.len() ==> r@[i].log_id.index < r@[j].log_id.index,
        table@.contains_key(k) && lies_between(lo, hi, k) ==> exists|p: int|
            0 <= p < r@.len() && (#[trigger] r@[p]).log_id.index == k,
{
    let s = table.ordered();
    let p = |e: log_table::EntryView|
        log_table::above(lo, e.log_id.index) && log_table::below(hi, e.log_id.index);
    let v = log_table::entry_views(r@);
    assert(v == s.filter(p));
    assert(v.len() == r@.len());
    if 0 <= i < r@.len() {
        assert(v[i] == r@[i]@);
        let a = lemma_filtered_from(s, p, i);
        lemma_at(s, a);
    }
    if 0 <= i < j < r@.len() {
        assert(v[i] == r@[i]@);
        assert(v[j] == r@[j]@);
        lemma_filtered_rises(s, p, i, j);
    }
    if table@.contains_key(k) && lies_between(lo, hi, k) {
        log_table::lemma_replay_dom(s, k);
        let a = choose|a: int| log_table::has_index(s, a, k);
        assert(p(s[a]));
        s.lemma_filter_contains(p, a);
        let q = v.index_of(s[a]);
        assert(v[q] == r@[q]@);
        assert(r@[q].log_id.index == k);
    }
}

/// Whatever stands in the filtered sequence stands in the whole one, and passes.
proof fn lemma_filtered_from(
    s: Seq<log_table::EntryView>,
    p: spec_fn(log_table::EntryView) -> bool,
    i: int,
) -> (at: int)
    requires
        0 <= i < s.filter(p).len(),
    ensures
        0 <= at < s.len(),
        s[at] == s.filter(p)[i],
        p(s[at]),
    decreases s.len(),
{
    reveal(Seq::filter);
    let init = s.drop_last();
    if p(s.last()) && i == s.filter(p).len() - 1 {
        s.len() - 1
    } else {
        lemma_filtered_from(init, p, i)
    }
}

proof fn lemma_filtered_rises(
    s: Seq<log_table::EntryView>,
    p: spec_fn(log_table::EntryView) -> bool,
    i: int,
    j: int,
)
    requires
        log_table::rising(s),
        0 <= i < j < s.filter(p).len(),
    ensures
        s.filter(p)[i].log_id.index < s.filter(p)[j].log_id.index,
    decreases s.len(),
{
    reveal(Seq::filter);
    let init = s.drop_last();
    assert(log_table::rising(init));
    if p(s.last()) && j == s.filter(p).len() - 1 {
        let a = lemma_filtered_from(init, p, i);
        assert(s[a].log_id.index < s[s.len() - 1].log_id.index);
    } else {
        lemma_filtered_rises(init, p, i, j);
    }
}

/// A copy of an entry is that entry, and a copy of a table has its entries.
pub proof fn law_copies_are_equal(
    e: &LogEntry,
    copy: LogEntry,
    table: &LogTable,
    again: LogTable,
    k: u64,
)
    requires
        call_ensures(LogEntry::copied, (e,), copy),
        call_ensures(LogTable::copied, (table,), again),
    ensures
        copy.log_id == e.log_id,
        copy.encoded is Ok <==> e.encoded is Ok,
        e.encoded is Ok ==> copy.encoded->Ok_0@ == e.encoded->Ok_0@,
        e.encoded is Err ==> copy.encoded->Err_0@ == e.encoded->Err_0@,
        again@.contains_key(k) <==> table@.contains_key(k),
        again@.contains_key(k) ==> again@[k] == table@[k],
{
    assert(copy@ == e@);
}

} // verus!
