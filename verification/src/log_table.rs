//! The entries of one group's log, in index order.

use vstd::prelude::*;

use crate::type_config::LogId;

verus! {

/// A log entry: its id, and its serialised bytes or why it could not be serialised.
#[derive(Debug)]
pub struct LogEntry {
    pub log_id: LogId,
    pub encoded: Result<Vec<u8>, String>,
}

/// The mathematical value of a [`LogEntry`].
#[verifier::ext_equal]
pub struct EntryView {
    pub log_id: LogId,
    pub encoded: Result<Seq<u8>, Seq<char>>,
}

impl View for LogEntry {
    type V = EntryView;

    open spec fn view(&self) -> EntryView {
        EntryView {
            log_id: self.log_id,
            encoded: match self.encoded {
                Ok(v) => Ok(v@),
                Err(e) => Err(e@),
            },
        }
    }
}

impl LogEntry {
    /// An equal entry.
    pub fn copied(&self) -> (r: LogEntry)
        ensures
            r@ == self@,
    {
        let encoded = match &self.encoded {
            Ok(v) => {
                let mut raw: Vec<u8> = Vec::new();
                raw.extend_from_slice(v.as_slice());
                assert(raw@ =~= v@);
                Ok(raw)
            },
            Err(e) => Err(e.clone()),
        };
        LogEntry { log_id: self.log_id, encoded }
    }
}

/// The views of a sequence of entries.
pub open spec fn entry_views(s: Seq<LogEntry>) -> Seq<EntryView> {
    s.map_values(|e: LogEntry| e@)
}

/// The log that a run of entries leaves: each entry takes the place of an earlier one with its
/// index.
pub open spec fn replay(s: Seq<EntryView>) -> Map<u64, EntryView>
    decreases s.len(),
{
    if s.len() == 0 {
        Map::empty()
    } else {
        replay(s.drop_last()).insert(s.last().log_id.index, s.last())
    }
}

/// Indexes rise strictly.
pub open spec fn rising(s: Seq<EntryView>) -> bool {
    forall|i: int, j: int|
        0 <= i < j < s.len() ==> (#[trigger] s[i]).log_id.index < (#[trigger] s[j]).log_id.index
}

/// One end of a range of indexes.
#[derive(Clone, Copy, Debug, PartialEq, Eq, Structural)]
pub enum IndexBound {
    Included(u64),
    Excluded(u64),
    Unbounded,
}

/// `k` is not below the lower end `lo`.
pub open spec fn above(lo: IndexBound, k: u64) -> bool {
    match lo {
        IndexBound::Included(a) => a <= k,
        IndexBound::Excluded(a) => a < k,
        IndexBound::Unbounded => true,
    }
}

/// `k` is not above the upper end `hi`.
pub open spec fn below(hi: IndexBound, k: u64) -> bool {
    match hi {
        IndexBound::Included(b) => k <= b,
        IndexBound::Excluded(b) => k < b,
        IndexBound::Unbounded => true,
    }
}

/// The ends are in order: a lower end past the upper one, or one excluded index as both, is no
/// range.
pub open spec fn bounds_in_order(lo: IndexBound, hi: IndexBound) -> bool {
    match (lo, hi) {
        (IndexBound::Excluded(a), IndexBound::Excluded(b)) => a < b,
        (IndexBound::Included(a), IndexBound::Included(b)) => a <= b,
        (IndexBound::Included(a), IndexBound::Excluded(b)) => a <= b,
        (IndexBound::Excluded(a), IndexBound::Included(b)) => a <= b,
        _ => true,
    }
}

/// `r` are the entries between two ends, in order.
pub open spec fn is_range(
    ordered: Seq<EntryView>,
    lo: IndexBound,
    hi: IndexBound,
    r: Seq<EntryView>,
) -> bool {
    r == ordered.filter(|e: EntryView| above(lo, e.log_id.index) && below(hi, e.log_id.index))
}

/// The entries of one log, each under its index. They stand in a vector by rising index, not in a
/// `BTreeMap`: a log is asked for ranges and for its last entry, and Verus has a specification of
/// neither for that map.
#[derive(Debug)]
pub struct LogTable {
    entries: Vec<LogEntry>,
}

impl View for LogTable {
    type V = Map<u64, EntryView>;

    open spec fn view(&self) -> Map<u64, EntryView> {
        replay(self.ordered())
    }
}

impl LogTable {
    /// The entries by rising index.
    pub closed spec fn ordered(&self) -> Seq<EntryView> {
        entry_views(self.entries@)
    }

    /// Entries stand by rising index, one for each.
    pub open spec fn wf(&self) -> bool {
        rising(self.ordered())
    }

    pub fn new() -> (r: LogTable)
        ensures
            r.wf(),
            r@ == Map::<u64, EntryView>::empty(),
            r.ordered().len() == 0,
    {
        let r = LogTable { entries: Vec::new() };
        assert(r.ordered() =~= Seq::empty());
        r
    }

    /// An equal log.
    pub fn copied(&self) -> (r: LogTable)
        ensures
            r.ordered() == self.ordered(),
    {
        let mut entries: Vec<LogEntry> = Vec::new();
        let mut i: usize = 0;
        while i < self.entries.len()
            invariant
                i <= self.entries@.len(),
                entry_views(entries@) == entry_views(self.entries@).take(i as int),
            decreases self.entries@.len() - i,
        {
            let ghost was = entries@;
            entries.push(self.entries[i].copied());
            assert(entry_views(entries@) =~= entry_views(was).push(self.entries@[i as int]@));
            assert(entry_views(self.entries@).take(i + 1) =~= entry_views(was).push(
                self.entries@[i as int]@,
            ));
            i = i + 1;
        }
        let r = LogTable { entries };
        assert(r.ordered() =~= self.ordered());
        r
    }

    /// The number of entries.
    pub fn len(&self) -> (r: usize)
        ensures
            r == self.ordered().len(),
    {
        self.entries.len()
    }

    /// The entries by rising index.
    pub fn entries(&self) -> (r: &Vec<LogEntry>)
        ensures
            entry_views(r@) == self.ordered(),
    {
        &self.entries
    }

    /// The position of the first entry whose index is not below `index`.
    fn lower_bound(&self, index: u64) -> (r: usize)
        requires
            self.wf(),
        ensures
            r <= self.entries@.len(),
            forall|i: int| 0 <= i < r ==> (#[trigger] self.ordered()[i]).log_id.index < index,
            forall|i: int|
                r <= i < self.entries@.len() ==> (#[trigger] self.ordered()[i]).log_id.index >= index,
    {
        let mut lo: usize = 0;
        let mut hi: usize = self.entries.len();
        while lo < hi
            invariant
                self.wf(),
                lo <= hi <= self.entries@.len(),
                forall|i: int| 0 <= i < lo ==> (#[trigger] self.ordered()[i]).log_id.index < index,
                forall|i: int|
                    hi <= i < self.entries@.len() ==> (#[trigger] self.ordered()[i]).log_id.index
                        >= index,
            decreases hi - lo,
        {
            let mid: usize = lo + (hi - lo) / 2;
            assert(self.ordered()[mid as int] == self.entries@[mid as int]@);
            if self.entries[mid].log_id.index < index {
                lo = mid + 1;
            } else {
                hi = mid;
            }
        }
        lo
    }

    /// Puts `entry` under its index, in place of what stood there.
    pub fn insert(&mut self, entry: LogEntry)
        requires
            old(self).wf(),
        ensures
            final(self).wf(),
            final(self)@ == old(self)@.insert(entry.log_id.index, entry@),
    {
        let index: u64 = entry.log_id.index;
        let at: usize = self.lower_bound(index);
        let ghost before = self.ordered();
        let ghost e = entry@;
        if at < self.entries.len() && self.entries[at].log_id.index == index {
            assert(before[at as int] == self.entries@[at as int]@);
            self.entries.set(at, entry);
            assert(self.ordered() =~= before.update(at as int, e));
            proof {
                lemma_update_in_place(before, at as int, e);
            }
        } else {
            if at < self.entries.len() {
                assert(before[at as int] == self.entries@[at as int]@);
            }
            self.entries.insert(at, entry);
            assert(self.ordered() =~= before.insert(at as int, e));
            proof {
                lemma_insert_between(before, at as int, e);
            }
        }
    }

    /// The id of the entry with the highest index.
    pub fn last_log_id(&self) -> (r: Option<LogId>)
        requires
            self.wf(),
        ensures
            r == (if self.ordered().len() == 0 {
                None
            } else {
                Some(self.ordered().last().log_id)
            }),
    {
        if self.entries.len() == 0 {
            None
        } else {
            let n: usize = self.entries.len() - 1;
            assert(self.ordered()[n as int] == self.entries@[n as int]@);
            Some(self.entries[n].log_id)
        }
    }

    /// Drops every entry from index `start` on.
    pub fn remove_from(&mut self, start: u64)
        requires
            old(self).wf(),
        ensures
            final(self).wf(),
            final(self)@ == old(self)@.restrict(Set::new(|k: u64| k < start)),
    {
        let at: usize = self.lower_bound(start);
        let ghost before = self.ordered();
        self.entries.truncate(at);
        proof {
            let after = self.ordered();
            assert(after =~= before.take(at as int));
            assert forall|k: u64| #[trigger] replay(after).contains_key(k) <==> k < start && replay(
                before,
            ).contains_key(k) by {
                lemma_replay_dom(after, k);
                lemma_replay_dom(before, k);
                if replay(after).contains_key(k) {
                    let i = choose|i: int| has_index(after, i, k);
                    assert(has_index(before, i, k));
                }
                if k < start && replay(before).contains_key(k) {
                    let i = choose|i: int| has_index(before, i, k);
                    assert(has_index(after, i, k));
                }
            }
            assert forall|k: u64| #[trigger] replay(after).contains_key(k) implies replay(after)[k]
                == replay(before)[k] by {
                lemma_replay_dom(after, k);
                let i = choose|i: int| has_index(after, i, k);
                lemma_replay_at(after, i);
                assert(has_index(before, i, k));
                lemma_replay_at(before, i);
            }
            assert(replay(after) =~= replay(before).restrict(Set::new(|k: u64| k < start)));
        }
    }

    /// Drops every entry up to and with index `index`.
    pub fn remove_through(&mut self, index: u64)
        requires
            old(self).wf(),
        ensures
            final(self).wf(),
            final(self)@ == old(self)@.restrict(Set::new(|k: u64| k > index)),
    {
        let ghost before = self.ordered();
        let mut at: usize = self.entries.len();
        if index < u64::MAX {
            at = self.lower_bound(index + 1);
        }
        let kept = self.entries.split_off(at);
        self.entries = kept;
        proof {
            let after = self.ordered();
            assert(after =~= before.skip(at as int));
            assert forall|k: u64| #[trigger] replay(after).contains_key(k) <==> k > index && replay(
                before,
            ).contains_key(k) by {
                lemma_replay_dom(after, k);
                lemma_replay_dom(before, k);
                if replay(after).contains_key(k) {
                    let i = choose|i: int| has_index(after, i, k);
                    assert(has_index(before, i + at, k));
                }
                if k > index && replay(before).contains_key(k) {
                    let i = choose|i: int| has_index(before, i, k);
                    assert(has_index(after, i - at, k));
                }
            }
            assert forall|k: u64| #[trigger] replay(after).contains_key(k) implies replay(after)[k]
                == replay(before)[k] by {
                lemma_replay_dom(after, k);
                let i = choose|i: int| has_index(after, i, k);
                lemma_replay_at(after, i);
                assert(has_index(before, i + at, k));
                lemma_replay_at(before, i + at);
            }
            assert(replay(after) =~= replay(before).restrict(Set::new(|k: u64| k > index)));
        }
    }

    /// The entries whose index lies between the two ends, by rising index.
    pub fn range(&self, lo: IndexBound, hi: IndexBound) -> (r: Vec<LogEntry>)
        requires
            self.wf(),
            bounds_in_order(lo, hi),
        ensures
            is_range(self.ordered(), lo, hi, entry_views(r@)),
    {
        let ghost keep = |e: EntryView| above(lo, e.log_id.index) && below(hi, e.log_id.index);
        let mut out: Vec<LogEntry> = Vec::new();
        let start: usize = match lo {
            IndexBound::Included(a) => self.lower_bound(a),
            IndexBound::Excluded(a) => if a < u64::MAX {
                self.lower_bound(a + 1)
            } else {
                self.entries.len()
            },
            IndexBound::Unbounded => 0,
        };
        let mut i: usize = start;
        proof {
            let head = self.ordered().take(start as int);
            assert forall|j: int| 0 <= j < head.len() implies !keep(#[trigger] head[j]) by {
                assert(head[j] == self.ordered()[j]);
            }
            lemma_filter_none(head, keep);
            assert(entry_views(out@) =~= head.filter(keep));
        }
        while i < self.entries.len()
            invariant
                self.wf(),
                start <= i <= self.entries@.len(),
                keep == (|e: EntryView| above(lo, e.log_id.index) && below(hi, e.log_id.index)),
                forall|j: int|
                    start <= j < self.entries@.len() ==> above(
                        lo,
                        (#[trigger] self.ordered()[j]).log_id.index,
                    ),
                entry_views(out@) == self.ordered().take(i as int).filter(keep),
            decreases self.entries@.len() - i,
        {
            let e = &self.entries[i];
            let index: u64 = e.log_id.index;
            assert(self.ordered()[i as int] == e@);
            let inside = match hi {
                IndexBound::Included(b) => index <= b,
                IndexBound::Excluded(b) => index < b,
                IndexBound::Unbounded => true,
            };
            let ghost ord = self.ordered();
            if !inside {
                proof {
                    let rest = ord.skip(i as int);
                    assert forall|j: int| 0 <= j < rest.len() implies !keep(#[trigger] rest[j]) by {
                        assert(rest[j] == ord[i + j]);
                    }
                    lemma_filter_none(rest, keep);
                    lemma_filter_concat(ord.take(i as int), rest, keep);
                    assert(ord.take(i as int) + rest =~= ord);
                    assert(ord.take(i as int).filter(keep) + Seq::<EntryView>::empty() =~= ord.take(
                        i as int,
                    ).filter(keep));
                }
                return out;
            }
            proof {
                assert(ord.take(i as int + 1) =~= ord.take(i as int).push(e@));
                lemma_filter_push(ord.take(i as int), e@, keep);
            }
            let ghost was = out@;
            out.push(e.copied());
            assert(entry_views(out@) =~= entry_views(was).push(e@));
            i = i + 1;
        }
        assert(self.ordered().take(i as int) =~= self.ordered());
        out
    }
}

/// The entry at position `i` has index `k`.
pub open spec fn has_index(s: Seq<EntryView>, i: int, k: u64) -> bool {
    0 <= i < s.len() && s[i].log_id.index == k
}

/// The indexes that a run leaves are those of its entries.
pub proof fn lemma_replay_dom(s: Seq<EntryView>, k: u64)
    ensures
        replay(s).contains_key(k) <==> exists|i: int| has_index(s, i, k),
    decreases s.len(),
{
    if s.len() > 0 {
        let init = s.drop_last();
        lemma_replay_dom(init, k);
        if exists|i: int| has_index(init, i, k) {
            let i = choose|i: int| has_index(init, i, k);
            assert(has_index(s, i, k));
        }
        if s.last().log_id.index == k {
            assert(has_index(s, s.len() - 1, k));
        }
        if exists|i: int| has_index(s, i, k) {
            let i = choose|i: int| has_index(s, i, k);
            if i < s.len() - 1 {
                assert(has_index(init, i, k));
            }
        }
    }
}

/// A run leaves the last entry of each index.
pub proof fn lemma_replay_at(s: Seq<EntryView>, i: int)
    requires
        0 <= i < s.len(),
        forall|j: int| i < j < s.len() ==> (#[trigger] s[j]).log_id.index != s[i].log_id.index,
    ensures
        replay(s).contains_key(s[i].log_id.index),
        replay(s)[s[i].log_id.index] == s[i],
    decreases s.len(),
{
    if i < s.len() - 1 {
        let init = s.drop_last();
        assert(s[s.len() - 1].log_id.index != s[i].log_id.index);
        assert forall|j: int| i < j < init.len() implies (#[trigger] init[j]).log_id.index
            != init[i].log_id.index by {
            assert(init[j] == s[j]);
        }
        lemma_replay_at(init, i);
    }
}

/// In a run of rising indexes each entry is the one left under its index.
proof fn lemma_rising_at(s: Seq<EntryView>, i: int)
    requires
        rising(s),
        0 <= i < s.len(),
    ensures
        replay(s).contains_key(s[i].log_id.index),
        replay(s)[s[i].log_id.index] == s[i],
{
    lemma_replay_at(s, i);
}

proof fn lemma_update_in_place(s: Seq<EntryView>, at: int, e: EntryView)
    requires
        rising(s),
        0 <= at < s.len(),
        s[at].log_id.index == e.log_id.index,
    ensures
        rising(s.update(at, e)),
        replay(s.update(at, e)) == replay(s).insert(e.log_id.index, e),
{
    let t = s.update(at, e);
    let want = replay(s).insert(e.log_id.index, e);
    assert forall|k: u64| #[trigger] replay(t).contains_key(k) <==> want.contains_key(k) by {
        lemma_replay_dom(t, k);
        lemma_replay_dom(s, k);
        assert forall|i: int| has_index(t, i, k) == has_index(s, i, k) by {}
        if exists|i: int| has_index(t, i, k) {
            let i = choose|i: int| has_index(t, i, k);
            assert(has_index(s, i, k));
        }
        if exists|i: int| has_index(s, i, k) {
            let i = choose|i: int| has_index(s, i, k);
            assert(has_index(t, i, k));
        }
        lemma_rising_at(s, at);
    }
    assert forall|k: u64| #[trigger] replay(t).contains_key(k) implies replay(t)[k] == want[k] by {
        lemma_replay_dom(t, k);
        let i = choose|i: int| has_index(t, i, k);
        lemma_rising_at(t, i);
        lemma_rising_at(s, i);
    }
    assert(replay(t) =~= want);
}

proof fn lemma_insert_between(s: Seq<EntryView>, at: int, e: EntryView)
    requires
        rising(s),
        0 <= at <= s.len(),
        forall|i: int| 0 <= i < at ==> (#[trigger] s[i]).log_id.index < e.log_id.index,
        forall|i: int| at <= i < s.len() ==> (#[trigger] s[i]).log_id.index > e.log_id.index,
    ensures
        rising(s.insert(at, e)),
        replay(s.insert(at, e)) == replay(s).insert(e.log_id.index, e),
{
    let t = s.insert(at, e);
    let want = replay(s).insert(e.log_id.index, e);
    assert forall|i: int, j: int| 0 <= i < j < t.len() implies (#[trigger] t[i]).log_id.index < (
    #[trigger] t[j]).log_id.index by {
        let si = if i < at { i } else { i - 1 };
        let sj = if j < at { j } else { j - 1 };
        if i != at && j != at {
            assert(t[i] == s[si] && t[j] == s[sj]);
        } else if i == at {
            assert(t[j] == s[sj]);
        } else {
            assert(t[i] == s[si]);
        }
    }
    assert forall|k: u64| #[trigger] replay(t).contains_key(k) <==> want.contains_key(k) by {
        lemma_replay_dom(t, k);
        lemma_replay_dom(s, k);
        if exists|i: int| has_index(t, i, k) {
            let i = choose|i: int| has_index(t, i, k);
            if i < at {
                assert(has_index(s, i, k));
            } else if i > at {
                assert(has_index(s, i - 1, k));
            }
        }
        if exists|i: int| has_index(s, i, k) {
            let i = choose|i: int| has_index(s, i, k);
            if i < at {
                assert(has_index(t, i, k));
            } else {
                assert(has_index(t, i + 1, k));
            }
        }
        assert(has_index(t, at, e.log_id.index));
    }
    assert forall|k: u64| #[trigger] replay(t).contains_key(k) implies replay(t)[k] == want[k] by {
        lemma_replay_dom(t, k);
        let i = choose|i: int| has_index(t, i, k);
        lemma_rising_at(t, i);
        if i < at {
            lemma_rising_at(s, i);
        } else if i > at {
            lemma_rising_at(s, i - 1);
        }
    }
    assert(replay(t) =~= want);
}

/// One run after another.
pub proof fn lemma_replay_concat(a: Seq<EntryView>, b: Seq<EntryView>)
    ensures
        replay(a + b) == replay(a).union_prefer_right(replay(b)),
    decreases b.len(),
{
    if b.len() == 0 {
        assert(a + b =~= a);
        assert(replay(a).union_prefer_right(replay(b)) =~= replay(a));
    } else {
        assert((a + b).drop_last() =~= a + b.drop_last());
        lemma_replay_concat(a, b.drop_last());
        assert(replay(a + b) =~= replay(a).union_prefer_right(replay(b)));
    }
}

proof fn lemma_filter_none<A>(s: Seq<A>, p: spec_fn(A) -> bool)
    requires
        forall|i: int| 0 <= i < s.len() ==> !p(#[trigger] s[i]),
    ensures
        s.filter(p) == Seq::<A>::empty(),
    decreases s.len(),
{
    reveal(Seq::filter);
    if s.len() > 0 {
        assert forall|i: int| 0 <= i < s.drop_last().len() implies !p(
            #[trigger] s.drop_last()[i],
        ) by {
            assert(s.drop_last()[i] == s[i]);
        }
        lemma_filter_none(s.drop_last(), p);
        assert(!p(s[s.len() - 1]));
    }
}

proof fn lemma_filter_push<A>(s: Seq<A>, x: A, p: spec_fn(A) -> bool)
    ensures
        s.push(x).filter(p) == (if p(x) {
            s.filter(p).push(x)
        } else {
            s.filter(p)
        }),
{
    reveal(Seq::filter);
    assert(s.push(x).drop_last() =~= s);
}

proof fn lemma_filter_concat<A>(a: Seq<A>, b: Seq<A>, p: spec_fn(A) -> bool)
    ensures
        (a + b).filter(p) == a.filter(p) + b.filter(p),
    decreases b.len(),
{
    reveal(Seq::filter);
    if b.len() == 0 {
        assert(a + b =~= a);
        assert(a.filter(p) + b.filter(p) =~= a.filter(p));
    } else {
        assert((a + b).drop_last() =~= a + b.drop_last());
        lemma_filter_concat(a, b.drop_last(), p);
        assert((a + b).filter(p) =~= a.filter(p) + b.filter(p));
    }
}

/// What a filter lets through: entries of the run that pass, all of them, in their order.
proof fn lemma_filtered(s: Seq<EntryView>, p: spec_fn(EntryView) -> bool)
    requires
        rising(s),
    ensures
        rising(s.filter(p)),
        forall|i: int|
            0 <= i < s.filter(p).len() ==> p(#[trigger] s.filter(p)[i]) && s.contains(
                s.filter(p)[i],
            ),
        forall|i: int| 0 <= i < s.len() && p(#[trigger] s[i]) ==> s.filter(p).contains(s[i]),
    decreases s.len(),
{
    reveal(Seq::filter);
    if s.len() > 0 {
        let init = s.drop_last();
        let last = s.last();
        let f = init.filter(p);
        assert forall|i: int, j: int| 0 <= i < j < init.len() implies (
        #[trigger] init[i]).log_id.index < (#[trigger] init[j]).log_id.index by {
            assert(s[i].log_id.index < s[j].log_id.index);
        }
        lemma_filtered(init, p);
        assert forall|i: int| 0 <= i < f.len() implies (#[trigger] f[i]).log_id.index
            < last.log_id.index && s.contains(f[i]) by {
            let j = init.index_of(f[i]);
            assert(s[j] == f[i]);
            assert(s[j].log_id.index < s[s.len() - 1].log_id.index);
        }
        assert(s[s.len() - 1] == last);
        if p(last) {
            assert(s.filter(p) =~= f.push(last));
            assert(s.filter(p)[f.len() as int] == last);
        } else {
            assert(s.filter(p) =~= f);
        }
        assert forall|i: int| 0 <= i < s.len() && p(#[trigger] s[i]) implies s.filter(p).contains(
            s[i],
        ) by {
            if i < init.len() {
                assert(init[i] == s[i]);
                let j = f.index_of(init[i]);
                assert(s.filter(p)[j] == s[i]);
            }
        }
    }
}

/// What stands in a log by rising index stands in its map, under its index.
proof fn lemma_ordered_is_map(s: Seq<EntryView>, e: EntryView)
    requires
        rising(s),
    ensures
        s.contains(e) <==> replay(s).contains_key(e.log_id.index) && replay(s)[e.log_id.index] == e,
{
    let k = e.log_id.index;
    if s.contains(e) {
        lemma_rising_at(s, s.index_of(e));
    }
    if replay(s).contains_key(k) && replay(s)[k] == e {
        lemma_replay_dom(s, k);
        let i = choose|i: int| has_index(s, i, k);
        lemma_rising_at(s, i);
        assert(s[i] == e);
    }
}

/// Reading the range from `a` up to but not with `b` gives exactly the entries of the log with
/// `a <= index < b`, by rising index and each once; so none has the index `b`, and a range of no
/// width is empty.
pub proof fn law_range_reads_what_lies_between(log: LogTable, a: u64, b: u64, r: Seq<EntryView>)
    requires
        log.wf(),
        a <= b,
        is_range(log.ordered(), IndexBound::Included(a), IndexBound::Excluded(b), r),
    ensures
        forall|i: int|
            0 <= i < r.len() ==> a <= (#[trigger] r[i]).log_id.index < b && log@.contains_key(
                r[i].log_id.index,
            ) && log@[r[i].log_id.index] == r[i],
        forall|k: u64| #[trigger]
            log@.contains_key(k) && a <= k < b ==> r.contains(log@[k]) && log@[k].log_id.index == k,
        forall|i: int, j: int|
            0 <= i < j < r.len() ==> (#[trigger] r[i]).log_id.index < (#[trigger] r[j]).log_id.index,
        a == b ==> r.len() == 0,
{
    let s = log.ordered();
    let p = |e: EntryView|
        above(IndexBound::Included(a), e.log_id.index) && below(
            IndexBound::Excluded(b),
            e.log_id.index,
        );
    lemma_filtered(s, p);
    assert forall|i: int| 0 <= i < r.len() implies a <= (#[trigger] r[i]).log_id.index < b
        && log@.contains_key(r[i].log_id.index) && log@[r[i].log_id.index] == r[i] by {
        assert(p(s.filter(p)[i]));
        lemma_ordered_is_map(s, r[i]);
    }
    assert forall|k: u64| #[trigger] log@.contains_key(k) && a <= k < b implies r.contains(log@[k])
        && log@[k].log_id.index == k by {
        lemma_replay_dom(s, k);
        let i = choose|i: int| has_index(s, i, k);
        lemma_rising_at(s, i);
        assert(p(s[i]));
    }
    if a == b && r.len() > 0 {
        assert(a <= r[0].log_id.index < b);
    }
}

/// A range without an upper end reads every entry from `a` on.
pub proof fn lemma_range_to_the_end(log: LogTable, a: u64, r: Seq<EntryView>)
    requires
        log.wf(),
        is_range(log.ordered(), IndexBound::Included(a), IndexBound::Unbounded, r),
    ensures
        forall|i: int|
            0 <= i < r.len() ==> a <= (#[trigger] r[i]).log_id.index && log@.contains_key(
                r[i].log_id.index,
            ) && log@[r[i].log_id.index] == r[i],
        forall|k: u64| #[trigger] log@.contains_key(k) && a <= k ==> r.contains(log@[k]),
{
    let s = log.ordered();
    let p = |e: EntryView|
        above(IndexBound::Included(a), e.log_id.index) && below(
            IndexBound::Unbounded,
            e.log_id.index,
        );
    lemma_filtered(s, p);
    assert forall|i: int| 0 <= i < r.len() implies a <= (#[trigger] r[i]).log_id.index
        && log@.contains_key(r[i].log_id.index) && log@[r[i].log_id.index] == r[i] by {
        assert(p(s.filter(p)[i]));
        lemma_ordered_is_map(s, r[i]);
    }
    assert forall|k: u64| #[trigger] log@.contains_key(k) && a <= k implies r.contains(log@[k]) by {
        lemma_replay_dom(s, k);
        let i = choose|i: int| has_index(s, i, k);
        lemma_rising_at(s, i);
        assert(p(s[i]));
    }
}

/// Two ranges that meet read together what one range over both reads: each entry once, none twice
/// and none left out.
pub proof fn law_adjacent_ranges_join(
    log: LogTable,
    a: u64,
    b: u64,
    c: u64,
    first: Seq<EntryView>,
    second: Seq<EntryView>,
    whole: Seq<EntryView>,
)
    requires
        log.wf(),
        a <= b <= c,
        is_range(log.ordered(), IndexBound::Included(a), IndexBound::Excluded(b), first),
        is_range(log.ordered(), IndexBound::Included(b), IndexBound::Excluded(c), second),
        is_range(log.ordered(), IndexBound::Included(a), IndexBound::Excluded(c), whole),
    ensures
        whole == first + second,
{
    lemma_ranges_join(log.ordered(), a, b, c);
}

proof fn lemma_ranges_join(s: Seq<EntryView>, a: u64, b: u64, c: u64)
    requires
        rising(s),
        a <= b <= c,
    ensures
        s.filter(
            |e: EntryView|
                above(IndexBound::Included(a), e.log_id.index) && below(
                    IndexBound::Excluded(c),
                    e.log_id.index,
                ),
        ) == s.filter(
            |e: EntryView|
                above(IndexBound::Included(a), e.log_id.index) && below(
                    IndexBound::Excluded(b),
                    e.log_id.index,
                ),
        ) + s.filter(
            |e: EntryView|
                above(IndexBound::Included(b), e.log_id.index) && below(
                    IndexBound::Excluded(c),
                    e.log_id.index,
                ),
        ),
    decreases s.len(),
{
    let x = |e: EntryView|
        above(IndexBound::Included(a), e.log_id.index) && below(
            IndexBound::Excluded(b),
            e.log_id.index,
        );
    let y = |e: EntryView|
        above(IndexBound::Included(b), e.log_id.index) && below(
            IndexBound::Excluded(c),
            e.log_id.index,
        );
    let z = |e: EntryView|
        above(IndexBound::Included(a), e.log_id.index) && below(
            IndexBound::Excluded(c),
            e.log_id.index,
        );
    reveal(Seq::filter);
    if s.len() == 0 {
        assert(s.filter(z) =~= s.filter(x) + s.filter(y));
    } else {
        let init = s.drop_last();
        let last = s.last();
        assert forall|i: int, j: int| 0 <= i < j < init.len() implies (
        #[trigger] init[i]).log_id.index < (#[trigger] init[j]).log_id.index by {
            assert(s[i].log_id.index < s[j].log_id.index);
        }
        lemma_ranges_join(init, a, b, c);
        if x(last) {
            assert forall|i: int| 0 <= i < init.len() implies !y(#[trigger] init[i]) by {
                assert(s[i].log_id.index < s[s.len() - 1].log_id.index);
            }
            lemma_filter_none(init, y);
        }
        assert(s.filter(z) =~= s.filter(x) + s.filter(y));
    }
}

/// The ways to write an end agree: to include `a` is to exclude the index before it, and to include
/// `b` is to exclude the index after it; no end at all is the end of the log.
pub proof fn law_ends_of_ranges_agree(
    log: LogTable,
    lo: IndexBound,
    hi: IndexBound,
    a: u64,
    b: u64,
    r: Seq<EntryView>,
)
    requires
        log.wf(),
        a > 0,
        b < u64::MAX,
    ensures
        is_range(log.ordered(), IndexBound::Included(a), hi, r) <==> is_range(
            log.ordered(),
            IndexBound::Excluded((a - 1) as u64),
            hi,
            r,
        ),
        is_range(log.ordered(), lo, IndexBound::Included(b), r) <==> is_range(
            log.ordered(),
            lo,
            IndexBound::Excluded((b + 1) as u64),
            r,
        ),
        is_range(log.ordered(), IndexBound::Unbounded, hi, r) <==> is_range(
            log.ordered(),
            IndexBound::Included(0),
            hi,
            r,
        ),
        is_range(log.ordered(), lo, IndexBound::Unbounded, r) <==> is_range(
            log.ordered(),
            lo,
            IndexBound::Included(u64::MAX),
            r,
        ),
{
    let s = log.ordered();
    assert((|e: EntryView| above(IndexBound::Included(a), e.log_id.index) && below(hi, e.log_id.index))
        =~= (|e: EntryView|
        above(IndexBound::Excluded((a - 1) as u64), e.log_id.index) && below(hi, e.log_id.index)));
    assert((|e: EntryView| above(lo, e.log_id.index) && below(IndexBound::Included(b), e.log_id.index))
        =~= (|e: EntryView|
        above(lo, e.log_id.index) && below(IndexBound::Excluded((b + 1) as u64), e.log_id.index)));
    assert((|e: EntryView| above(IndexBound::Unbounded, e.log_id.index) && below(hi, e.log_id.index))
        =~= (|e: EntryView|
        above(IndexBound::Included(0), e.log_id.index) && below(hi, e.log_id.index)));
    assert((|e: EntryView| above(lo, e.log_id.index) && below(IndexBound::Unbounded, e.log_id.index))
        =~= (|e: EntryView|
        above(lo, e.log_id.index) && below(IndexBound::Included(u64::MAX), e.log_id.index)));
}

/// The whole range reads the whole log.
pub proof fn law_whole_range_reads_the_log(log: LogTable, r: Seq<EntryView>)
    requires
        log.wf(),
        is_range(log.ordered(), IndexBound::Unbounded, IndexBound::Unbounded, r),
    ensures
        r == log.ordered(),
        replay(r) == log@,
        r.len() == log@.dom().len(),
{
    let p = |e: EntryView|
        above(IndexBound::Unbounded, e.log_id.index) && below(
            IndexBound::Unbounded,
            e.log_id.index,
        );
    lemma_filter_all(log.ordered(), p);
    lemma_rising_count(log.ordered());
}

proof fn lemma_filter_all<A>(s: Seq<A>, p: spec_fn(A) -> bool)
    requires
        forall|i: int| 0 <= i < s.len() ==> p(#[trigger] s[i]),
    ensures
        s.filter(p) == s,
    decreases s.len(),
{
    reveal(Seq::filter);
    if s.len() > 0 {
        let init = s.drop_last();
        assert forall|i: int| 0 <= i < init.len() implies p(#[trigger] init[i]) by {
            assert(init[i] == s[i]);
        }
        lemma_filter_all(init, p);
        assert(p(s[s.len() - 1]));
        assert(init.push(s.last()) =~= s);
    } else {
        assert(s.filter(p) =~= s);
    }
}

/// A run of rising indexes leaves as many entries as it has.
proof fn lemma_rising_count(s: Seq<EntryView>)
    requires
        rising(s),
    ensures
        replay(s).dom().finite(),
        replay(s).dom().len() == s.len(),
    decreases s.len(),
{
    if s.len() > 0 {
        let init = s.drop_last();
        assert forall|i: int, j: int| 0 <= i < j < init.len() implies (
        #[trigger] init[i]).log_id.index < (#[trigger] init[j]).log_id.index by {
            assert(s[i].log_id.index < s[j].log_id.index);
        }
        lemma_rising_count(init);
        let k = s.last().log_id.index;
        lemma_replay_dom(init, k);
        if replay(init).contains_key(k) {
            let i = choose|i: int| has_index(init, i, k);
            assert(s[i].log_id.index < s[s.len() - 1].log_id.index);
        }
        assert(replay(s).dom() =~= replay(init).dom().insert(k));
    } else {
        assert(replay(s).dom() =~= Set::empty());
    }
}

} // verus!
