//! The page lists of units that are read live. A reading session asks the source once,
//! not for every image; lists grow old, are few, and are dropped when they no longer
//! hold.

use vstd::prelude::*;

use crate::ids::Uuid;
use crate::tables::{lemma_filter_contains, lemma_filter_len, retain};

verus! {

/// How long a page list stays good, in nanoseconds: half an hour. Sources hand out
/// addresses that expire.
pub const LIVE_PAGES_TTL: u64 = 1_800_000_000_000;

/// How many page lists are kept.
pub const LIVE_PAGES_MAX: usize = 64;

/// A page list, and when it was asked for, in nanoseconds on a clock that never goes
/// back.
#[derive(Debug, PartialEq, Eq)]
pub struct LiveEntry {
    pub unit_id: Uuid,
    pub urls: Vec<String>,
    pub resolved_at: u64,
}

/// A page list's content.
pub struct LiveView {
    pub urls: Seq<String>,
    pub resolved_at: u64,
}

/// The page lists that are kept.
#[derive(Debug)]
pub struct LivePages {
    entries: Vec<LiveEntry>,
}

/// No unit has two lists.
pub open spec fn entries_distinct(s: Seq<LiveEntry>) -> bool {
    forall|i: int, j: int|
        0 <= i < s.len() && 0 <= j < s.len() && (#[trigger] s[i]).unit_id == (#[trigger] s[j]).unit_id
            ==> i == j
}

/// A unit has a list.
pub open spec fn has_entry(s: Seq<LiveEntry>, id: Uuid) -> bool {
    exists|i: int| 0 <= i < s.len() && (#[trigger] s[i]).unit_id == id
}

/// A unit's list.
pub open spec fn entry_of(s: Seq<LiveEntry>, id: Uuid) -> LiveEntry {
    s[choose|i: int| 0 <= i < s.len() && (#[trigger] s[i]).unit_id == id]
}

/// The lists by their units.
pub open spec fn by_unit(s: Seq<LiveEntry>) -> Map<Uuid, LiveView> {
    Map::new(
        |id: Uuid| has_entry(s, id),
        |id: Uuid| LiveView { urls: entry_of(s, id).urls@, resolved_at: entry_of(s, id).resolved_at },
    )
}

/// Time that has passed on the clock; none where it seems to have gone back.
pub open spec fn elapsed(since: u64, now: u64) -> int {
    if now >= since {
        now - since
    } else {
        0
    }
}

impl View for LivePages {
    type V = Map<Uuid, LiveView>;

    closed spec fn view(&self) -> Map<Uuid, LiveView> {
        by_unit(self.entries@)
    }
}

/// A list is as old as any.
pub open spec fn is_oldest(lists: Map<Uuid, LiveView>, id: Uuid) -> bool {
    &&& lists.dom().contains(id)
    &&& forall|other: Uuid|
        #[trigger] lists.dom().contains(other) ==> lists[id].resolved_at <= lists[other].resolved_at
}

/// What keeping a unit's list does: where there is no room for another unit, an oldest
/// list goes.
pub open spec fn kept(
    before: Map<Uuid, LiveView>,
    after: Map<Uuid, LiveView>,
    unit_id: Uuid,
    list: LiveView,
) -> bool {
    if before.len() >= LIVE_PAGES_MAX && !before.dom().contains(unit_id) {
        exists|gone: Uuid|
            #[trigger] is_oldest(before, gone) && after == before.remove(gone).insert(unit_id, list)
    } else {
        after == before.insert(unit_id, list)
    }
}

proof fn lemma_entry_at(s: Seq<LiveEntry>, i: int)
    requires
        entries_distinct(s),
        0 <= i < s.len(),
    ensures
        has_entry(s, s[i].unit_id),
        entry_of(s, s[i].unit_id) == s[i],
{
    let id = s[i].unit_id;
    let k = choose|k: int| 0 <= k < s.len() && (#[trigger] s[k]).unit_id == id;
    assert(s[i].unit_id == id);
    assert(k == i);
}

/// Dropping a unit's list.
proof fn lemma_dropped(s: Seq<LiveEntry>, id: Uuid)
    requires
        entries_distinct(s),
    ensures
        entries_distinct(s.filter(|e: LiveEntry| e.unit_id != id)),
        by_unit(s.filter(|e: LiveEntry| e.unit_id != id)) == by_unit(s).remove(id),
    decreases s.len(),
{
    let p = |e: LiveEntry| e.unit_id != id;
    let out = s.filter(p);
    lemma_filter_contains(s, p);
    lemma_dropped_distinct(s, id);
    assert forall|k: Uuid| has_entry(out, k) == (has_entry(s, k) && k != id) by {
        if has_entry(out, k) {
            let i = choose|i: int| 0 <= i < out.len() && (#[trigger] out[i]).unit_id == k;
            assert(out.contains(out[i]));
            let j = choose|j: int| 0 <= j < s.len() && s[j] == out[i];
            assert(s[j].unit_id == k);
        }
        if has_entry(s, k) && k != id {
            let j = choose|j: int| 0 <= j < s.len() && (#[trigger] s[j]).unit_id == k;
            assert(s.contains(s[j]));
            assert(out.contains(s[j]));
            let i = choose|i: int| 0 <= i < out.len() && out[i] == s[j];
            assert(out[i].unit_id == k);
        }
    }
    assert forall|k: Uuid| has_entry(out, k) implies entry_of(out, k) == entry_of(s, k) by {
        let i = choose|i: int| 0 <= i < out.len() && (#[trigger] out[i]).unit_id == k;
        lemma_entry_at(out, i);
        assert(out.contains(out[i]));
        let j = choose|j: int| 0 <= j < s.len() && s[j] == out[i];
        lemma_entry_at(s, j);
    }
    assert(by_unit(out) =~= by_unit(s).remove(id));
}

proof fn lemma_dropped_distinct(s: Seq<LiveEntry>, id: Uuid)
    requires
        entries_distinct(s),
    ensures
        entries_distinct(s.filter(|e: LiveEntry| e.unit_id != id)),
    decreases s.len(),
{
    let p = |e: LiveEntry| e.unit_id != id;
    if s.len() > 0 {
        let d = s.drop_last();
        assert(s =~= d.push(s.last()));
        assert(entries_distinct(d)) by {
            assert forall|i: int, j: int|
                0 <= i < d.len() && 0 <= j < d.len() && (#[trigger] d[i]).unit_id == (#[trigger] d[j]).unit_id implies i
                == j by {
                assert(s[i] == d[i] && s[j] == d[j]);
            }
        }
        lemma_dropped_distinct(d, id);
        crate::tables::lemma_filter_push(d, s.last(), p);
        lemma_filter_contains(d, p);
        let out = d.filter(p);
        if p(s.last()) {
            assert forall|i: int| 0 <= i < out.len() implies (#[trigger] out[i]).unit_id != s.last().unit_id by {
                assert(out.contains(out[i]));
                let j = choose|j: int| 0 <= j < d.len() && d[j] == out[i];
                assert(s[j] == d[j]);
                assert(s[s.len() - 1] == s.last());
            }
        }
    } else {
        assert(s.filter(p) =~= Seq::empty()) by {
            lemma_filter_len(s, p);
        }
    }
}

/// Adding a list to a unit that has none.
proof fn lemma_added(s: Seq<LiveEntry>, e: LiveEntry)
    requires
        entries_distinct(s),
        !has_entry(s, e.unit_id),
    ensures
        entries_distinct(s.push(e)),
        by_unit(s.push(e)) == by_unit(s).insert(
            e.unit_id,
            LiveView { urls: e.urls@, resolved_at: e.resolved_at },
        ),
{
    let out = s.push(e);
    assert(entries_distinct(out)) by {
        assert forall|i: int, j: int|
            0 <= i < out.len() && 0 <= j < out.len() && (#[trigger] out[i]).unit_id == (
            #[trigger] out[j]).unit_id implies i == j by {
            if i < s.len() {
                assert(s[i] == out[i]);
            }
            if j < s.len() {
                assert(s[j] == out[j]);
            }
        }
    }
    assert forall|k: Uuid| has_entry(out, k) == (has_entry(s, k) || k == e.unit_id) by {
        if has_entry(s, k) {
            let i = choose|i: int| 0 <= i < s.len() && (#[trigger] s[i]).unit_id == k;
            assert(out[i].unit_id == k);
        }
        if k == e.unit_id {
            assert(out[s.len() as int].unit_id == k);
        }
        if has_entry(out, k) && k != e.unit_id {
            let i = choose|i: int| 0 <= i < out.len() && (#[trigger] out[i]).unit_id == k;
            assert(s[i].unit_id == k);
        }
    }
    assert forall|k: Uuid| has_entry(out, k) implies #[trigger] entry_of(out, k) == (if k == e.unit_id {
        e
    } else {
        entry_of(s, k)
    }) by {
        if k == e.unit_id {
            lemma_entry_at(out, s.len() as int);
        } else {
            let i = choose|i: int| 0 <= i < s.len() && (#[trigger] s[i]).unit_id == k;
            lemma_entry_at(s, i);
            assert(out[i] == s[i]);
            lemma_entry_at(out, i);
        }
    }
    assert(by_unit(out) =~= by_unit(s).insert(
        e.unit_id,
        LiveView { urls: e.urls@, resolved_at: e.resolved_at },
    ));
}

/// There are as many units with lists as lists.
proof fn lemma_size(s: Seq<LiveEntry>)
    requires
        entries_distinct(s),
    ensures
        by_unit(s).dom().finite(),
        by_unit(s).len() == s.len(),
    decreases s.len(),
{
    if s.len() == 0 {
        assert(by_unit(s) =~= Map::empty());
    } else {
        let d = s.drop_last();
        assert(entries_distinct(d)) by {
            assert forall|i: int, j: int|
                0 <= i < d.len() && 0 <= j < d.len() && (#[trigger] d[i]).unit_id == (#[trigger] d[j]).unit_id implies i
                == j by {
                assert(s[i] == d[i] && s[j] == d[j]);
            }
        }
        lemma_size(d);
        assert(s =~= d.push(s.last()));
        if has_entry(d, s.last().unit_id) {
            let i = choose|i: int| 0 <= i < d.len() && (#[trigger] d[i]).unit_id == s.last().unit_id;
            assert(s[i].unit_id == s[s.len() - 1].unit_id);
        }
        lemma_added(d, s.last());
    }
}

impl Default for LivePages {
    fn default() -> (r: Self)
        ensures
            r.wf(),
            r@ == Map::<Uuid, LiveView>::empty(),
    {
        let r = LivePages { entries: Vec::new() };
        assert(r@ =~= Map::<Uuid, LiveView>::empty());
        r
    }
}

impl LivePages {
    /// No unit has two lists, and there are not too many.
    pub closed spec fn wf(&self) -> bool {
        entries_distinct(self.entries@) && self.entries@.len() <= LIVE_PAGES_MAX
    }

    /// There are never more lists than are allowed.
    pub proof fn law_lists_are_bounded(&self)
        requires
            self.wf(),
        ensures
            self@.dom().finite(),
            self@.len() <= LIVE_PAGES_MAX,
    {
        lemma_size(self.entries@);
    }

    /// Where a unit's list stands.
    fn find(&self, unit_id: Uuid) -> (r: Option<usize>)
        requires
            self.wf(),
        ensures
            match r {
                Some(i) => i < self.entries@.len() && self.entries@[i as int].unit_id == unit_id,
                None => !has_entry(self.entries@, unit_id),
            },
    {
        let mut i: usize = 0;
        while i < self.entries.len()
            invariant
                i <= self.entries@.len(),
                forall|j: int| 0 <= j < i ==> (#[trigger] self.entries@[j]).unit_id != unit_id,
            decreases self.entries@.len() - i,
        {
            if self.entries[i].unit_id == unit_id {
                return Some(i);
            }
            i += 1;
        }
        None
    }

    /// A unit's list, while it is good.
    pub fn get(&self, unit_id: Uuid, now: u64) -> (r: Option<Vec<String>>)
        requires
            self.wf(),
        ensures
            r is Some <==> self@.dom().contains(unit_id) && elapsed(self@[unit_id].resolved_at, now)
                < LIVE_PAGES_TTL,
            r matches Some(urls) ==> urls@ == self@[unit_id].urls,
    {
        match self.find(unit_id) {
            None => None,
            Some(i) => {
                proof {
                    lemma_entry_at(self.entries@, i as int);
                }
                let since: u64 = self.entries[i].resolved_at;
                let age: u64 = if now >= since {
                    now - since
                } else {
                    0
                };
                if age < LIVE_PAGES_TTL {
                    let urls = self.entries[i].urls.clone();
                    assert(urls@ =~= self.entries@[i as int].urls@);
                    Some(urls)
                } else {
                    None
                }
            },
        }
    }

    /// Keeps a unit's list. Where there is no room for another unit, an oldest list goes.
    pub fn put(&mut self, unit_id: Uuid, urls: Vec<String>, now: u64)
        requires
            old(self).wf(),
        ensures
            final(self).wf(),
            kept(
                old(self)@,
                final(self)@,
                unit_id,
                LiveView { urls: urls@, resolved_at: now },
            ),
    {
        let ghost before = self@;
        proof {
            lemma_size(self.entries@);
        }
        match self.find(unit_id) {
            Some(_) => {
                self.invalidate(unit_id);
                assert(before.remove(unit_id).insert(
                    unit_id,
                    LiveView { urls: urls@, resolved_at: now },
                ) =~= before.insert(unit_id, LiveView { urls: urls@, resolved_at: now }));
                assert(!before.remove(unit_id).dom().contains(unit_id));
            },
            None => {
                if self.entries.len() >= LIVE_PAGES_MAX {
                    let gone = self.oldest();
                    self.invalidate(gone);
                    assert(is_oldest(before, gone));
                }
            },
        }
        let ghost kept = self.entries@;
        assert(!has_entry(kept, unit_id)) by {
            assert(!self@.dom().contains(unit_id));
        }
        let e = LiveEntry { unit_id, urls, resolved_at: now };
        proof {
            lemma_added(kept, e);
        }
        self.entries.push(e);
    }

    /// The unit of an oldest list.
    fn oldest(&self) -> (r: Uuid)
        requires
            self.wf(),
            self.entries@.len() > 0,
        ensures
            is_oldest(self@, r),
    {
        let mut best: usize = 0;
        let mut i: usize = 1;
        while i < self.entries.len()
            invariant
                0 < i <= self.entries@.len(),
                best < i,
                forall|j: int|
                    0 <= j < i ==> self.entries@[best as int].resolved_at <= (
                    #[trigger] self.entries@[j]).resolved_at,
            decreases self.entries@.len() - i,
        {
            if self.entries[i].resolved_at < self.entries[best].resolved_at {
                best = i;
            }
            i += 1;
        }
        let r = self.entries[best].unit_id;
        proof {
            lemma_entry_at(self.entries@, best as int);
            assert forall|other: Uuid| #[trigger] self@.dom().contains(other) implies self@[r].resolved_at
                <= self@[other].resolved_at by {
                let j = choose|j: int| 0 <= j < self.entries@.len() && (#[trigger] self.entries@[j]).unit_id == other;
                lemma_entry_at(self.entries@, j);
            }
        }
        r
    }

    /// Drops a unit's list.
    pub fn invalidate(&mut self, unit_id: Uuid)
        requires
            old(self).wf(),
        ensures
            final(self).wf(),
            final(self)@ == old(self)@.remove(unit_id),
            final(self).held() <= old(self).held(),
            old(self)@.dom().contains(unit_id) ==> final(self).held() < old(self).held(),
    {
        let ghost had = self.entries@;
        let keep = |e: &LiveEntry| -> (b: bool)
            ensures b == (e.unit_id != unit_id)
        {
            e.unit_id != unit_id
        };
        let ghost p = |e: LiveEntry| e.unit_id != unit_id;
        proof {
            lemma_dropped(had, unit_id);
            lemma_filter_len(had, p);
            lemma_size(had);
        }
        retain(&mut self.entries, keep, Ghost(p));
        proof {
            lemma_size(self.entries@);
        }
    }

    /// How many lists there are.
    pub closed spec fn held(&self) -> nat {
        self.entries@.len()
    }

    /// Drops the lists of units.
    pub fn invalidate_many(&mut self, unit_ids: &Vec<Uuid>)
        requires
            old(self).wf(),
        ensures
            final(self).wf(),
            final(self)@ == old(self)@.remove_keys(unit_ids@.to_set()),
    {
        let mut i: usize = 0;
        assert(old(self)@.remove_keys(unit_ids@.take(0).to_set()) =~= old(self)@);
        while i < unit_ids.len()
            invariant
                self.wf(),
                i <= unit_ids@.len(),
                self@ == old(self)@.remove_keys(unit_ids@.take(i as int).to_set()),
            decreases unit_ids@.len() - i,
        {
            self.invalidate(unit_ids[i]);
            proof {
                let seen = unit_ids@.take(i as int);
                let more = unit_ids@.take(i + 1);
                assert(more =~= seen.push(unit_ids@[i as int]));
                assert forall|k: Uuid| more.contains(k) <==> seen.contains(k) || k == unit_ids@[i as int] by {
                    if seen.contains(k) {
                        let n = choose|n: int| 0 <= n < seen.len() && seen[n] == k;
                        assert(more[n] == k);
                    }
                    if k == unit_ids@[i as int] {
                        assert(more[i as int] == k);
                    }
                }
                assert(self@ =~= old(self)@.remove_keys(more.to_set()));
            }
            i += 1;
        }
        assert(unit_ids@.take(unit_ids@.len() as int) =~= unit_ids@);
    }
}

}
