//! Rows in vectors: finding, keeping and changing those that a condition picks.

use vstd::prelude::*;

verus! {

/// The test decides exactly the condition `p`.
pub open spec fn decides<T, F: Fn(&T) -> bool>(test: F, p: spec_fn(T) -> bool) -> bool {
    &&& forall|t: &T| #[trigger] test.requires((t,))
    &&& forall|t: &T, b: bool| #[trigger] test.ensures((t,), b) ==> b == p(*t)
}

/// The change computes exactly the function `f`.
pub open spec fn computes<T, F: Fn(&T) -> T>(change: F, f: spec_fn(T) -> T) -> bool {
    &&& forall|t: &T| #[trigger] change.requires((t,))
    &&& forall|t: &T, u: T| #[trigger] change.ensures((t,), u) ==> u == f(*t)
}

/// The first row that meets the condition.
pub(crate) fn position<T, F: Fn(&T) -> bool>(
    rows: &Vec<T>,
    test: F,
    Ghost(p): Ghost<spec_fn(T) -> bool>,
) -> (r: Option<usize>)
    requires
        decides(test, p),
    ensures
        match r {
            Some(i) => i < rows@.len() && p(rows@[i as int]) && forall|j: int|
                0 <= j < i ==> !p(#[trigger] rows@[j]),
            None => forall|j: int| 0 <= j < rows@.len() ==> !p(#[trigger] rows@[j]),
        },
{
    let mut i: usize = 0;
    while i < rows.len()
        invariant
            i <= rows@.len(),
            decides(test, p),
            forall|j: int| 0 <= j < i ==> !p(#[trigger] rows@[j]),
        decreases rows@.len() - i,
    {
        if test(&rows[i]) {
            return Some(i);
        }
        i += 1;
    }
    None
}

/// Whether some row meets the condition.
pub(crate) fn any<T, F: Fn(&T) -> bool>(
    rows: &Vec<T>,
    test: F,
    Ghost(p): Ghost<spec_fn(T) -> bool>,
) -> (r: bool)
    requires
        decides(test, p),
    ensures
        r == exists|j: int| 0 <= j < rows@.len() && p(#[trigger] rows@[j]),
{
    match position(rows, test, Ghost(p)) {
        Some(i) => {
            assert(p(rows@[i as int]));
            true
        },
        None => false,
    }
}

/// One more item passes the filter, or does not.
pub proof fn lemma_filter_push<T>(s: Seq<T>, x: T, p: spec_fn(T) -> bool)
    ensures
        s.push(x).filter(p) == if p(x) {
            s.filter(p).push(x)
        } else {
            s.filter(p)
        },
{
    reveal(Seq::filter);
    assert(s.push(x).drop_last() =~= s);
}

/// The filter of a prefix grows by the next item, where that passes.
pub proof fn lemma_filter_take<T>(s: Seq<T>, i: int, p: spec_fn(T) -> bool)
    requires
        0 <= i < s.len(),
    ensures
        s.take(i + 1).filter(p) == if p(s[i]) {
            s.take(i).filter(p).push(s[i])
        } else {
            s.take(i).filter(p)
        },
{
    assert(s.take(i + 1) =~= s.take(i).push(s[i]));
    lemma_filter_push(s.take(i), s[i], p);
}

/// What passes a filter was there and meets the condition, and the other way round.
pub proof fn lemma_filter_contains<T>(s: Seq<T>, p: spec_fn(T) -> bool)
    ensures
        forall|x: T| #[trigger] s.filter(p).contains(x) <==> s.contains(x) && p(x),
    decreases s.len(),
{
    reveal(Seq::filter);
    if s.len() > 0 {
        let d = s.drop_last();
        lemma_filter_contains(d, p);
        assert(s =~= d.push(s.last()));
        lemma_filter_push(d, s.last(), p);
        assert forall|x: T| #[trigger] s.filter(p).contains(x) <==> s.contains(x) && p(x) by {
            if s.contains(x) {
                let k = choose|k: int| 0 <= k < s.len() && s[k] == x;
                if k < d.len() {
                    assert(d[k] == x);
                    assert(d.contains(x));
                }
                if p(x) {
                    if d.contains(x) {
                        assert(d.filter(p).contains(x));
                        let m = choose|m: int| 0 <= m < d.filter(p).len() && d.filter(p)[m] == x;
                        assert(s.filter(p)[m] == x);
                    } else {
                        assert(s.filter(p).last() == x);
                    }
                }
            }
            if s.filter(p).contains(x) {
                let m = choose|m: int| 0 <= m < s.filter(p).len() && s.filter(p)[m] == x;
                if m < d.filter(p).len() {
                    assert(d.filter(p)[m] == x);
                    assert(d.filter(p).contains(x));
                    let k = choose|k: int| 0 <= k < d.len() && d[k] == x;
                    assert(s[k] == x);
                } else {
                    assert(s[s.len() - 1] == x);
                }
            }
        }
    }
}

/// Two items that pass a filter leave at least two.
pub proof fn lemma_filter_two<T>(s: Seq<T>, p: spec_fn(T) -> bool, i: int, j: int)
    requires
        0 <= i < j < s.len(),
        p(s[i]),
        p(s[j]),
    ensures
        s.filter(p).len() >= 2,
    decreases s.len(),
{
    let d = s.drop_last();
    assert(s =~= d.push(s.last()));
    lemma_filter_push(d, s.last(), p);
    if j < d.len() {
        lemma_filter_two(d, p, i, j);
    } else {
        lemma_filter_contains(d, p);
        assert(d[i] == s[i]);
        assert(d.contains(s[i]));
        assert(d.filter(p).contains(s[i]));
    }
}

/// Filtering keeps no more items than there were.
pub proof fn lemma_filter_len<T>(s: Seq<T>, p: spec_fn(T) -> bool)
    ensures
        s.filter(p).len() <= s.len(),
    decreases s.len(),
{
    reveal(Seq::filter);
    if s.len() > 0 {
        lemma_filter_len(s.drop_last(), p);
    }
}

/// A filter that every item passes changes nothing.
pub proof fn lemma_filter_all<T>(s: Seq<T>, p: spec_fn(T) -> bool)
    requires
        forall|i: int| 0 <= i < s.len() ==> p(#[trigger] s[i]),
    ensures
        s.filter(p) == s,
    decreases s.len(),
{
    reveal(Seq::filter);
    if s.len() > 0 {
        let d = s.drop_last();
        assert(forall|i: int| 0 <= i < d.len() ==> d[i] == s[i]);
        lemma_filter_all(d, p);
        assert(p(s[s.len() - 1]));
        assert(s =~= d.push(s.last()));
    } else {
        assert(s.filter(p) =~= s);
    }
}

/// A filter that no item passes leaves nothing.
pub proof fn lemma_filter_none<T>(s: Seq<T>, p: spec_fn(T) -> bool)
    requires
        forall|i: int| 0 <= i < s.len() ==> !p(#[trigger] s[i]),
    ensures
        s.filter(p).len() == 0,
    decreases s.len(),
{
    reveal(Seq::filter);
    if s.len() > 0 {
        let d = s.drop_last();
        assert(forall|i: int| 0 <= i < d.len() ==> d[i] == s[i]);
        lemma_filter_none(d, p);
        assert(!p(s[s.len() - 1]));
    }
}

/// Where a filter keeps an item, it came from an earlier or equal place: the
/// places of the kept items, in order.
pub open spec fn kept_places<T>(s: Seq<T>, p: spec_fn(T) -> bool) -> Seq<int>
    decreases s.len(),
{
    if s.len() == 0 {
        Seq::empty()
    } else {
        let before = kept_places(s.drop_last(), p);
        if p(s.last()) {
            before.push(s.len() - 1)
        } else {
            before
        }
    }
}

/// The kept places are in order, inside the sequence, and hold what the filter gives.
pub proof fn lemma_kept_places<T>(s: Seq<T>, p: spec_fn(T) -> bool)
    ensures
        kept_places(s, p).len() == s.filter(p).len(),
        forall|k: int|
            0 <= k < s.filter(p).len() ==> {
                &&& 0 <= #[trigger] kept_places(s, p)[k] < s.len()
                &&& s[kept_places(s, p)[k]] == s.filter(p)[k]
                &&& p(s.filter(p)[k])
            },
        forall|k: int, l: int|
            0 <= k < l < s.filter(p).len() ==> #[trigger] kept_places(s, p)[k]
                < #[trigger] kept_places(s, p)[l],
    decreases s.len(),
{
    reveal(Seq::filter);
    if s.len() > 0 {
        lemma_kept_places(s.drop_last(), p);
    }
}

/// Keeps the rows that meet the condition, in order.
pub(crate) fn retain<T, F: Fn(&T) -> bool>(
    rows: &mut Vec<T>,
    keep: F,
    Ghost(p): Ghost<spec_fn(T) -> bool>,
)
    requires
        decides(keep, p),
    ensures
        final(rows)@ == old(rows)@.filter(p),
{
    let ghost all = rows@;
    let ghost mut seen: int = 0;
    let mut i: usize = 0;
    proof {
        reveal(Seq::filter);
        assert(all.take(0).filter(p) =~= Seq::empty());
        assert(all.take(0).filter(p) + all.skip(0) =~= all);
    }
    while i < rows.len()
        invariant
            decides(keep, p),
            i <= rows@.len(),
            0 <= seen <= all.len(),
            rows@ == all.take(seen).filter(p) + all.skip(seen),
            i == all.take(seen).filter(p).len(),
        decreases rows@.len() - i,
    {
        proof {
            lemma_filter_take(all, seen, p);
        }
        assert(rows@[i as int] == all[seen]);
        if keep(&rows[i]) {
            i += 1;
        } else {
            let _ = rows.remove(i);
        }
        proof {
            assert(rows@ =~= all.take(seen + 1).filter(p) + all.skip(seen + 1));
            seen = seen + 1;
        }
    }
    assert(all.take(all.len() as int) =~= all);
    assert(seen == all.len());
    assert(rows@ =~= all.filter(p));
}

/// Replaces every row by what the change makes of it.
pub(crate) fn change_all<T, F: Fn(&T) -> T>(
    rows: &mut Vec<T>,
    change: F,
    Ghost(f): Ghost<spec_fn(T) -> T>,
)
    requires
        computes(change, f),
    ensures
        final(rows)@ == old(rows)@.map_values(f),
{
    let ghost all = rows@;
    let mut i: usize = 0;
    while i < rows.len()
        invariant
            computes(change, f),
            i <= rows@.len(),
            rows@.len() == all.len(),
            forall|j: int| 0 <= j < i ==> rows@[j] == f(#[trigger] all[j]),
            forall|j: int| i <= j < rows@.len() ==> rows@[j] == #[trigger] all[j],
        decreases rows@.len() - i,
    {
        let row = change(&rows[i]);
        rows.set(i, row);
        i += 1;
    }
    assert(rows@ =~= all.map_values(f));
}

/// How many rows meet the condition.
pub(crate) fn count<T, F: Fn(&T) -> bool>(
    rows: &Vec<T>,
    test: F,
    Ghost(p): Ghost<spec_fn(T) -> bool>,
) -> (r: usize)
    requires
        decides(test, p),
    ensures
        r == rows@.filter(p).len(),
{
    let mut n: usize = 0;
    let mut i: usize = 0;
    proof {
        reveal(Seq::filter);
        assert(rows@.take(0).filter(p) =~= Seq::empty());
    }
    while i < rows.len()
        invariant
            decides(test, p),
            i <= rows@.len(),
            n <= i,
            n == rows@.take(i as int).filter(p).len(),
        decreases rows@.len() - i,
    {
        proof {
            lemma_filter_take(rows@, i as int, p);
        }
        if test(&rows[i]) {
            n += 1;
        }
        i += 1;
    }
    assert(rows@.take(rows@.len() as int) =~= rows@);
    n
}

/// Whether an identifier is in a list.
pub fn includes(ids: &Vec<u128>, id: u128) -> (r: bool)
    ensures
        r == ids@.contains(id),
{
    let mut i: usize = 0;
    while i < ids.len()
        invariant
            i <= ids@.len(),
            forall|j: int| 0 <= j < i ==> ids@[j] != id,
        decreases ids@.len() - i,
    {
        if ids[i] == id {
            assert(ids@[i as int] == id);
            return true;
        }
        i += 1;
    }
    false
}

/// A count as it is reported, in thirty-two bits.
pub open spec fn count32(n: int) -> u32 {
    (n % 0x1_0000_0000) as u32
}

/// A count as it is reported, in thirty-two bits.
pub fn to_count(n: usize) -> (r: u32)
    ensures
        r == count32(n as int),
{
    (n as u64 % 0x1_0000_0000u64) as u32
}

}
