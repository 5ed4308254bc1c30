//! Sorting, keeping the order of items that rank alike; and the order of a dictionary.

use vstd::prelude::*;

use crate::text::{ascii_lowercase, ascii_small, chars_of};
use crate::tables::{kept_places, lemma_filter_push, lemma_kept_places};

verus! {

/// `le` ranks any two items, and ranking carries over.
pub open spec fn is_ranking<T>(le: spec_fn(T, T) -> bool) -> bool {
    &&& forall|a: T, b: T| #[trigger] le(a, b) || le(b, a)
    &&& forall|a: T, b: T, c: T| #[trigger] le(a, b) && #[trigger] le(b, c) ==> le(a, c)
}

/// Every item ranks before, or beside, all that follow it.
pub open spec fn in_order<T>(s: Seq<T>, le: spec_fn(T, T) -> bool) -> bool {
    forall|i: int, j: int| 0 <= i < j < s.len() ==> le(#[trigger] s[i], #[trigger] s[j])
}

/// `x` put into `s` behind the last item that does not rank behind it.
pub open spec fn insert_sorted<T>(s: Seq<T>, x: T, le: spec_fn(T, T) -> bool) -> Seq<T>
    decreases s.len(),
{
    if s.len() == 0 {
        seq![x]
    } else if le(s.last(), x) {
        s.push(x)
    } else {
        insert_sorted(s.drop_last(), x, le).push(s.last())
    }
}

/// The items of `s` in order, those that rank alike in the order they had.
pub open spec fn sorted<T>(s: Seq<T>, le: spec_fn(T, T) -> bool) -> Seq<T>
    decreases s.len(),
{
    if s.len() == 0 {
        Seq::empty()
    } else {
        insert_sorted(sorted(s.drop_last(), le), s.last(), le)
    }
}

/// Inserting at the place `insert_sorted` describes.
proof fn lemma_insert_at<T>(s: Seq<T>, x: T, le: spec_fn(T, T) -> bool, at: int)
    requires
        0 <= at <= s.len(),
        forall|i: int| at <= i < s.len() ==> !le(#[trigger] s[i], x),
        at > 0 ==> le(s[at - 1], x),
    ensures
        insert_sorted(s, x, le) == s.insert(at, x),
    decreases s.len(),
{
    if s.len() == 0 {
        assert(s.insert(at, x) =~= seq![x]);
    } else if at == s.len() {
        assert(s.insert(at, x) =~= s.push(x));
    } else {
        lemma_insert_at(s.drop_last(), x, le, at);
        assert(s.insert(at, x) =~= s.drop_last().insert(at, x).push(s.last()));
    }
}

/// Inserting keeps the order and adds exactly the one item.
proof fn lemma_insert_sorted<T>(s: Seq<T>, x: T, le: spec_fn(T, T) -> bool)
    requires
        in_order(s, le),
        is_ranking(le),
    ensures
        in_order(insert_sorted(s, x, le), le),
        insert_sorted(s, x, le).to_multiset() == s.to_multiset().insert(x),
        insert_sorted(s, x, le).len() == s.len() + 1,
        forall|i: int|
            0 <= i < insert_sorted(s, x, le).len() ==> (#[trigger] insert_sorted(s, x, le)[i] == x
                || s.contains(insert_sorted(s, x, le)[i])),
    decreases s.len(),
{
    broadcast use vstd::seq_lib::group_to_multiset_ensures;

    let r = insert_sorted(s, x, le);
    if s.len() == 0 {
        assert(r =~= Seq::<T>::empty().push(x));
    } else if le(s.last(), x) {
        assert forall|i: int| 0 <= i < s.len() implies le(#[trigger] s[i], x) by {
            if i < s.len() - 1 {
                assert(le(s[i], s.last()));
            }
        }
        assert forall|i: int| 0 <= i < r.len() implies (#[trigger] r[i] == x || s.contains(r[i])) by {
            if i < s.len() {
                assert(r[i] == s[i]);
            }
        }
    } else {
        let d = s.drop_last();
        lemma_insert_sorted(d, x, le);
        let m = insert_sorted(d, x, le);
        assert(le(x, s.last()));
        assert forall|i: int| 0 <= i < m.len() implies le(#[trigger] m[i], s.last()) by {
            if m[i] != x {
                let k = choose|k: int| 0 <= k < d.len() && d[k] == m[i];
                assert(le(s[k], s[s.len() - 1]));
            }
        }
        assert(s =~= d.push(s.last()));
        assert(r.to_multiset() =~= s.to_multiset().insert(x));
        assert forall|i: int| 0 <= i < r.len() implies (#[trigger] r[i] == x || s.contains(r[i])) by {
            if i < m.len() {
                assert(r[i] == m[i]);
                if m[i] != x {
                    let k = choose|k: int| 0 <= k < d.len() && d[k] == m[i];
                    assert(s[k] == r[i]);
                }
            } else {
                assert(r[i] == s[s.len() - 1]);
            }
        }
    }
}

/// Inserting adds the item and loses none, whatever the relation.
proof fn lemma_insert_sorted_multiset<T>(s: Seq<T>, x: T, le: spec_fn(T, T) -> bool)
    ensures
        insert_sorted(s, x, le).to_multiset() == s.to_multiset().insert(x),
    decreases s.len(),
{
    broadcast use vstd::seq_lib::group_to_multiset_ensures;

    if s.len() == 0 {
        assert(seq![x] =~= Seq::empty().push(x));
        assert(s =~= Seq::empty());
    } else if !le(s.last(), x) {
        lemma_insert_sorted_multiset(s.drop_last(), x, le);
        assert(s =~= s.drop_last().push(s.last()));
        assert(s.to_multiset() =~= s.drop_last().to_multiset().insert(s.last()));
        assert(insert_sorted(s, x, le).to_multiset() =~= insert_sorted(
            s.drop_last(),
            x,
            le,
        ).to_multiset().insert(s.last()));
        assert(insert_sorted(s, x, le).to_multiset() =~= s.to_multiset().insert(x));
    }
}

/// Sorting neither loses nor adds any item, whatever the relation.
pub proof fn lemma_sorted_multiset<T>(s: Seq<T>, le: spec_fn(T, T) -> bool)
    ensures
        sorted(s, le).to_multiset() == s.to_multiset(),
    decreases s.len(),
{
    broadcast use vstd::seq_lib::group_to_multiset_ensures;

    if s.len() > 0 {
        lemma_sorted_multiset(s.drop_last(), le);
        lemma_insert_sorted_multiset(sorted(s.drop_last(), le), s.last(), le);
        assert(s =~= s.drop_last().push(s.last()));
    } else {
        assert(sorted(s, le) =~= s);
    }
}

/// Sorting keeps the number of items, whatever the relation.
pub proof fn lemma_sorted_len<T>(s: Seq<T>, le: spec_fn(T, T) -> bool)
    ensures
        sorted(s, le).len() == s.len(),
{
    broadcast use vstd::seq_lib::group_to_multiset_ensures;

    lemma_sorted_multiset(s, le);
    assert(sorted(s, le).to_multiset().len() == s.to_multiset().len());
}

/// Sorting puts the items in order, and neither loses nor adds any.
pub proof fn lemma_sorted<T>(s: Seq<T>, le: spec_fn(T, T) -> bool)
    requires
        is_ranking(le),
    ensures
        in_order(sorted(s, le), le),
        sorted(s, le).to_multiset() == s.to_multiset(),
        sorted(s, le).len() == s.len(),
        forall|x: T| #[trigger] sorted(s, le).contains(x) <==> s.contains(x),
    decreases s.len(),
{
    broadcast use vstd::seq_lib::group_to_multiset_ensures;

    if s.len() > 0 {
        lemma_sorted(s.drop_last(), le);
        lemma_insert_sorted(sorted(s.drop_last(), le), s.last(), le);
        assert(s =~= s.drop_last().push(s.last()));
    } else {
        assert(sorted(s, le) =~= s);
    }
    assert forall|x: T| #[trigger] sorted(s, le).contains(x) <==> s.contains(x) by {
        assert(sorted(s, le).contains(x) <==> sorted(s, le).to_multiset().count(x) > 0);
        assert(s.contains(x) <==> s.to_multiset().count(x) > 0);
    }
}

/// Sorting repeats nothing that was not repeated.
pub proof fn lemma_sorted_no_duplicates<T>(s: Seq<T>, le: spec_fn(T, T) -> bool)
    requires
        is_ranking(le),
        s.no_duplicates(),
    ensures
        sorted(s, le).no_duplicates(),
{
    lemma_sorted(s, le);
    s.lemma_multiset_has_no_duplicates();
    assert forall|x: T| sorted(s, le).to_multiset().contains(x) implies sorted(
        s,
        le,
    ).to_multiset().count(x) == 1 by {
        assert(s.to_multiset().contains(x));
    }
    sorted(s, le).lemma_multiset_has_no_duplicates_conv();
}

/// Filtering what was sorted is sorting what was filtered.
pub proof fn lemma_sorted_filter<T>(s: Seq<T>, le: spec_fn(T, T) -> bool, p: spec_fn(T) -> bool)
    requires
        is_ranking(le),
    ensures
        sorted(s, le).filter(p) == sorted(s.filter(p), le),
    decreases s.len(),
{
    reveal(Seq::filter);
    if s.len() > 0 {
        let d = s.drop_last();
        lemma_sorted_filter(d, le, p);
        lemma_sorted(d, le);
        lemma_insert_filter(sorted(d, le), s.last(), le, p);
        if p(s.last()) {
            assert(s.filter(p).drop_last() =~= d.filter(p));
        }
    } else {
        assert(sorted(s, le).filter(p) =~= sorted(s.filter(p), le));
    }
}

/// Filtering after an insertion is inserting after filtering.
proof fn lemma_insert_filter<T>(s: Seq<T>, x: T, le: spec_fn(T, T) -> bool, p: spec_fn(T) -> bool)
    requires
        is_ranking(le),
        in_order(s, le),
    ensures
        insert_sorted(s, x, le).filter(p) == if p(x) {
            insert_sorted(s.filter(p), x, le)
        } else {
            s.filter(p)
        },
    decreases s.len(),
{
    reveal(Seq::filter);
    let f = s.filter(p);
    if s.len() == 0 {
        assert(f =~= Seq::<T>::empty());
        assert(s =~= Seq::<T>::empty());
        assert(seq![x] =~= s.push(x));
        lemma_filter_push(s, x, p);
        assert(f.push(x) =~= seq![x]);
    } else if le(s.last(), x) {
        assert(s.push(x).drop_last() =~= s);
        if p(x) && f.len() > 0 {
            lemma_kept_places(s, p);
            let k = kept_places(s, p)[f.len() - 1];
            assert(s[k] == f.last());
            if k < s.len() - 1 {
                assert(le(s[k], s[s.len() - 1]));
            }
        }
        assert(s.push(x).filter(p) =~= if p(x) {
            insert_sorted(f, x, le)
        } else {
            f
        });
    } else {
        let d = s.drop_last();
        lemma_insert_filter(d, x, le, p);
        let m = insert_sorted(d, x, le);
        assert(m.push(s.last()).drop_last() =~= m);
        if p(s.last()) {
            assert(f.drop_last() =~= d.filter(p));
        }
    }
}

/// Two rankings that agree on the items of `s` sort it alike.
pub proof fn lemma_sorted_agree<T>(s: Seq<T>, a: spec_fn(T, T) -> bool, b: spec_fn(T, T) -> bool)
    requires
        is_ranking(a),
        forall|x: T, y: T| s.contains(x) && s.contains(y) ==> #[trigger] a(x, y) == b(x, y),
    ensures
        sorted(s, a) == sorted(s, b),
    decreases s.len(),
{
    if s.len() > 0 {
        let d = s.drop_last();
        assert forall|x: T, y: T| d.contains(x) && d.contains(y) implies #[trigger] a(x, y) == b(
            x,
            y,
        ) by {
            let i = choose|i: int| 0 <= i < d.len() && d[i] == x;
            let j = choose|j: int| 0 <= j < d.len() && d[j] == y;
            assert(s[i] == x && s[j] == y);
        }
        lemma_sorted_agree(d, a, b);
        lemma_sorted(d, a);
        assert forall|x: T| sorted(d, a).contains(x) implies s.contains(x) by {
            let i = choose|i: int| 0 <= i < d.len() && d[i] == x;
            assert(s[i] == x);
        }
        assert(s.contains(s.last()));
        lemma_insert_agree(sorted(d, a), s.last(), a, b);
    }
}

/// Two rankings that agree on the items insert alike.
proof fn lemma_insert_agree<T>(
    s: Seq<T>,
    x: T,
    a: spec_fn(T, T) -> bool,
    b: spec_fn(T, T) -> bool,
)
    requires
        forall|y: T| s.contains(y) ==> #[trigger] a(y, x) == b(y, x),
    ensures
        insert_sorted(s, x, a) == insert_sorted(s, x, b),
    decreases s.len(),
{
    if s.len() > 0 {
        let d = s.drop_last();
        assert forall|y: T| d.contains(y) implies #[trigger] a(y, x) == b(y, x) by {
            let i = choose|i: int| 0 <= i < d.len() && d[i] == y;
            assert(s[i] == y);
        }
        assert(s.contains(s.last()));
        lemma_insert_agree(d, x, a, b);
    }
}

/// Sorting what items stand for is sorting the items, where the ranking looks only at
/// what they stand for.
pub proof fn lemma_sorted_map<T, U>(
    s: Seq<T>,
    g: spec_fn(T) -> U,
    le: spec_fn(T, T) -> bool,
    le2: spec_fn(U, U) -> bool,
)
    requires
        forall|a: T, b: T| #[trigger] le(a, b) == le2(g(a), g(b)),
    ensures
        sorted(s, le).map_values(g) == sorted(s.map_values(g), le2),
    decreases s.len(),
{
    if s.len() > 0 {
        lemma_sorted_map(s.drop_last(), g, le, le2);
        lemma_insert_map(sorted(s.drop_last(), le), s.last(), g, le, le2);
        assert(s.map_values(g).drop_last() =~= s.drop_last().map_values(g));
    } else {
        assert(sorted(s, le).map_values(g) =~= sorted(s.map_values(g), le2));
    }
}

/// Inserting what an item stands for is inserting the item.
proof fn lemma_insert_map<T, U>(
    s: Seq<T>,
    x: T,
    g: spec_fn(T) -> U,
    le: spec_fn(T, T) -> bool,
    le2: spec_fn(U, U) -> bool,
)
    requires
        forall|a: T, b: T| #[trigger] le(a, b) == le2(g(a), g(b)),
    ensures
        insert_sorted(s, x, le).map_values(g) == insert_sorted(s.map_values(g), g(x), le2),
    decreases s.len(),
{
    if s.len() == 0 {
        assert(insert_sorted(s, x, le).map_values(g) =~= seq![g(x)]);
    } else if le(s.last(), x) {
        assert(s.push(x).map_values(g) =~= s.map_values(g).push(g(x)));
    } else {
        assert(le(s.last(), x) == le2(g(s.last()), g(x)));
        lemma_insert_map(s.drop_last(), x, g, le, le2);
        assert(s.map_values(g).drop_last() =~= s.drop_last().map_values(g));
        let m = insert_sorted(s.drop_last(), x, le);
        assert(m.push(s.last()).map_values(g) =~= m.map_values(g).push(g(s.last())));
    }
}

/// The test decides exactly the relation `le`.
pub open spec fn compares<T, F: Fn(&T, &T) -> bool>(test: F, le: spec_fn(T, T) -> bool) -> bool {
    &&& forall|a: &T, b: &T| #[trigger] test.requires((a, b))
    &&& forall|a: &T, b: &T, r: bool| #[trigger] test.ensures((a, b), r) ==> r == le(*a, *b)
}

/// Sorts items. Those that rank alike keep their order.
pub(crate) fn sort_by<T, F: Fn(&T, &T) -> bool>(
    rows: Vec<T>,
    test: F,
    Ghost(le): Ghost<spec_fn(T, T) -> bool>,
) -> (r: Vec<T>)
    requires
        compares(test, le),
    ensures
        r@ == sorted(rows@, le),
{
    let ghost all = rows@;
    let mut rest = rows;
    let mut out: Vec<T> = Vec::new();
    let ghost mut done: int = 0;
    assert(all.skip(0) =~= all);
    assert(all.take(0) =~= Seq::empty());
    while rest.len() > 0
        invariant
            compares(test, le),
            0 <= done <= all.len(),
            rest@ == all.skip(done),
            out@ == sorted(all.take(done), le),
        decreases rest@.len(),
    {
        let x = rest.remove(0);
        assert(x == all[done]);
        let mut at: usize = out.len();
        while at > 0 && !test(&out[at - 1], &x)
            invariant
                compares(test, le),
                at <= out@.len(),
                forall|i: int| at <= i < out@.len() ==> !le(#[trigger] out@[i], x),
            decreases at,
        {
            at -= 1;
        }
        proof {
            lemma_insert_at(out@, x, le, at as int);
            assert(all.take(done + 1).drop_last() =~= all.take(done));
        }
        out.insert(at, x);
        proof {
            assert(rest@ =~= all.skip(done + 1));
            done = done + 1;
        }
    }
    assert(all.take(done) =~= all);
    out
}

// ---- dictionary order ----

/// `a` comes before `b` in a dictionary of characters, or is the same.
pub open spec fn lexical(a: Seq<char>, b: Seq<char>) -> bool
    decreases a.len(),
{
    if a.len() == 0 {
        true
    } else if b.len() == 0 {
        false
    } else if a[0] == b[0] {
        lexical(a.skip(1), b.skip(1))
    } else {
        a[0] < b[0]
    }
}

/// The first place where two texts differ decides their order.
pub proof fn lemma_lexical_first_difference(a: Seq<char>, b: Seq<char>, at: int)
    requires
        0 <= at < a.len(),
        at < b.len(),
        forall|i: int| 0 <= i < at ==> a[i] == #[trigger] b[i],
        a[at] < b[at],
    ensures
        lexical(a, b),
        a != b,
    decreases at,
{
    if at > 0 {
        let (x, y) = (a.skip(1), b.skip(1));
        assert forall|i: int| 0 <= i < at - 1 implies x[i] == #[trigger] y[i] by {
            assert(a[i + 1] == b[i + 1]);
        }
        lemma_lexical_first_difference(x, y, at - 1);
        assert(a[0] == b[0]);
    }
}

/// Any two strings are in dictionary order, one way or the other.
pub proof fn lemma_lexical_total(a: Seq<char>, b: Seq<char>)
    ensures
        lexical(a, b) || lexical(b, a),
    decreases a.len(),
{
    if a.len() > 0 && b.len() > 0 && a[0] == b[0] {
        lemma_lexical_total(a.skip(1), b.skip(1));
    }
}

/// Dictionary order carries over.
pub proof fn lemma_lexical_transitive(a: Seq<char>, b: Seq<char>, c: Seq<char>)
    requires
        lexical(a, b),
        lexical(b, c),
    ensures
        lexical(a, c),
    decreases a.len(),
{
    if a.len() > 0 && b.len() > 0 && c.len() > 0 && a[0] == b[0] && b[0] == c[0] {
        lemma_lexical_transitive(a.skip(1), b.skip(1), c.skip(1));
    }
}

/// Strings that stand in dictionary order both ways are the same.
pub proof fn lemma_lexical_antisymmetric(a: Seq<char>, b: Seq<char>)
    requires
        lexical(a, b),
        lexical(b, a),
    ensures
        a == b,
    decreases a.len(),
{
    if a.len() > 0 {
        lemma_lexical_antisymmetric(a.skip(1), b.skip(1));
        assert(a =~= seq![a[0]] + a.skip(1));
        assert(b =~= seq![b[0]] + b.skip(1));
    } else {
        assert(a =~= b);
    }
}

/// Whether `a` comes before `b` in a dictionary of characters, or is the same.
pub fn lexical_le(a: &Vec<char>, b: &Vec<char>) -> (r: bool)
    ensures
        r == lexical(a@, b@),
{
    let mut i: usize = 0;
    assert(a@.skip(0) =~= a@);
    assert(b@.skip(0) =~= b@);
    while i < a.len() && i < b.len()
        invariant
            i <= a@.len(),
            i <= b@.len(),
            lexical(a@, b@) == lexical(a@.skip(i as int), b@.skip(i as int)),
        decreases a@.len() - i,
    {
        if a[i] != b[i] {
            return a[i] < b[i];
        }
        assert(a@.skip(i as int).skip(1) =~= a@.skip(i + 1));
        assert(b@.skip(i as int).skip(1) =~= b@.skip(i + 1));
        i += 1;
    }
    i == a.len()
}

/// Dictionary order without regard to the case of ASCII letters.
pub open spec fn nocase_le(a: Seq<char>, b: Seq<char>) -> bool {
    lexical(ascii_small(a), ascii_small(b))
}

/// Whether `a` comes before `b`, or beside it, without regard to the case of ASCII letters.
pub fn nocase_before(a: &str, b: &str) -> (r: bool)
    ensures
        r == nocase_le(a@, b@),
{
    lexical_le(&ascii_lowercase(a), &ascii_lowercase(b))
}

/// Whether `a` comes before `b` in a dictionary of characters, or is the same.
pub fn lexical_before(a: &str, b: &str) -> (r: bool)
    ensures
        r == lexical(a@, b@),
{
    lexical_le(&chars_of(a), &chars_of(b))
}

}
