//! What the library knows of the titles in a listing.

use vstd::prelude::*;

use crate::clock::Timestamp;
use crate::db::catalog::{keys_distinct, keys_in, law_listing_reads_back, page_of, titles_of};
use crate::db::feed_laws::law_written_pages_stand_alone;
use crate::db::publications::key_moved;
use crate::db::{CatalogPageView, DbView};
use crate::domain::source::MangaSummary;
use crate::ids::Uuid;
use crate::sources::{drifted, exact_match, healed, marked, page_stored, proxied, proxy_text, stem, stem_rows, tracked_by};
use crate::tables::{lemma_filter_contains, lemma_filter_two};
use crate::text::{last_index, lemma_last_index, lemma_last_index_is};

verus! {

/// A key keeps all of itself where it has no hyphen, and where what stands behind the last one
/// is shorter than six characters or not all hexadecimal digits.
pub proof fn law_names_are_no_hashes(base: Seq<char>, suffix: Seq<char>)
    requires
        forall|j: int| 0 <= j < suffix.len() ==> #[trigger] suffix[j] != '-',
        suffix.len() < 6 || exists|j: int|
            0 <= j < suffix.len() && !({
                let c = #[trigger] suffix[j];
                ('0' <= c && c <= '9') || ('a' <= c && c <= 'f') || ('A' <= c && c <= 'F')
            }),
    ensures
        stem(base + seq!['-'] + suffix) == base + seq!['-'] + suffix,
        stem(suffix) == suffix,
{
    let key = base + seq!['-'] + suffix;
    let at = base.len() as int;
    assert(key[at] == '-');
    assert forall|j: int| at < j < key.len() implies key[j] != '-' by {
        assert(key[j] == suffix[j - at - 1]);
    }
    lemma_last_index_is(key, '-', at);
    assert(key.skip(at + 1) =~= suffix);
    lemma_last_index(suffix, '-');
    if last_index(suffix, '-') is Some {
        let i = last_index(suffix, '-')->0;
        assert(suffix[i] == '-');
    }
}

/// Whether a row is of the key, or of its stem.
pub open spec fn same_stem(row: (String, Uuid), key: Seq<char>) -> bool {
    stem(row.0@) == stem(key)
}

/// A title is tracked by a publication under its very key, where there is one.
pub proof fn law_the_very_key_comes_first(keys: Seq<(String, Uuid)>, key: Seq<char>, i: int)
    requires
        0 <= i < keys.len(),
        keys[i].0@ == key,
    ensures
        tracked_by(keys, key) is Some,
        exists|n: int|
            0 <= n < keys.len() && (#[trigger] keys[n]).0@ == key && Some(keys[n].1) == tracked_by(keys, key),
{
    lemma_exact(keys, key);
    assert(keys[i].0@ == key);
}

/// An exact match is one of the rows.
proof fn lemma_exact(keys: Seq<(String, Uuid)>, key: Seq<char>)
    ensures
        match exact_match(keys, key) {
            Some(id) => exists|n: int|
                0 <= n < keys.len() && (#[trigger] keys[n]).0@ == key && keys[n].1 == id,
            None => forall|n: int| 0 <= n < keys.len() ==> (#[trigger] keys[n]).0@ != key,
        },
    decreases keys.len(),
{
    if keys.len() > 0 {
        let d = keys.drop_last();
        lemma_exact(d, key);
        assert(keys[keys.len() - 1] == keys.last());
        if exact_match(d, key) is Some {
            let n = choose|n: int|
                0 <= n < d.len() && (#[trigger] d[n]).0@ == key && d[n].1 == exact_match(d, key)->0;
            assert(keys[n] == d[n]);
        } else {
            assert forall|n: int| 0 <= n < d.len() implies (#[trigger] keys[n]).0@ != key by {
                assert(d[n] == keys[n]);
            }
        }
    }
}

/// A title under no tracked key is tracked by the one publication whose key has its stem, and
/// by none where there is no such key or more than one.
pub proof fn law_a_drifted_key_is_known_by_its_stem(keys: Seq<(String, Uuid)>, key: Seq<char>, i: int, j: int)
    requires
        forall|n: int| 0 <= n < keys.len() ==> (#[trigger] keys[n]).0@ != key,
    ensures
        0 <= i < keys.len() && same_stem(keys[i], key) && (forall|n: int|
            0 <= n < keys.len() && n != i ==> !same_stem(#[trigger] keys[n], key)) ==> tracked_by(keys, key)
            == Some(keys[i].1),
        0 <= i < j < keys.len() && same_stem(keys[i], key) && same_stem(keys[j], key) ==> tracked_by(
            keys,
            key,
        ) is None,
        (forall|n: int| 0 <= n < keys.len() ==> !same_stem(#[trigger] keys[n], key)) ==> tracked_by(
            keys,
            key,
        ) is None,
{
    lemma_exact(keys, key);
    let p = |row: (String, Uuid)| stem(row.0@) == stem(key);
    let rows = stem_rows(keys, key);
    lemma_filter_contains(keys, p);
    if 0 <= i < keys.len() && same_stem(keys[i], key) && (forall|n: int|
        0 <= n < keys.len() && n != i ==> !same_stem(#[trigger] keys[n], key)) {
        lemma_filter_only(keys, p, i);
    }
    if 0 <= i < j < keys.len() && same_stem(keys[i], key) && same_stem(keys[j], key) {
        lemma_filter_two(keys, p, i, j);
    }
    if forall|n: int| 0 <= n < keys.len() ==> !same_stem(#[trigger] keys[n], key) {
        if rows.len() > 0 {
            assert(rows.contains(rows[0]));
            let n = choose|n: int| 0 <= n < keys.len() && keys[n] == rows[0];
            assert(!same_stem(keys[n], key));
        }
    }
}

/// A condition that one item alone meets picks that item.
proof fn lemma_filter_only<T>(s: Seq<T>, p: spec_fn(T) -> bool, i: int)
    requires
        0 <= i < s.len(),
        p(s[i]),
        forall|n: int| 0 <= n < s.len() && n != i ==> !p(#[trigger] s[n]),
    ensures
        s.filter(p) == seq![s[i]],
    decreases s.len(),
{
    reveal(Seq::filter);
    let d = s.drop_last();
    assert(s[s.len() - 1] == s.last());
    if i < d.len() {
        assert forall|n: int| 0 <= n < d.len() && n != i implies !p(#[trigger] d[n]) by {
            assert(d[n] == s[n]);
        }
        lemma_filter_only(d, p, i);
    } else {
        crate::tables::lemma_filter_none(d, p);
        assert(d.filter(p) =~= Seq::empty());
        assert(s.filter(p) =~= seq![s[i]]);
    }
}

/// A title in a listing is marked with the publication that tracks it, and else is as it was;
/// its key, its title and its cover stay.
pub proof fn law_marks_tell_who_tracks(keys: Seq<(String, Uuid)>, item: MangaSummary)
    ensures
        ({
            let m = marked(keys, item);
            &&& m.key == item.key && m.title == item.title && m.cover_url == item.cover_url
            &&& tracked_by(keys, item.key@) is Some ==> m.in_library == tracked_by(keys, item.key@)
            &&& tracked_by(keys, item.key@) is None ==> m.in_library == item.in_library
        }),
{
}

/// The keys that drifted are those of titles that are tracked by their stem alone, each with
/// the publication that tracks it, in the order of the listing.
pub proof fn law_drifted_keys_are_tracked_by_their_stem(
    keys: Seq<(String, Uuid)>,
    items: Seq<MangaSummary>,
    heal: (Uuid, String),
)
    ensures
        drifted(keys, items).contains(heal) <==> exists|i: int|
            0 <= i < items.len() && (#[trigger] items[i]).key == heal.1 && tracked_by(keys, heal.1@) == Some(
                heal.0,
            ) && forall|n: int| 0 <= n < keys.len() ==> (#[trigger] keys[n]).0@ != heal.1@,
    decreases items.len(),
{
    if items.len() > 0 {
        let d = items.drop_last();
        law_drifted_keys_are_tracked_by_their_stem(keys, d, heal);
        let before = drifted(keys, d);
        let all = drifted(keys, items);
        let key = items.last().key;
        lemma_exact(keys, key@);
        assert(items[items.len() - 1] == items.last());
        if all.contains(heal) {
            let n = choose|n: int| 0 <= n < all.len() && all[n] == heal;
            if n < before.len() {
                assert(before[n] == heal);
                assert(before.contains(heal));
                let i = choose|i: int| 0 <= i < d.len() && (#[trigger] d[i]).key == heal.1;
                assert(items[i] == d[i]);
            }
        }
        if exists|i: int|
            0 <= i < items.len() && (#[trigger] items[i]).key == heal.1 && tracked_by(keys, heal.1@) == Some(
                heal.0,
            ) && forall|n: int| 0 <= n < keys.len() ==> (#[trigger] keys[n]).0@ != heal.1@ {
            let i = choose|i: int| 0 <= i < items.len() && (#[trigger] items[i]).key == heal.1;
            if i < d.len() {
                assert(d[i] == items[i]);
                let n = choose|n: int| 0 <= n < before.len() && before[n] == heal;
                assert(all[n] == heal);
            } else {
                lemma_exact(keys, heal.1@);
                if exact_match(keys, key@) is Some {
                    let n = choose|n: int| 0 <= n < keys.len() && (#[trigger] keys[n]).0@ == key@;
                    assert(keys[n].0@ != heal.1@);
                }
                assert(all[before.len() as int] == heal);
            }
        }
    }
}

/// Keys that drifted are moved one after the other, each as far as it can be.
pub proof fn law_healing_moves_keys_in_turn(db: DbView, heals: Seq<(Uuid, String)>, more: (Uuid, String))
    ensures
        healed(db, Seq::empty()) == db,
        healed(db, heals.push(more)) == key_moved(healed(db, heals), more.0, more.1),
{
    assert(heals.push(more).drop_last() =~= heals);
}

/// A title that has a cover has one behind the server, and one that has none gets none;
/// nothing else of it changes.
pub proof fn law_covers_go_through_the_server(was: MangaSummary, is: MangaSummary)
    requires
        proxied(was, is),
    ensures
        is.key == was.key,
        is.title == was.title,
        is.in_library == was.in_library,
        is.cover_url is Some <==> was.cover_url is Some,
        was.cover_url is Some ==> is.cover_url->0@ == proxy_text(was.cover_url->0@),
{
}

/// A page of a listing that was stored is found again with its keys in order and the time that it
/// was fetched, and shows its titles as they came; every other page of the listing stays.
pub proof fn law_stored_pages_are_served(
    db: DbView,
    source: String,
    sort: Seq<char>,
    page: u32,
    items: Seq<MangaSummary>,
    now: Timestamp,
    other: u32,
)
    requires
        keys_distinct(items),
    ensures
        ({
            let after = page_stored(db, source, sort, page, items, now);
            let found = page_of(after.pages, source@, sort, page);
            &&& found is Some
            &&& found->0.fetched_at == now
            &&& found->0.keys.len() == items.len()
            &&& forall|i: int| 0 <= i < items.len() ==> #[trigger] found->0.keys[i] == items[i].key
            &&& titles_of(after.catalog, source@, found->0.keys) == items.map_values(
                |m: MangaSummary| MangaSummary { in_library: None, ..m },
            )
            &&& other != page ==> page_of(after.pages, source@, sort, other) == page_of(
                db.pages,
                source@,
                sort,
                other,
            )
            &&& after.publications == db.publications && after.units == db.units
        }),
{
    let p = CatalogPageView { source_id: source@, sort, page, keys: keys_in(items), fetched_at: now };
    law_written_pages_stand_alone(db.pages, p, source@, sort, page);
    law_written_pages_stand_alone(db.pages, p, source@, sort, other);
    law_listing_reads_back(db.catalog, source, items, now);
}

}
