//! What the feed of finds, the categories, the catalog and the overview show.

use vstd::prelude::*;

use crate::clock::Timestamp;
use crate::db::catalog::{all_recorded, entry_of, has_entry, is_entry, is_page, page_of, recorded, seen, source_of_cover, titles_of, written};
use crate::db::categories::{category_le, category_order, switched};
use crate::db::overview::{rollups, titles};
use crate::db::plain::{publication_there, sooner};
use crate::db::publications::{has_units, publication_of, rollup_of};
use crate::db::updates::{is_shown_update, limited, newer_first, shown_update, update_row, updates_after};
use crate::db::{has_publication, CatalogEntry, CatalogPageView, DbView, LibraryRollup, UpdateRow};
use crate::domain::publication::{Category, PublicationView, ReadingUnit};
use crate::domain::source::MangaSummary;
use crate::ids::Uuid;
use crate::order::{
    is_ranking, lemma_lexical_total, lemma_lexical_transitive, lemma_sorted, lemma_sorted_filter, lexical, sorted,
};
use crate::tables::lemma_filter_contains;

verus! {

// ---- finds ----

/// A find is recorded for its publication and its time with the number of its units and the
/// titles of the first and the last of them.
pub proof fn law_finds_are_recorded(publication_id: Uuid, units: Seq<ReadingUnit>, now: Timestamp)
    requires
        0 < units.len() < 0x1_0000_0000,
    ensures
        ({
            let r = update_row(publication_id, units, now);
            &&& r.publication_id == publication_id
            &&& r.unit_count == units.len()
            &&& r.first_title == units[0].title
            &&& r.last_title == units[units.len() - 1].title
            &&& r.created_at == now
        }),
{
}

/// Newer finds are ranked before older ones.
proof fn lemma_finds_rank()
    ensures
        is_ranking(|a: UpdateRow, b: UpdateRow| newer_first(a, b)),
{
}

/// The feed holds the finds after a time whose publications are still there, and no others;
/// newer ones come first.
pub proof fn law_the_feed_holds_what_is_new(db: DbView, since: Timestamp, u: UpdateRow, i: int, j: int)
    ensures
        updates_after(db, since).contains(u) <==> db.updates.contains(u) && sooner(since, u.created_at)
            && publication_there(db.publications, u.publication_id),
        0 <= i < j < updates_after(db, since).len() ==> !sooner(
            updates_after(db, since)[i].created_at,
            updates_after(db, since)[j].created_at,
        ),
{
    let p = |u: UpdateRow| is_shown_update(u, db.publications, since);
    let le = |a: UpdateRow, b: UpdateRow| newer_first(a, b);
    let kept = db.updates.filter(p);
    lemma_finds_rank();
    lemma_filter_contains(db.updates, p);
    lemma_sorted(kept.reverse(), le);
    assert(kept.reverse().contains(u) <==> kept.contains(u)) by {
        if kept.contains(u) {
            let k = choose|k: int| 0 <= k < kept.len() && kept[k] == u;
            assert(kept.reverse()[kept.len() - 1 - k] == u);
        }
        if kept.reverse().contains(u) {
            let k = choose|k: int| 0 <= k < kept.len() && kept.reverse()[k] == u;
            assert(kept[kept.len() - 1 - k] == u);
        }
    }
    assert(publication_there(db.publications, u.publication_id) <==> has_publication(
        db.publications,
        u.publication_id,
    ));
    let s = updates_after(db, since);
    if 0 <= i < j < s.len() {
        assert(le(s[i], s[j]));
    }
}

/// Picking from a reversed sequence is picking, reversed.
proof fn lemma_filter_reverse<T>(s: Seq<T>, p: spec_fn(T) -> bool)
    ensures
        s.reverse().filter(p) == s.filter(p).reverse(),
    decreases s.len(),
{
    if s.len() > 0 {
        let d = s.drop_last();
        lemma_filter_reverse(d, p);
        assert(s =~= d.push(s.last()));
        crate::tables::lemma_filter_push(d, s.last(), p);
        assert(s.reverse() =~= seq![s.last()] + d.reverse());
        lemma_filter_front(d.reverse(), s.last(), p);
        if p(s.last()) {
            assert(d.filter(p).push(s.last()).reverse() =~= seq![s.last()] + d.filter(p).reverse());
        }
    } else {
        reveal(Seq::filter);
        assert(s.reverse().filter(p) =~= s.filter(p).reverse());
    }
}

/// Picking with an item in front.
proof fn lemma_filter_front<T>(s: Seq<T>, x: T, p: spec_fn(T) -> bool)
    ensures
        (seq![x] + s).filter(p) == (if p(x) {
            seq![x] + s.filter(p)
        } else {
            s.filter(p)
        }),
    decreases s.len(),
{
    let t = seq![x] + s;
    if s.len() == 0 {
        reveal(Seq::filter);
        assert(t =~= Seq::empty().push(x));
        assert(t.drop_last() =~= Seq::<T>::empty());
        assert(t.last() == x);
        assert(Seq::<T>::empty().filter(p) =~= Seq::<T>::empty());
        assert(s =~= Seq::<T>::empty());
        assert(t.filter(p) =~= if p(x) {
            seq![x] + s.filter(p)
        } else {
            s.filter(p)
        });
    } else {
        let d = s.drop_last();
        lemma_filter_front(d, x, p);
        assert(t =~= (seq![x] + d).push(s.last()));
        crate::tables::lemma_filter_push(seq![x] + d, s.last(), p);
        assert(s =~= d.push(s.last()));
        crate::tables::lemma_filter_push(d, s.last(), p);
        assert(t.filter(p) =~= if p(x) {
            seq![x] + s.filter(p)
        } else {
            s.filter(p)
        });
    }
}

/// Items that all rank alike keep their order.
proof fn lemma_sorted_alike<T>(s: Seq<T>, le: spec_fn(T, T) -> bool)
    requires
        forall|i: int, j: int| 0 <= i < s.len() && 0 <= j < s.len() ==> le(#[trigger] s[i], #[trigger] s[j]),
    ensures
        sorted(s, le) == s,
    decreases s.len(),
{
    if s.len() > 0 {
        let d = s.drop_last();
        assert forall|i: int, j: int| 0 <= i < d.len() && 0 <= j < d.len() implies le(
            #[trigger] d[i],
            #[trigger] d[j],
        ) by {
            assert(d[i] == s[i] && d[j] == s[j]);
        }
        lemma_sorted_alike(d, le);
        if d.len() > 0 {
            assert(le(s[d.len() - 1], s[s.len() - 1]));
            assert(d.last() == s[d.len() - 1]);
        }
        assert(s =~= d.push(s.last()));
    }
}

/// Of finds with one time, the feed shows the later recorded first.
pub proof fn law_the_feed_shows_the_last_recorded_first(db: DbView, since: Timestamp, t: Timestamp)
    ensures
        updates_after(db, since).filter(|u: UpdateRow| u.created_at == t) == db.updates.filter(
            |u: UpdateRow| is_shown_update(u, db.publications, since),
        ).filter(|u: UpdateRow| u.created_at == t).reverse(),
{
    let p = |u: UpdateRow| is_shown_update(u, db.publications, since);
    let q = |u: UpdateRow| u.created_at == t;
    let le = |a: UpdateRow, b: UpdateRow| newer_first(a, b);
    let kept = db.updates.filter(p);
    lemma_finds_rank();
    lemma_sorted_filter(kept.reverse(), le, q);
    lemma_filter_reverse(kept, q);
    lemma_filter_contains(kept, q);
    let alike = kept.filter(q).reverse();
    assert forall|i: int, j: int| 0 <= i < alike.len() && 0 <= j < alike.len() implies le(
        #[trigger] alike[i],
        #[trigger] alike[j],
    ) by {
        let n = kept.filter(q).len();
        assert(alike[i] == kept.filter(q)[n - 1 - i] && alike[j] == kept.filter(q)[n - 1 - j]);
        assert(kept.filter(q).contains(alike[i]) && kept.filter(q).contains(alike[j]));
        assert(q(alike[i]) && q(alike[j]));
    }
    lemma_sorted_alike(alike, le);
}

/// A limit leaves the first rows, as many as it says, and all of them where there are no more
/// or it is negative.
pub proof fn law_limits_leave_the_first<T>(s: Seq<T>, limit: int, i: int)
    ensures
        limit < 0 ==> limited(s, limit) == s,
        limit >= 0 ==> limited(s, limit).len() == (if limit < s.len() {
            limit
        } else {
            s.len() as int
        }),
        0 <= i < limited(s, limit).len() ==> limited(s, limit)[i] == s[i],
{
}

/// A find is shown as it was recorded, under the title of its publication.
pub proof fn law_finds_are_shown_under_their_title(u: UpdateRow, publications: Seq<PublicationView>, k: int)
    requires
        crate::db::publications_distinct(publications),
        0 <= k < publications.len(),
        publications[k].id == u.publication_id,
    ensures
        ({
            let e = shown_update(u, publications);
            &&& e.publication_title == publications[k].title
            &&& e.publication_id == u.publication_id
            &&& e.unit_count == u.unit_count
            &&& e.first_title == u.first_title
            &&& e.last_title == u.last_title
            &&& e.created_at == u.created_at
        }),
{
    let i = choose|i: int| 0 <= i < publications.len() && (#[trigger] publications[i]).id == u.publication_id;
    assert(i == k);
}

// ---- categories ----

/// The categories are shown by position, those with one position by identifier, all of them
/// and no others.
pub proof fn law_categories_are_shown_by_position(s: Seq<Category>, c: Category, i: int, j: int)
    ensures
        category_order(s).contains(c) <==> s.contains(c),
        0 <= i < j < category_order(s).len() ==> {
            let a = category_order(s)[i];
            let b = category_order(s)[j];
            a.position < b.position || (a.position == b.position && lexical(a.id@, b.id@))
        },
{
    let le = |a: Category, b: Category| category_le(a, b);
    assert(is_ranking(le)) by {
        assert forall|a: Category, b: Category| #[trigger] le(a, b) || le(b, a) by {
            lemma_lexical_total(a.id@, b.id@);
        }
        assert forall|a: Category, b: Category, c: Category| #[trigger] le(a, b) && #[trigger] le(b, c) implies le(
            a,
            c,
        ) by {
            if a.position == b.position && b.position == c.position {
                lemma_lexical_transitive(a.id@, b.id@, c.id@);
            }
        }
    }
    lemma_sorted(s, le);
    if 0 <= i < j < category_order(s).len() {
        assert(le(category_order(s)[i], category_order(s)[j]));
    }
}

/// Switching a category's updates changes that alone, and of that category alone.
pub proof fn law_switching_touches_one_category(c: Category, id: Seq<char>, update_enabled: bool)
    ensures
        ({
            let d = switched(c, id, update_enabled);
            &&& d.id == c.id && d.name == c.name && d.position == c.position
            &&& c.id@ == id ==> d.update_enabled == update_enabled
            &&& c.id@ != id ==> d.update_enabled == c.update_enabled
        }),
{
}

// ---- catalog ----

/// Titles seen in a listing are in the catalog as the listing shows them: the last of them
/// under a key tells its title and its cover, and that it was seen now.
pub proof fn law_seen_titles_are_recorded(
    catalog: Seq<CatalogEntry>,
    source_id: String,
    items: Seq<MangaSummary>,
    now: Timestamp,
    k: int,
)
    requires
        0 <= k < items.len(),
        forall|j: int| k < j < items.len() ==> (#[trigger] items[j]).key@ != items[k].key@,
    ensures
        exists|n: int|
            {
                let e = all_recorded(catalog, source_id, items, now)[n];
                &&& 0 <= n < all_recorded(catalog, source_id, items, now).len()
                &&& (#[trigger] all_recorded(catalog, source_id, items, now)[n]).source_id@ == source_id@
                &&& e.key@ == items[k].key@
            },
        forall|n: int|
            {
                let e = all_recorded(catalog, source_id, items, now)[n];
                0 <= n < all_recorded(catalog, source_id, items, now).len() && (#[trigger] all_recorded(
                    catalog,
                    source_id,
                    items,
                    now,
                )[n]).source_id@ == source_id@ && e.key@ == items[k].key@ ==> e.title == items[k].title
                    && e.cover_url == items[k].cover_url && e.last_seen_at == now
            },
    decreases items.len(),
{
    let d = items.drop_last();
    let x = items.last();
    let before = all_recorded(catalog, source_id, d, now);
    let out = all_recorded(catalog, source_id, items, now);
    assert(out == recorded(before, source_id, x, now));
    if k < d.len() {
        assert(items[items.len() - 1] == x);
        assert(d[k] == items[k]);
        assert forall|j: int| k < j < d.len() implies (#[trigger] d[j]).key@ != d[k].key@ by {
            assert(d[j] == items[j]);
        }
        law_seen_titles_are_recorded(catalog, source_id, d, now, k);
        let n = choose|n: int|
            0 <= n < before.len() && (#[trigger] before[n]).source_id@ == source_id@ && before[n].key@
                == items[k].key@;
        assert(out[n].source_id@ == source_id@ && out[n].key@ == items[k].key@);
        assert forall|n: int|
            0 <= n < out.len() && (#[trigger] out[n]).source_id@ == source_id@ && out[n].key@
                == items[k].key@ implies out[n].title == items[k].title && out[n].cover_url
            == items[k].cover_url && out[n].last_seen_at == now by {
            if n < before.len() {
                assert(before[n] == out[n]);
            }
        }
    } else {
        if has_entry(before, source_id@, x.key@) {
            let n = choose|n: int| 0 <= n < before.len() && is_entry(#[trigger] before[n], source_id@, x.key@);
            assert(out[n] == seen(before[n], x, now));
            assert(out[n].source_id@ == source_id@);
        } else {
            assert(out[before.len() as int].source_id@ == source_id@);
        }
        assert forall|n: int|
            0 <= n < out.len() && (#[trigger] out[n]).source_id@ == source_id@ && out[n].key@
                == items[k].key@ implies out[n].title == items[k].title && out[n].cover_url
            == items[k].cover_url && out[n].last_seen_at == now by {
            if n < before.len() {
                assert(is_entry(before[n], source_id@, x.key@));
            }
        }
    }
}

/// Recording a listing leaves every entry of another source, and every entry whose key is not
/// listed, as it was, and takes none away.
pub proof fn law_recording_leaves_other_entries(
    catalog: Seq<CatalogEntry>,
    source_id: String,
    items: Seq<MangaSummary>,
    now: Timestamp,
    n: int,
)
    requires
        0 <= n < catalog.len(),
    ensures
        n < all_recorded(catalog, source_id, items, now).len(),
        all_recorded(catalog, source_id, items, now)[n].source_id == catalog[n].source_id,
        all_recorded(catalog, source_id, items, now)[n].key == catalog[n].key,
        catalog[n].source_id@ != source_id@ || (forall|j: int|
            0 <= j < items.len() ==> (#[trigger] items[j]).key@ != catalog[n].key@) ==> all_recorded(
            catalog,
            source_id,
            items,
            now,
        )[n] == catalog[n],
    decreases items.len(),
{
    if items.len() > 0 {
        let d = items.drop_last();
        law_recording_leaves_other_entries(catalog, source_id, d, now, n);
        assert(items[items.len() - 1] == items.last());
        if forall|j: int| 0 <= j < items.len() ==> (#[trigger] items[j]).key@ != catalog[n].key@ {
            assert forall|j: int| 0 <= j < d.len() implies (#[trigger] d[j]).key@ != catalog[n].key@ by {
                assert(d[j] == items[j]);
            }
        }
    }
}

/// A listing page that was written is found as it was written, and every other page stays.
pub proof fn law_written_pages_stand_alone(
    pages: Seq<CatalogPageView>,
    p: CatalogPageView,
    source_id: Seq<char>,
    sort: Seq<char>,
    page: u32,
)
    ensures
        page_of(written(pages, p), source_id, sort, page) == (if source_id == p.source_id && sort == p.sort
            && page == p.page {
            Some(p)
        } else {
            page_of(pages, source_id, sort, page)
        }),
{
    if source_id == p.source_id && sort == p.sort && page == p.page {
        crate::db::catalog::law_written_page_is_found(pages, p);
    } else {
        if page_of(pages, p.source_id, p.sort, p.page) is None {
            assert(pages.push(p).drop_last() =~= pages);
            assert(pages.push(p).last() == p);
            assert(!is_page(p, source_id, sort, page));
            assert(page_of(pages.push(p), source_id, sort, page) == page_of(pages, source_id, sort, page));
        } else {
            lemma_other_page(pages, written(pages, p), p, source_id, sort, page);
        }
    }
}

/// Replacing one page leaves the others to be found.
proof fn lemma_other_page(
    pages: Seq<CatalogPageView>,
    out: Seq<CatalogPageView>,
    p: CatalogPageView,
    source_id: Seq<char>,
    sort: Seq<char>,
    page: u32,
)
    requires
        source_id != p.source_id || sort != p.sort || page != p.page,
        out.len() == pages.len(),
        forall|i: int|
            0 <= i < pages.len() ==> #[trigger] out[i] == (if is_page(pages[i], p.source_id, p.sort, p.page) {
                p
            } else {
                pages[i]
            }),
    ensures
        page_of(out, source_id, sort, page) == page_of(pages, source_id, sort, page),
    decreases pages.len(),
{
    if pages.len() > 0 {
        assert forall|i: int| 0 <= i < pages.drop_last().len() implies #[trigger] out.drop_last()[i] == (
        if is_page(pages.drop_last()[i], p.source_id, p.sort, p.page) {
            p
        } else {
            pages.drop_last()[i]
        }) by {
            assert(out.drop_last()[i] == out[i] && pages.drop_last()[i] == pages[i]);
        }
        lemma_other_page(pages.drop_last(), out.drop_last(), p, source_id, sort, page);
        assert(out[out.len() - 1] == out.last());
    }
}

/// A page that is found is one of the stored ones, under the source, order and number asked
/// for.
pub proof fn law_found_pages_are_those_asked_for(
    pages: Seq<CatalogPageView>,
    source_id: Seq<char>,
    sort: Seq<char>,
    page: u32,
)
    ensures
        match page_of(pages, source_id, sort, page) {
            Some(p) => pages.contains(p) && p.source_id == source_id && p.sort == sort && p.page == page,
            None => forall|i: int|
                0 <= i < pages.len() ==> (#[trigger] pages[i]).source_id != source_id || pages[i].sort
                    != sort || pages[i].page != page,
        },
    decreases pages.len(),
{
    if pages.len() > 0 {
        let d = pages.drop_last();
        law_found_pages_are_those_asked_for(d, source_id, sort, page);
        assert(pages[pages.len() - 1] == pages.last());
        if page_of(d, source_id, sort, page) is Some {
            let i = choose|i: int| 0 <= i < d.len() && d[i] == page_of(d, source_id, sort, page)->0;
            assert(pages[i] == d[i]);
        } else {
            assert forall|i: int| 0 <= i < d.len() implies (#[trigger] pages[i]).source_id != source_id
                || pages[i].sort != sort || pages[i].page != page by {
                assert(d[i] == pages[i]);
            }
        }
    }
}

/// A cover belongs to a source exactly where an entry of the catalog shows it.
pub proof fn law_covers_belong_to_their_source(catalog: Seq<CatalogEntry>, cover_url: Seq<char>)
    ensures
        match source_of_cover(catalog, cover_url) {
            Some(s) => exists|i: int|
                0 <= i < catalog.len() && (#[trigger] catalog[i]).source_id == s
                    && catalog[i].cover_url is Some && catalog[i].cover_url->0@ == cover_url,
            None => forall|i: int|
                0 <= i < catalog.len() && (#[trigger] catalog[i]).cover_url is Some
                    ==> catalog[i].cover_url->0@ != cover_url,
        },
    decreases catalog.len(),
{
    if catalog.len() > 0 {
        let d = catalog.drop_last();
        law_covers_belong_to_their_source(d, cover_url);
        assert(catalog[catalog.len() - 1] == catalog.last());
        if source_of_cover(d, cover_url) is Some {
            let i = choose|i: int|
                0 <= i < d.len() && (#[trigger] d[i]).source_id == source_of_cover(d, cover_url)->0
                    && d[i].cover_url is Some && d[i].cover_url->0@ == cover_url;
            assert(catalog[i] == d[i]);
        } else {
            assert forall|i: int|
                0 <= i < d.len() && (#[trigger] catalog[i]).cover_url is Some implies catalog[i].cover_url->0@
                != cover_url by {
                assert(d[i] == catalog[i]);
            }
        }
    }
}

/// A title of a listing is shown under its key as its entry has it.
pub proof fn law_listed_titles_are_those_of_their_entries(
    catalog: Seq<CatalogEntry>,
    source_id: Seq<char>,
    keys: Seq<String>,
    n: int,
)
    requires
        0 <= n < titles_of(catalog, source_id, keys).len(),
    ensures
        ({
            let m = titles_of(catalog, source_id, keys)[n];
            &&& m.in_library is None
            &&& keys.contains(m.key)
            &&& exists|i: int|
                0 <= i < catalog.len() && (#[trigger] catalog[i]).source_id@ == source_id
                    && catalog[i].key@ == m.key@ && catalog[i].title == m.title && catalog[i].cover_url
                    == m.cover_url
        }),
    decreases keys.len(),
{
    let d = keys.drop_last();
    let before = titles_of(catalog, source_id, d);
    let m = titles_of(catalog, source_id, keys)[n];
    assert(keys[keys.len() - 1] == keys.last());
    if n < before.len() {
        law_listed_titles_are_those_of_their_entries(catalog, source_id, d, n);
        let k = choose|k: int| 0 <= k < d.len() && d[k] == m.key;
        assert(keys[k] == m.key);
    } else {
        lemma_entry_of(catalog, source_id, keys.last()@);
        assert(keys.contains(keys.last()));
    }
}

/// An entry that is found is one of the catalog's.
proof fn lemma_entry_of(catalog: Seq<CatalogEntry>, source_id: Seq<char>, key: Seq<char>)
    ensures
        entry_of(catalog, source_id, key) matches Some(e) ==> exists|i: int|
            0 <= i < catalog.len() && #[trigger] catalog[i] == e && e.source_id@ == source_id && e.key@ == key,
    decreases catalog.len(),
{
    if catalog.len() > 0 {
        let d = catalog.drop_last();
        lemma_entry_of(d, source_id, key);
        assert(catalog[catalog.len() - 1] == catalog.last());
        if entry_of(d, source_id, key) is Some {
            let i = choose|i: int| 0 <= i < d.len() && #[trigger] d[i] == entry_of(d, source_id, key)->0;
            assert(catalog[i] == d[i]);
        }
    }
}

// ---- overview ----

/// The overview has the sums of every publication that has units, and of no other.
pub proof fn law_the_overview_has_all_sums(
    db: DbView,
    reader: Option<Uuid>,
    s: Seq<PublicationView>,
    x: (Uuid, LibraryRollup),
)
    ensures
        rollups(db, reader, s).contains(x) <==> exists|k: int|
            0 <= k < s.len() && (#[trigger] s[k]).id == x.0 && x.1 == rollup_of(db, reader, x.0) && exists|
                i: int,
            |
                0 <= i < db.units.len() && (#[trigger] db.units[i]).publication_id == x.0,
    decreases s.len(),
{
    if s.len() > 0 {
        let d = s.drop_last();
        law_the_overview_has_all_sums(db, reader, d, x);
        let before = rollups(db, reader, d);
        let all = rollups(db, reader, s);
        assert(s[s.len() - 1] == s.last());
        assert(all.contains(x) <==> before.contains(x) || (has_units(db.units, s.last().id) && x == (
            s.last().id,
            rollup_of(db, reader, s.last().id),
        ))) by {
            if before.contains(x) {
                let n = choose|n: int| 0 <= n < before.len() && before[n] == x;
                assert(all[n] == x);
            }
            if has_units(db.units, s.last().id) {
                assert(all[before.len() as int] == (s.last().id, rollup_of(db, reader, s.last().id)));
            }
            if all.contains(x) {
                let n = choose|n: int| 0 <= n < all.len() && all[n] == x;
                if n < before.len() {
                    assert(before[n] == x);
                }
            }
        }
        let sums = x.1 == rollup_of(db, reader, x.0) && has_units(db.units, x.0);
        if sums && exists|k: int| 0 <= k < s.len() && (#[trigger] s[k]).id == x.0 {
            let k = choose|k: int| 0 <= k < s.len() && (#[trigger] s[k]).id == x.0;
            if k < d.len() {
                assert(d[k].id == x.0);
            }
        }
        if before.contains(x) {
            let k = choose|k: int| 0 <= k < d.len() && (#[trigger] d[k]).id == x.0;
            assert(s[k] == d[k]);
        }
    }
}

/// A title is told for every publication that is asked for and there, and for no other.
pub proof fn law_titles_are_told(s: Seq<PublicationView>, ids: Seq<Uuid>, x: (Uuid, String))
    requires
        crate::db::publications_distinct(s),
    ensures
        titles(s, ids).contains(x) <==> ids.contains(x.0) && exists|k: int|
            0 <= k < s.len() && (#[trigger] s[k]).id == x.0 && s[k].title == x.1,
    decreases ids.len(),
{
    if ids.len() > 0 {
        let d = ids.drop_last();
        let id = ids.last();
        law_titles_are_told(s, d, x);
        let before = titles(s, d);
        let all = titles(s, ids);
        assert(ids[ids.len() - 1] == id);
        assert(ids.contains(x.0) <==> d.contains(x.0) || x.0 == id) by {
            if d.contains(x.0) {
                let n = choose|n: int| 0 <= n < d.len() && d[n] == x.0;
                assert(ids[n] == x.0);
            }
            if ids.contains(x.0) {
                let n = choose|n: int| 0 <= n < ids.len() && ids[n] == x.0;
                if n < d.len() {
                    assert(d[n] == x.0);
                }
            }
        }
        assert(all.contains(x) <==> before.contains(x) || (has_publication(s, id) && x == (
            id,
            publication_of(s, id).title,
        ))) by {
            if before.contains(x) {
                let n = choose|n: int| 0 <= n < before.len() && before[n] == x;
                assert(all[n] == x);
            }
            if has_publication(s, id) {
                assert(all[before.len() as int] == (id, publication_of(s, id).title));
            }
            if all.contains(x) {
                let n = choose|n: int| 0 <= n < all.len() && all[n] == x;
                if n < before.len() {
                    assert(before[n] == x);
                }
            }
        }
        if has_publication(s, id) {
            let p = choose|p: int| 0 <= p < s.len() && (#[trigger] s[p]).id == id;
            assert(publication_of(s, id) == s[p]);
            if exists|k: int| 0 <= k < s.len() && (#[trigger] s[k]).id == id && s[k].title == x.1 {
                let k = choose|k: int| 0 <= k < s.len() && (#[trigger] s[k]).id == id && s[k].title == x.1;
                assert(k == p);
            }
        }
    }
}

}
