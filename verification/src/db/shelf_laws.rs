//! What holds of the shelf's lists.

use vstd::prelude::*;

use crate::db::listing::{reading_le, units_of};
use crate::clock::Timestamp;
use crate::db::backup_laws::{lemma_distinct_genres, lemma_genre_order};
use crate::db::plain::{has_read, no_text_twice, one_reads, publication_there, same_texts};
use crate::db::publications::{
    bare, category_updated, checked_shelf, insert_outcome, key_moved, key_refused, keys_of, local_shelf, moved_origin,
    origin_taken, publication_of, shelf_order, shown, title_le, without_publication,
};
use crate::db::unit_laws::{first_of_key, lemma_entry_made};
use crate::db::units::{fresh_units, has_key, unit_from};
use crate::db::{has_publication, has_unit, same_origin, DbView, JournalEntry, ReadMark};
use crate::domain::publication::{Origin, Publication, PublicationView, ReadingUnit};
use crate::domain::source::{ChapterRef, MangaDetails};
use crate::ids::Uuid;
use crate::order::{is_ranking, lexical, lemma_lexical_total, lemma_lexical_transitive, lemma_sorted};
use crate::tables::lemma_filter_contains;
use crate::text::ascii_small;

verus! {

/// A unit is read before another: it has the smaller number; or it has a number and the
/// other has none; or neither tells them apart, and it stands further down in the listing.
pub open spec fn read_sooner(a: ReadingUnit, b: ReadingUnit) -> bool {
    if a.number is Some && b.number is Some {
        a.number->0.rank < b.number->0.rank || (a.number->0.rank == b.number->0.rank && a.source_order
            > b.source_order)
    } else if a.number is None && b.number is None {
        a.source_order > b.source_order
    } else {
        a.number is Some
    }
}

/// A publication's units are listed in reading order, all of them and nothing else:
/// numbered ones by number, then those without one, and from the bottom of the source's
/// listing up where that does not tell them apart.
pub proof fn law_units_are_listed_in_reading_order(units: Seq<ReadingUnit>, publication_id: Uuid)
    ensures
        forall|i: int, j: int|
            0 <= i < j < units_of(units, publication_id).len() ==> reading_le(
                #[trigger] units_of(units, publication_id)[i],
                #[trigger] units_of(units, publication_id)[j],
            ),
        forall|u: ReadingUnit|
            #[trigger] units_of(units, publication_id).contains(u) <==> units.contains(u) && u.publication_id
                == publication_id,
        forall|i: int, j: int|
            0 <= i < j < units_of(units, publication_id).len() ==> !read_sooner(
                #[trigger] units_of(units, publication_id)[j],
                #[trigger] units_of(units, publication_id)[i],
            ),
{
    let le = |a: ReadingUnit, b: ReadingUnit| reading_le(a, b);
    let p = |u: ReadingUnit| u.publication_id == publication_id;
    lemma_sorted(units.filter(p), le);
    lemma_filter_contains(units, p);
}

/// Titles are ranked by the dictionary, without regard to case.
pub(crate) proof fn lemma_titles_rank()
    ensures
        is_ranking(|a: PublicationView, b: PublicationView| title_le(a, b)),
{
    assert forall|a: PublicationView, b: PublicationView| #[trigger] title_le(a, b) || title_le(b, a) by {
        lemma_lexical_total(ascii_small(a.title@), ascii_small(b.title@));
    }
    assert forall|a: PublicationView, b: PublicationView, c: PublicationView|
        #[trigger] title_le(a, b) && #[trigger] title_le(b, c) implies title_le(a, c) by {
        lemma_lexical_transitive(ascii_small(a.title@), ascii_small(b.title@), ascii_small(c.title@));
    }
}

/// The shelf is ordered by title without regard to case, and holds what was put on it.
pub proof fn law_the_shelf_is_ordered_by_title(s: Seq<PublicationView>)
    ensures
        forall|i: int, j: int|
            0 <= i < j < shelf_order(s).len() ==> title_le(
                #[trigger] shelf_order(s)[i],
                #[trigger] shelf_order(s)[j],
            ),
        shelf_order(s).to_multiset() == s.to_multiset(),
        forall|i: int, j: int|
            0 <= i < j < shelf_order(s).len() ==> lexical(
                ascii_small((#[trigger] shelf_order(s)[i]).title@),
                ascii_small((#[trigger] shelf_order(s)[j]).title@),
            ),
{
    lemma_titles_rank();
    lemma_sorted(s, |a: PublicationView, b: PublicationView| title_le(a, b));
}

/// A publication as it stands in a list that leaves genres out.
pub open spec fn listed_without_genres(p: PublicationView, row: PublicationView) -> bool {
    p == PublicationView { genres: Seq::empty(), ..row }
}

/// The periodic check looks only at titles of sources in categories that are updated,
/// and at all of those.
pub proof fn law_only_chosen_categories_are_checked(db: DbView, p: PublicationView)
    ensures
        checked_shelf(db).contains(p) <==> exists|k: int|
            0 <= k < db.publications.len() && category_updated(
                db.categories,
                (#[trigger] db.publications[k]).category@,
            ) && !(db.publications[k].origin is LocalFile) && p == bare(db.publications[k]),
        checked_shelf(db).contains(p) <==> exists|k: int, c: int|
            0 <= k < db.publications.len() && 0 <= c < db.categories.len() && (
            #[trigger] db.publications[k]).origin is Source && (#[trigger] db.categories[c]).id@
                == db.publications[k].category@ && db.categories[c].update_enabled && listed_without_genres(
                p,
                db.publications[k],
            ),
{
    assert forall|k: int| 0 <= k < db.publications.len() implies (category_updated(
        db.categories,
        (#[trigger] db.publications[k]).category@,
    ) <==> exists|c: int|
        0 <= c < db.categories.len() && (#[trigger] db.categories[c]).id@ == db.publications[k].category@
            && db.categories[c].update_enabled) by {}
    let due = |q: PublicationView|
        category_updated(db.categories, q.category@) && !(q.origin is LocalFile);
    let rows = db.publications.filter(due);
    let f = |q: PublicationView| bare(q);
    lemma_titles_rank();
    lemma_sorted(rows.map_values(f), |a: PublicationView, b: PublicationView| title_le(a, b));
    lemma_filter_contains(db.publications, due);
    if rows.map_values(f).contains(p) {
        let n = choose|n: int| 0 <= n < rows.len() && rows.map_values(f)[n] == p;
        assert(rows.contains(rows[n]));
        assert(db.publications.contains(rows[n]));
        let k = choose|k: int| 0 <= k < db.publications.len() && db.publications[k] == rows[n];
        assert(due(db.publications[k]));
    }
    assert forall|k: int|
        0 <= k < db.publications.len() && due(#[trigger] db.publications[k]) && p == bare(
            db.publications[k],
        ) implies rows.map_values(f).contains(p) by {
        assert(db.publications.contains(db.publications[k]));
        assert(rows.contains(db.publications[k]));
        let n = choose|n: int| 0 <= n < rows.len() && rows[n] == db.publications[k];
        assert(rows.map_values(f)[n] == p);
    }
}

/// The list of local files holds the publications that are files, and no others.
pub proof fn law_local_files_are_listed(db: DbView, p: PublicationView)
    ensures
        local_shelf(db).contains(p) <==> exists|k: int|
            0 <= k < db.publications.len() && (#[trigger] db.publications[k]).origin is LocalFile
                && listed_without_genres(p, db.publications[k]),
{
    let local = |q: PublicationView| q.origin is LocalFile;
    let rows = db.publications.filter(local);
    let f = |q: PublicationView| bare(q);
    lemma_titles_rank();
    lemma_sorted(rows.map_values(f), |a: PublicationView, b: PublicationView| title_le(a, b));
    lemma_filter_contains(db.publications, local);
    if rows.map_values(f).contains(p) {
        let n = choose|n: int| 0 <= n < rows.len() && rows.map_values(f)[n] == p;
        assert(rows.contains(rows[n]));
        assert(db.publications.contains(rows[n]));
        let k = choose|k: int| 0 <= k < db.publications.len() && db.publications[k] == rows[n];
        assert(local(db.publications[k]));
    }
    assert forall|k: int|
        0 <= k < db.publications.len() && local(#[trigger] db.publications[k]) && p == bare(
            db.publications[k],
        ) implies rows.map_values(f).contains(p) by {
        assert(db.publications.contains(db.publications[k]));
        assert(rows.contains(db.publications[k]));
        let n = choose|n: int| 0 <= n < rows.len() && rows[n] == db.publications[k];
        assert(rows.map_values(f)[n] == p);
    }
}

/// A publication that was added stands on the shelf as its source told of it: under the
/// identifier at hand, with the title, description, cover and genres of the details, in the
/// first category, added now, never checked and not missing. Its origin was nobody's before.
pub proof fn law_added_publications_are_as_told(
    before: DbView,
    origin: Origin,
    details: MangaDetails,
    auto_download: bool,
    id: Uuid,
    ids: Seq<Uuid>,
    now: Timestamp,
    refusal: Seq<char>,
    after: DbView,
    given: Publication,
)
    requires
        insert_outcome(before, origin, details, auto_download, id, ids, now, refusal, after, Ok(given)),
    ensures
        after.publications.len() == before.publications.len() + 1,
        forall|i: int| 0 <= i < before.publications.len() ==> after.publications[i] == #[trigger] before.publications[i],
        ({
            let p = after.publications[before.publications.len() as int];
            &&& p.id == id && given.id == id
            &&& p.kind is Comics
            &&& p.title == details.summary.title && given.title == p.title
            &&& p.description == details.description && given.description == p.description
            &&& p.cover_url == details.summary.cover_url && given.cover_url == p.cover_url
            &&& p.auto_download == auto_download && given.auto_download == auto_download
            &&& p.category@ == "reading"@ && given.category == p.category
            &&& p.added_at == now && given.added_at == now
            &&& p.last_checked_at is None && p.missing_since is None
            &&& same_texts(p.genres, details.genres@) && no_text_twice(p.genres)
            &&& same_texts(given.genres@, details.genres@)
            &&& match (origin, p.origin) {
                (
                    Origin::Source { source_id: a, source_key: b },
                    Origin::Source { source_id: c, source_key: d },
                ) => a@ == c@ && b@ == d@,
                (Origin::LocalFile { path: a }, Origin::LocalFile { path: b }) => a@ == b@,
                _ => false,
            }
        }),
        !publication_there(before.publications, id),
        forall|i: int|
            0 <= i < before.publications.len() ==> match (origin, (#[trigger] before.publications[i]).origin) {
                (
                    Origin::Source { source_id: a, source_key: b },
                    Origin::Source { source_id: c, source_key: d },
                ) => a@ != c@ || b@ != d@,
                (Origin::LocalFile { path: a }, Origin::LocalFile { path: b }) => a@ != b@,
                _ => true,
            },
{
    let p = after.publications.last();
    lemma_distinct_genres(details.genres@);
    lemma_genre_order(p.genres);
    assert(given@ == shown(p));
    assert forall|t: Seq<char>| #[trigger] one_reads(given.genres@, t) <==> one_reads(details.genres@, t) by {
        assert(one_reads(p.genres, t) <==> one_reads(details.genres@, t));
        assert(one_reads(given.genres@, t) <==> one_reads(p.genres, t));
    }
    if publication_there(before.publications, id) {
        assert(has_publication(before.publications, id));
    }
    assert forall|i: int| 0 <= i < before.publications.len() implies match (
        origin,
        (#[trigger] before.publications[i]).origin,
    ) {
        (
            Origin::Source { source_id: a, source_key: b },
            Origin::Source { source_id: c, source_key: d },
        ) => a@ != c@ || b@ != d@,
        (Origin::LocalFile { path: a }, Origin::LocalFile { path: b }) => a@ != b@,
        _ => true,
    } by {
        assert(before.publications[i].id != id);
        assert(!same_origin(before.publications[i].origin, origin));
    }
}

/// A publication that was added has a unit for every chapter that it was told with, a
/// repeated key taken once, and no others: each under the identifier at hand for it, as its
/// chapter says, first seen now, not downloaded and unread. All other units stay.
pub proof fn law_added_publications_have_their_chapters(
    before: DbView,
    origin: Origin,
    details: MangaDetails,
    auto_download: bool,
    id: Uuid,
    ids: Seq<Uuid>,
    now: Timestamp,
    refusal: Seq<char>,
    after: DbView,
    given: Publication,
    k: int,
    n: int,
)
    requires
        before.wf(),
        insert_outcome(before, origin, details, auto_download, id, ids, now, refusal, after, Ok(given)),
        first_of_key(details.chapters@, k),
        0 <= n < after.units.len(),
    ensures
        exists|v: ReadingUnit|
            {
                &&& #[trigger] after.units.contains(v)
                &&& v.id == ids[k]
                &&& v.publication_id == id
                &&& v.source_key == details.chapters@[k].key
                &&& v.title == details.chapters@[k].title
                &&& v.number == details.chapters@[k].number
                &&& v.source_order == details.chapters@[k].source_order
                &&& v.scanlator == details.chapters@[k].scanlator
                &&& v.published_at == details.chapters@[k].published_at
                &&& v.fetched_at == now
                &&& v.download is Absent
                &&& v.page_count is None
                &&& !v.read
            },
        n < before.units.len() ==> after.units[n] == before.units[n],
        n >= before.units.len() ==> after.units[n].publication_id == id && exists|m: int|
            0 <= m < details.chapters@.len() && after.units[n].id == ids[m]
                && (#[trigger] details.chapters@[m]).key@ == after.units[n].source_key@,
        after.marks == before.marks,
        after.journal == before.journal,
{
    let chapters = details.chapters@;
    let fresh = fresh_units(before.units, id, chapters, ids, now);
    assert(!has_key(before.units, id, chapters[k].key@)) by {
        if has_key(before.units, id, chapters[k].key@) {
            let i = choose|i: int|
                0 <= i < before.units.len() && (#[trigger] before.units[i]).publication_id == id
                    && before.units[i].source_key@ == chapters[k].key@;
            assert(has_publication(before.publications, before.units[i].publication_id));
        }
    }
    lemma_entry_made(before.units, id, chapters, ids, now, k);
    let v = unit_from(chapters[k], ids[k], id, now);
    let at = choose|at: int| 0 <= at < fresh.len() && fresh[at] == v;
    assert(after.units[before.units.len() + at] == v);
    assert(after.units.contains(v));
    if n >= before.units.len() {
        lemma_made_of(before.units, id, chapters, ids, now, n - before.units.len());
        assert(after.units[n] == fresh[n - before.units.len()]);
    }
}

/// A new unit is made from an entry of the listing.
proof fn lemma_made_of(
    known: Seq<ReadingUnit>,
    id: Uuid,
    listing: Seq<ChapterRef>,
    ids: Seq<Uuid>,
    now: Timestamp,
    at: int,
)
    requires
        0 <= at < fresh_units(known, id, listing, ids, now).len(),
    ensures
        ({
            let u = fresh_units(known, id, listing, ids, now)[at];
            u.publication_id == id && exists|m: int|
                0 <= m < listing.len() && u.id == ids[m] && (#[trigger] listing[m]).key@ == u.source_key@
        }),
    decreases listing.len(),
{
    let d = listing.drop_last();
    let before = fresh_units(known, id, d, ids, now);
    let u = fresh_units(known, id, listing, ids, now)[at];
    if at < before.len() {
        lemma_made_of(known, id, d, ids, now, at);
        let m = choose|m: int| 0 <= m < d.len() && u.id == ids[m] && (#[trigger] d[m]).key@ == u.source_key@;
        assert(listing[m] == d[m]);
    } else {
        assert(listing[listing.len() - 1].key@ == u.source_key@);
    }
}

/// Deleting a publication takes it away with its units, the marks on them and its journal,
/// and leaves everything else.
pub proof fn law_deleting_takes_all_that_hangs_on_it(db: DbView, id: Uuid)
    requires
        db.wf(),
    ensures
        ({
            let after = without_publication(db, id);
            &&& forall|p: PublicationView|
                #[trigger] after.publications.contains(p) <==> db.publications.contains(p) && p.id != id
            &&& forall|u: ReadingUnit|
                #[trigger] after.units.contains(u) <==> db.units.contains(u) && u.publication_id != id
            &&& forall|who: Uuid, unit_id: Uuid|
                #[trigger] has_read(after.marks, who, unit_id) <==> has_read(db.marks, who, unit_id) && exists|
                    k: int,
                |
                    0 <= k < db.units.len() && (#[trigger] db.units[k]).id == unit_id
                        && db.units[k].publication_id != id
            &&& forall|e: JournalEntry|
                #[trigger] after.journal.contains(e) <==> db.journal.contains(e) && e.event.publication_id
                    != id
            &&& after.categories == db.categories && after.users == db.users && after.sessions
                == db.sessions && after.identities == db.identities && after.updates == db.updates
            &&& after.next_seq == db.next_seq
        }),
{
    let after = without_publication(db, id);
    let of_others = |u: ReadingUnit| u.publication_id != id;
    let rest = db.units.filter(of_others);
    let kept = |m: ReadMark| has_unit(rest, m.unit_id);
    lemma_filter_contains(db.publications, |p: PublicationView| p.id != id);
    lemma_filter_contains(db.units, of_others);
    lemma_filter_contains(db.marks, kept);
    lemma_filter_contains(db.journal, |e: JournalEntry| e.event.publication_id != id);
    assert forall|p: PublicationView| #[trigger] after.publications.contains(p) <==> db.publications.contains(
        p,
    ) && p.id != id by {}
    assert forall|u: ReadingUnit| #[trigger] after.units.contains(u) <==> db.units.contains(u)
        && u.publication_id != id by {}
    assert forall|e: JournalEntry| #[trigger] after.journal.contains(e) <==> db.journal.contains(e)
        && e.event.publication_id != id by {}
    assert forall|unit_id: Uuid| #[trigger] has_unit(rest, unit_id) <==> exists|k: int|
        0 <= k < db.units.len() && (#[trigger] db.units[k]).id == unit_id && db.units[k].publication_id
            != id by {
        if has_unit(rest, unit_id) {
            let j = choose|j: int| 0 <= j < rest.len() && (#[trigger] rest[j]).id == unit_id;
            assert(rest.contains(rest[j]));
            assert(db.units.contains(rest[j]));
            let k = choose|k: int| 0 <= k < db.units.len() && db.units[k] == rest[j];
            assert(db.units[k].id == unit_id && of_others(rest[j]));
        }
        if exists|k: int|
            0 <= k < db.units.len() && (#[trigger] db.units[k]).id == unit_id && db.units[k].publication_id
                != id {
            let k = choose|k: int|
                0 <= k < db.units.len() && (#[trigger] db.units[k]).id == unit_id
                    && db.units[k].publication_id != id;
            assert(db.units.contains(db.units[k]));
            assert(rest.contains(db.units[k]));
            let j = choose|j: int| 0 <= j < rest.len() && rest[j] == db.units[k];
            assert(rest[j].id == unit_id);
        }
    }
    assert forall|who: Uuid, unit_id: Uuid|
        #[trigger] has_read(after.marks, who, unit_id) <==> has_read(db.marks, who, unit_id) && has_unit(
            rest,
            unit_id,
        ) by {
        if has_read(after.marks, who, unit_id) {
            let j = choose|j: int|
                0 <= j < after.marks.len() && (#[trigger] after.marks[j]).user_id == who
                    && after.marks[j].unit_id == unit_id;
            assert(after.marks.contains(after.marks[j]));
            assert(db.marks.contains(after.marks[j]));
            let k = choose|k: int| 0 <= k < db.marks.len() && db.marks[k] == after.marks[j];
            assert(db.marks[k].user_id == who);
            assert(kept(after.marks[j]));
        }
        if has_read(db.marks, who, unit_id) && has_unit(rest, unit_id) {
            let k = choose|k: int|
                0 <= k < db.marks.len() && (#[trigger] db.marks[k]).user_id == who && db.marks[k].unit_id
                    == unit_id;
            assert(db.marks.contains(db.marks[k]));
            assert(after.marks.contains(db.marks[k]));
            let j = choose|j: int| 0 <= j < after.marks.len() && after.marks[j] == db.marks[k];
            assert(after.marks[j].user_id == who);
        }
    }
}

/// The keys of a source are those under which publications of that source are tracked, each
/// with its publication.
pub proof fn law_tracked_keys_are_those_of_the_source(
    s: Seq<PublicationView>,
    source_id: Seq<char>,
    key: String,
    id: Uuid,
)
    ensures
        keys_of(s, source_id).contains((key, id)) <==> exists|k: int|
            0 <= k < s.len() && (#[trigger] s[k]).id == id && (s[k].origin matches Origin::Source {
                source_id: sid,
                source_key,
            } && sid@ == source_id && source_key == key),
    decreases s.len(),
{
    if s.len() > 0 {
        let d = s.drop_last();
        law_tracked_keys_are_those_of_the_source(d, source_id, key, id);
        let before = keys_of(d, source_id);
        let all = keys_of(s, source_id);
        assert(s[s.len() - 1] == s.last());
        if all.contains((key, id)) {
            let n = choose|n: int| 0 <= n < all.len() && all[n] == (key, id);
            if n < before.len() {
                assert(before[n] == (key, id));
                assert(before.contains((key, id)));
                let k = choose|k: int|
                    0 <= k < d.len() && (#[trigger] d[k]).id == id && (d[k].origin matches Origin::Source {
                        source_id: sid,
                        source_key,
                    } && sid@ == source_id && source_key == key);
                assert(s[k] == d[k]);
            }
        }
        if exists|k: int|
            0 <= k < s.len() && (#[trigger] s[k]).id == id && (s[k].origin matches Origin::Source {
                source_id: sid,
                source_key,
            } && sid@ == source_id && source_key == key) {
            let k = choose|k: int|
                0 <= k < s.len() && (#[trigger] s[k]).id == id && (s[k].origin matches Origin::Source {
                    source_id: sid,
                    source_key,
                } && sid@ == source_id && source_key == key);
            if k < d.len() {
                assert(d[k] == s[k]);
                let n = choose|n: int| 0 <= n < before.len() && before[n] == (key, id);
                assert(all[n] == (key, id));
            } else {
                assert(all[all.len() - 1] == (key, id));
            }
        }
    }
}

/// Moving a title of a source to another key keeps its source and changes nothing else. It is
/// refused exactly where the publication is a file, or another one is tracked under the key.
pub proof fn law_moved_keys_stay_with_the_source(db: DbView, id: Uuid, key: String, k: int, i: int)
    requires
        db.wf(),
        0 <= k < db.publications.len(),
        db.publications[k].id == id,
        0 <= i < db.publications.len(),
    ensures
        ({
            let p = db.publications[k];
            let after = key_moved(db, id, key);
            &&& key_refused(db.publications, id, key) <==> match p.origin {
                Origin::LocalFile { .. } => true,
                Origin::Source { source_id: mine, .. } => exists|j: int|
                    0 <= j < db.publications.len() && j != k && ((#[trigger] db.publications[j]).origin matches Origin::Source {
                        source_id: theirs,
                        source_key: taken,
                    } && theirs@ == mine@ && taken@ == key@),
            }
            &&& after.publications.len() == db.publications.len()
            &&& i != k ==> after.publications[i] == db.publications[i]
            &&& !key_refused(db.publications, id, key) ==> match p.origin {
                Origin::Source { source_id: mine, .. } => after.publications[k] == (PublicationView {
                    origin: Origin::Source { source_id: mine, source_key: key },
                    ..p
                }),
                Origin::LocalFile { .. } => false,
            }
            &&& key_refused(db.publications, id, key) ==> after == db
            &&& after.units == db.units && after.marks == db.marks && after.journal == db.journal
        }),
{
    let s = db.publications;
    let p = s[k];
    let at = choose|at: int| 0 <= at < s.len() && (#[trigger] s[at]).id == id;
    assert(at == k);
    assert(has_publication(s, id));
    assert(publication_of(s, id) == p);
    if let Origin::Source { source_id: mine, .. } = p.origin {
        let moved = moved_origin(p.origin, key);
        if origin_taken(s, moved, id) {
            let j = choose|j: int|
                0 <= j < s.len() && (#[trigger] s[j]).id != id && same_origin(s[j].origin, moved);
            assert(j != k);
        }
        if exists|j: int|
            0 <= j < s.len() && j != k && ((#[trigger] s[j]).origin matches Origin::Source {
                source_id: theirs,
                source_key: taken,
            } && theirs@ == mine@ && taken@ == key@) {
            let j = choose|j: int|
                0 <= j < s.len() && j != k && ((#[trigger] s[j]).origin matches Origin::Source {
                    source_id: theirs,
                    source_key: taken,
                } && theirs@ == mine@ && taken@ == key@);
            assert(s[j].id != s[k].id);
            assert(same_origin(s[j].origin, moved));
        }
    }
}

}
