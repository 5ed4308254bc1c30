//! The shelf: adding, finding, changing and removing publications.

use vstd::prelude::*;

use crate::clock::{is_reading, utc_now, Timestamp};
use crate::db::downloads::pick;
use crate::db::backup_laws::lemma_distinct_genres;
use crate::db::plain::{no_text_twice, others_unchanged, publication_there, same_texts};
use crate::db::progress::position_in;
use crate::db::units::{check_ids, fresh_units, ids_usable, lemma_upserted, make_fresh, marked, upserted};
use crate::db::{
    has_publication, has_unit, is_taken, journal_placed, same_origin, taken, units_placed, Db, DbError, DbView, JournalEntry,
    LibraryRollup, ReadMark,
};
use crate::domain::progress::Locator;
use crate::domain::publication::{
    default_category, Category, DownloadState, Kind, Origin, Publication, PublicationView, ReadingUnit,
};
use crate::domain::source::{ChapterRef, MangaDetails};
use crate::ids::{fresh_id, fresh_ids, hyphenated_text, timely_form, timely_forms, uuid_text, Uuid};
use crate::order::{lemma_sorted_map, nocase_before, nocase_le, sort_by, sorted};
use crate::tables::{
    any, count, count32, kept_places, lemma_filter_contains, lemma_filter_none, lemma_filter_take, lemma_kept_places, position,
    retain, to_count,
};
use crate::text::{debug_text, join2, join3, quoted, same};

verus! {

/// What the rows of a publication table stand for.
pub open spec fn publication_views(s: Seq<Publication>) -> Seq<PublicationView> {
    s.map_values(|p: Publication| p@)
}

/// Genres in the order in which they are shown.
pub open spec fn genre_order(genres: Seq<String>) -> Seq<String> {
    sorted(genres, |a: String, b: String| nocase_le(a@, b@))
}

/// Genres with repetitions left out.
pub open spec fn distinct_genres(genres: Seq<String>) -> Seq<String>
    decreases genres.len(),
{
    if genres.len() == 0 {
        Seq::empty()
    } else {
        let before = distinct_genres(genres.drop_last());
        if exists|i: int| 0 <= i < before.len() && (#[trigger] before[i])@ == genres.last()@ {
            before
        } else {
            before.push(genres.last())
        }
    }
}

/// A publication as it is shown: its genres in order.
pub open spec fn shown(p: PublicationView) -> PublicationView {
    PublicationView { genres: genre_order(p.genres), ..p }
}

/// A publication as it is listed where genres do not matter.
pub open spec fn bare(p: PublicationView) -> PublicationView {
    PublicationView { genres: Seq::empty(), ..p }
}

/// Publications by title, without regard to case.
pub open spec fn title_le(a: PublicationView, b: PublicationView) -> bool {
    nocase_le(a.title@, b.title@)
}

/// Publications in the order in which they are listed.
pub open spec fn shelf_order(s: Seq<PublicationView>) -> Seq<PublicationView> {
    sorted(s, |a: PublicationView, b: PublicationView| title_le(a, b))
}

/// The publication with the identifier.
pub open spec fn publication_of(s: Seq<PublicationView>, id: Uuid) -> PublicationView {
    s[choose|i: int| 0 <= i < s.len() && (#[trigger] s[i]).id == id]
}

/// The rows with `f` done to the one with the identifier.
pub open spec fn with_publication(
    s: Seq<PublicationView>,
    id: Uuid,
    f: spec_fn(PublicationView) -> PublicationView,
) -> Seq<PublicationView> {
    s.map_values(
        |p: PublicationView|
            if p.id == id {
                f(p)
            } else {
                p
            },
    )
}

/// Some publication other than `id` comes from this origin.
pub open spec fn origin_taken(s: Seq<PublicationView>, origin: Origin, id: Uuid) -> bool {
    exists|i: int| 0 <= i < s.len() && (#[trigger] s[i]).id != id && same_origin(s[i].origin, origin)
}

/// A new publication cannot be added: its identifier or its origin is there.
pub open spec fn publication_taken(s: Seq<PublicationView>, id: Uuid, origin: Origin) -> bool {
    has_publication(s, id) || origin_taken(s, origin, id)
}

/// A publication made from what its source or its file tells.
pub open spec fn new_publication(
    p: PublicationView,
    id: Uuid,
    origin: Origin,
    details: MangaDetails,
    auto_download: bool,
    now: Timestamp,
) -> bool {
    &&& p.id == id
    &&& p.kind == Kind::Comics
    &&& same_origin(p.origin, origin)
    &&& p.title == details.summary.title
    &&& p.description == details.description
    &&& p.cover_url == details.summary.cover_url
    &&& p.auto_download == auto_download
    &&& p.category@ == "reading"@
    &&& p.genres == distinct_genres(details.genres@)
    &&& p.added_at == now
    &&& p.last_checked_at is None
    &&& p.missing_since is None
}

/// What adding a publication does: where its identifier and its origin are free and
/// there are identifiers for its units, it stands behind the others, with a unit
/// for each chapter, and is given back as it is shown; else nothing changes.
pub open spec fn insert_outcome(
    before: DbView,
    origin: Origin,
    details: MangaDetails,
    auto_download: bool,
    id: Uuid,
    ids: Seq<Uuid>,
    now: Timestamp,
    refusal: Seq<char>,
    after: DbView,
    r: Result<Publication, DbError>,
) -> bool {
    let n = details.chapters@.len();
    match r {
        Ok(p) => {
            &&& !publication_taken(before.publications, id, origin)
            &&& ids_usable(ids, n, before.units)
            &&& after.publications.len() == before.publications.len() + 1
            &&& new_publication(after.publications.last(), id, origin, details, auto_download, now)
            &&& after == (DbView {
                publications: before.publications.push(after.publications.last()),
                units: before.units + fresh_units(before.units, id, details.chapters@, ids, now),
                ..before
            })
            &&& p@ == shown(after.publications.last())
        },
        Err(e) => {
            &&& after == before
            &&& if publication_taken(before.publications, id, origin) {
                e matches DbError::Constraint(m) && m@ == refusal
            } else {
                !ids_usable(ids, n, before.units) && is_taken(e)
            }
        },
    }
}

/// The unit's title, where there is such a unit.
pub open spec fn unit_title(units: Seq<ReadingUnit>, id: Uuid) -> Option<String> {
    if has_unit(units, id) {
        Some(units[choose|i: int| 0 <= i < units.len() && (#[trigger] units[i]).id == id].title)
    } else {
        None
    }
}

/// The later of a time and what was the latest so far.
pub open spec fn later(best: Option<Timestamp>, t: Timestamp) -> Option<Timestamp> {
    match best {
        None => Some(t),
        Some(b) => if b.le(t) {
            Some(t)
        } else {
            Some(b)
        },
    }
}

/// When the newest of the units was first seen.
pub open spec fn latest_seen(units: Seq<ReadingUnit>) -> Option<Timestamp>
    decreases units.len(),
{
    if units.len() == 0 {
        None
    } else {
        later(latest_seen(units.drop_last()), units.last().fetched_at)
    }
}

/// The unit is unread for the reader; for nobody in particular, every unit is.
pub open spec fn unread_for(marks: Seq<ReadMark>, reader: Option<Uuid>, u: ReadingUnit) -> bool {
    match reader {
        Some(user) => !marked(marks, user, u.id),
        None => true,
    }
}

/// The sums over a publication's units.
pub open spec fn rollup_of(db: DbView, reader: Option<Uuid>, publication_id: Uuid) -> LibraryRollup {
    let own = db.units.filter(|u: ReadingUnit| u.publication_id == publication_id);
    LibraryRollup {
        unit_count: count32(own.len() as int),
        downloaded_count: count32(
            own.filter(|u: ReadingUnit| u.download is Downloaded).len() as int,
        ),
        unread_count: count32(
            own.filter(|u: ReadingUnit| unread_for(db.marks, reader, u)).len() as int,
        ),
        latest_unit_at: latest_seen(own),
    }
}

/// The publication has units.
pub open spec fn has_units(units: Seq<ReadingUnit>, publication_id: Uuid) -> bool {
    exists|i: int| 0 <= i < units.len() && (#[trigger] units[i]).publication_id == publication_id
}

/// The category is there, and is updated.
pub open spec fn category_updated(categories: Seq<Category>, id: Seq<char>) -> bool {
    exists|i: int| 0 <= i < categories.len() && (#[trigger] categories[i]).id@ == id
        && categories[i].update_enabled
}

/// The publications that are local files, by title.
pub open spec fn local_shelf(db: DbView) -> Seq<PublicationView> {
    shelf_order(
        db.publications.filter(|p: PublicationView| p.origin is LocalFile).map_values(
            |p: PublicationView| bare(p),
        ),
    )
}

/// The publications that the periodic check looks at, by title.
pub open spec fn checked_shelf(db: DbView) -> Seq<PublicationView> {
    shelf_order(
        db.publications.filter(
            |p: PublicationView|
                category_updated(db.categories, p.category@) && !(p.origin is LocalFile),
        ).map_values(|p: PublicationView| bare(p)),
    )
}

/// There is such a category.
pub open spec fn has_category(categories: Seq<Category>, id: Seq<char>) -> bool {
    exists|i: int| 0 <= i < categories.len() && (#[trigger] categories[i]).id@ == id
}

/// The tables without a publication, its units, the marks on them and its journal.
pub open spec fn without_publication(db: DbView, id: Uuid) -> DbView {
    DbView {
        publications: db.publications.filter(|p: PublicationView| p.id != id),
        units: db.units.filter(|u: ReadingUnit| u.publication_id != id),
        marks: db.marks.filter(
            |m: ReadMark| has_unit(db.units.filter(|u: ReadingUnit| u.publication_id != id), m.unit_id),
        ),
        journal: db.journal.filter(|e: JournalEntry| e.event.publication_id != id),
        ..db
    }
}

// ---- what changes keep ----

/// Changing publications without touching identifiers and origins keeps the tables'
/// promises.
pub proof fn lemma_publications_changed(
    db: DbView,
    id: Uuid,
    f: spec_fn(PublicationView) -> PublicationView,
)
    requires
        db.wf(),
        forall|p: PublicationView| (#[trigger] f(p)).id == p.id && f(p).origin == p.origin,
    ensures
        (DbView { publications: with_publication(db.publications, id, f), ..db }).wf(),
{
    let out = with_publication(db.publications, id, f);
    assert forall|i: int| 0 <= i < out.len() implies (#[trigger] out[i]).id == db.publications[i].id
        && out[i].origin == db.publications[i].origin by {
        let _ = f(db.publications[i]);
    }
    lemma_same_identifiers(db, out);
}

/// Tables whose publications have the same identifiers keep every reference.
proof fn lemma_same_identifiers(db: DbView, out: Seq<PublicationView>)
    requires
        db.wf(),
        out.len() == db.publications.len(),
        forall|i: int| 0 <= i < out.len() ==> (#[trigger] out[i]).id == db.publications[i].id,
    ensures
        forall|id: Uuid| has_publication(db.publications, id) <==> #[trigger] has_publication(out, id),
        units_placed(db.units, out),
        journal_placed(db.journal, out),
{
    assert forall|id: Uuid| has_publication(db.publications, id) <==> #[trigger] has_publication(
        out,
        id,
    ) by {
        if has_publication(db.publications, id) {
            let i = choose|i: int|
                0 <= i < db.publications.len() && (#[trigger] db.publications[i]).id == id;
            assert(out[i].id == id);
        }
        if has_publication(out, id) {
            let i = choose|i: int| 0 <= i < out.len() && (#[trigger] out[i]).id == id;
            assert(db.publications[i].id == id);
        }
    }
    assert forall|i: int| 0 <= i < db.units.len() implies has_publication(
        out,
        (#[trigger] db.units[i]).publication_id,
    ) by {
        assert(has_publication(db.publications, db.units[i].publication_id));
    }
    assert forall|i: int| 0 <= i < db.journal.len() implies has_publication(
        out,
        (#[trigger] db.journal[i]).event.publication_id,
    ) by {
        assert(has_publication(db.publications, db.journal[i].event.publication_id));
    }
}

/// Giving one publication an origin that no other has keeps the tables' promises.
pub proof fn lemma_origin_changed(
    db: DbView,
    id: Uuid,
    f: spec_fn(PublicationView) -> PublicationView,
    origin: Origin,
)
    requires
        db.wf(),
        forall|p: PublicationView| (#[trigger] f(p)).id == p.id,
        forall|p: PublicationView| p.id == id && db.publications.contains(p) ==> same_origin(
            (#[trigger] f(p)).origin,
            origin,
        ),
        !origin_taken(db.publications, origin, id),
    ensures
        (DbView { publications: with_publication(db.publications, id, f), ..db }).wf(),
{
    let out = with_publication(db.publications, id, f);
    assert forall|i: int| 0 <= i < out.len() implies (#[trigger] out[i]).id == db.publications[i].id
        && (db.publications[i].id != id ==> out[i] == db.publications[i]) && (db.publications[i].id
        == id ==> same_origin(out[i].origin, origin)) by {
        assert(db.publications.contains(db.publications[i]));
        let _ = f(db.publications[i]);
    }
    lemma_same_identifiers(db, out);
    assert forall|i: int, j: int|
        0 <= i < out.len() && 0 <= j < out.len() && same_origin(
            (#[trigger] out[i]).origin,
            (#[trigger] out[j]).origin,
        ) implies i == j by {
        if db.publications[i].id == id && db.publications[j].id == id {
            assert(db.publications[i].id == db.publications[j].id);
        } else if db.publications[i].id == id {
            assert(same_origin(db.publications[j].origin, origin));
        } else if db.publications[j].id == id {
            assert(same_origin(db.publications[i].origin, origin));
        } else {
            assert(same_origin(db.publications[i].origin, db.publications[j].origin));
        }
    }
}

/// Adding a publication with its units keeps the tables' promises.
proof fn lemma_publication_inserted(
    db: DbView,
    p: PublicationView,
    chapters: Seq<ChapterRef>,
    ids: Seq<Uuid>,
    now: Timestamp,
)
    requires
        db.wf(),
        !publication_taken(db.publications, p.id, p.origin),
        ids_usable(ids, chapters.len(), db.units),
    ensures
        (DbView {
            publications: db.publications.push(p),
            units: db.units + fresh_units(db.units, p.id, chapters, ids, now),
            ..db
        }).wf(),
{
    let pubs = db.publications.push(p);
    let fresh = fresh_units(db.units, p.id, chapters, ids, now);
    assert forall|id: Uuid| has_publication(db.publications, id) implies #[trigger] has_publication(
        pubs,
        id,
    ) by {
        let i = choose|i: int| 0 <= i < db.publications.len() && (#[trigger] db.publications[i]).id == id;
        assert(pubs[i].id == id);
    }
    assert(pubs[pubs.len() - 1].id == p.id);
    assert forall|i: int| 0 <= i < db.units.len() implies has_publication(
        pubs,
        (#[trigger] db.units[i]).publication_id,
    ) by {
        assert(has_publication(db.publications, db.units[i].publication_id));
    }
    lemma_upserted(db.units, pubs, p.id, chapters, ids, now);
    let all = upserted(db.units, p.id, chapters, ids, now);
    assert(all =~= db.units + fresh) by {
        assert forall|i: int| 0 <= i < db.units.len() implies #[trigger] all[i] == db.units[i] by {
            assert(has_publication(db.publications, db.units[i].publication_id));
            assert(db.units[i].publication_id != p.id);
        }
    }
    assert forall|i: int, j: int|
        0 <= i < pubs.len() && 0 <= j < pubs.len() && (#[trigger] pubs[i]).id == (#[trigger] pubs[j]).id implies i
        == j by {
        if i < db.publications.len() && j < db.publications.len() {
            assert(db.publications[i].id == db.publications[j].id);
        } else if i < db.publications.len() {
            assert(db.publications[i].id == p.id);
        } else if j < db.publications.len() {
            assert(db.publications[j].id == p.id);
        }
    }
    assert forall|i: int, j: int|
        0 <= i < pubs.len() && 0 <= j < pubs.len() && same_origin(
            (#[trigger] pubs[i]).origin,
            (#[trigger] pubs[j]).origin,
        ) implies i == j by {
        if i < db.publications.len() && j < db.publications.len() {
            assert(same_origin(db.publications[i].origin, db.publications[j].origin));
        } else if i < db.publications.len() {
            assert(same_origin(db.publications[i].origin, p.origin));
            assert(db.publications[i].id != p.id);
        } else if j < db.publications.len() {
            assert(same_origin(db.publications[j].origin, p.origin));
            assert(db.publications[j].id != p.id);
        }
    }
    assert forall|i: int| 0 <= i < db.marks.len() implies has_unit(
        db.units + fresh,
        (#[trigger] db.marks[i]).unit_id,
    ) by {
        assert(has_unit(db.units, db.marks[i].unit_id));
    }
    assert forall|i: int| 0 <= i < db.journal.len() implies has_publication(
        pubs,
        (#[trigger] db.journal[i]).event.publication_id,
    ) by {
        assert(has_publication(db.publications, db.journal[i].event.publication_id));
    }
}

/// Removing a publication keeps the tables' promises.
pub proof fn lemma_without_publication(db: DbView, id: Uuid)
    requires
        db.wf(),
    ensures
        without_publication(db, id).wf(),
{
    let p = |x: PublicationView| x.id != id;
    let q = |u: ReadingUnit| u.publication_id != id;
    let units = db.units.filter(q);
    let m = |x: ReadMark| has_unit(units, x.unit_id);
    let j = |e: JournalEntry| e.event.publication_id != id;
    let out = without_publication(db, id);
    lemma_kept_places(db.publications, p);
    lemma_kept_places(db.units, q);
    lemma_kept_places(db.marks, m);
    lemma_kept_places(db.journal, j);
    lemma_filter_contains(db.publications, p);
    let pa = kept_places(db.publications, p);
    let ua = kept_places(db.units, q);
    let ma = kept_places(db.marks, m);
    let ja = kept_places(db.journal, j);
    assert forall|x: Uuid| x != id && has_publication(db.publications, x) implies #[trigger] has_publication(
        out.publications,
        x,
    ) by {
        let i = choose|i: int| 0 <= i < db.publications.len() && (#[trigger] db.publications[i]).id == x;
        assert(db.publications.contains(db.publications[i]));
        assert(out.publications.contains(db.publications[i]));
        let k = choose|k: int| 0 <= k < out.publications.len() && out.publications[k] == db.publications[i];
        assert(out.publications[k].id == x);
    }
    assert forall|a: int, b: int|
        0 <= a < out.publications.len() && 0 <= b < out.publications.len() && (
        #[trigger] out.publications[a]).id == (#[trigger] out.publications[b]).id implies a == b by {
        assert(db.publications[pa[a]].id == db.publications[pa[b]].id);
        assert(pa[a] < pa[b] || pa[b] < pa[a] || a == b);
    }
    assert forall|a: int, b: int|
        0 <= a < out.publications.len() && 0 <= b < out.publications.len() && same_origin(
            (#[trigger] out.publications[a]).origin,
            (#[trigger] out.publications[b]).origin,
        ) implies a == b by {
        assert(same_origin(db.publications[pa[a]].origin, db.publications[pa[b]].origin));
        assert(pa[a] < pa[b] || pa[b] < pa[a] || a == b);
    }
    assert forall|a: int, b: int|
        0 <= a < units.len() && 0 <= b < units.len() && (#[trigger] units[a]).id == (#[trigger] units[b]).id implies a
        == b by {
        assert(db.units[ua[a]].id == db.units[ua[b]].id);
        assert(ua[a] < ua[b] || ua[b] < ua[a] || a == b);
    }
    assert forall|a: int, b: int|
        0 <= a < units.len() && 0 <= b < units.len() && (#[trigger] units[a]).publication_id == (
        #[trigger] units[b]).publication_id && units[a].source_key@ == units[b].source_key@ implies a == b by {
        assert(db.units[ua[a]].publication_id == db.units[ua[b]].publication_id);
        assert(ua[a] < ua[b] || ua[b] < ua[a] || a == b);
    }
    assert forall|a: int| 0 <= a < units.len() implies has_publication(
        out.publications,
        (#[trigger] units[a]).publication_id,
    ) by {
        assert(has_publication(db.publications, db.units[ua[a]].publication_id));
    }
    crate::db::read_marks::lemma_without_marks(db.marks, db.units, m);
    assert forall|a: int| 0 <= a < out.marks.len() implies has_unit(
        out.units,
        (#[trigger] out.marks[a]).unit_id,
    ) by {
        let _ = ma[a];
    }
    assert forall|a: int, b: int|
        0 <= a < out.journal.len() && 0 <= b < out.journal.len() && (#[trigger] out.journal[a]).event.id == (
        #[trigger] out.journal[b]).event.id implies a == b by {
        assert(db.journal[ja[a]].event.id == db.journal[ja[b]].event.id);
        assert(ja[a] < ja[b] || ja[b] < ja[a] || a == b);
    }
    assert forall|a: int, b: int| 0 <= a < b < out.journal.len() implies (#[trigger] out.journal[a]).seq < (
    #[trigger] out.journal[b]).seq by {
        assert(ja[a] < ja[b]);
        assert(db.journal[ja[a]].seq < db.journal[ja[b]].seq);
    }
    assert forall|a: int| 0 <= a < out.journal.len() implies 0 < (#[trigger] out.journal[a]).seq
        < db.next_seq by {
        assert(db.journal[ja[a]] == out.journal[a]);
    }
    assert forall|a: int| 0 <= a < out.journal.len() implies has_publication(
        out.publications,
        (#[trigger] out.journal[a]).event.publication_id,
    ) by {
        assert(has_publication(db.publications, db.journal[ja[a]].event.publication_id));
    }
}

// ---- helpers ----

/// Leaves out repeated genres.
pub(crate) fn dedup_genres(genres: &Vec<String>) -> (r: Vec<String>)
    ensures
        r@ == distinct_genres(genres@),
{
    let mut out: Vec<String> = Vec::new();
    let mut i: usize = 0;
    assert(genres@.take(0) =~= Seq::empty());
    while i < genres.len()
        invariant
            i <= genres@.len(),
            out@ == distinct_genres(genres@.take(i as int)),
        decreases genres@.len() - i,
    {
        let g = &genres[i];
        assert(genres@.take(i + 1).drop_last() =~= genres@.take(i as int));
        let hit = |x: &String| -> (b: bool)
            ensures b == (x@ == g@)
        { same(x.as_str(), g.as_str()) };
        if !any(&out, hit, Ghost(|x: String| x@ == g@)) {
            out.push(g.clone());
        }
        i += 1;
    }
    assert(genres@.take(genres@.len() as int) =~= genres@);
    out
}

/// Puts genres in the order in which they are shown.
pub(crate) fn sort_genres(genres: Vec<String>) -> (r: Vec<String>)
    ensures
        r@ == genre_order(genres@),
{
    let before = |a: &String, b: &String| -> (r: bool)
        ensures r == nocase_le(a@, b@)
    { nocase_before(a.as_str(), b.as_str()) };
    sort_by(genres, before, Ghost(|a: String, b: String| nocase_le(a@, b@)))
}

/// A publication as it is shown.
fn show(p: &Publication) -> (r: Publication)
    ensures
        r@ == shown(p@),
{
    let mut out = p.clone();
    out.genres = sort_genres(p.genres.clone());
    out
}

/// Puts publications in the order in which they are listed.
fn shelve(rows: Vec<Publication>) -> (r: Vec<Publication>)
    ensures
        publication_views(r@) == shelf_order(publication_views(rows@)),
{
    let by_title = |a: &Publication, b: &Publication| -> (r: bool)
        ensures r == title_le(a@, b@)
    { nocase_before(a.title.as_str(), b.title.as_str()) };
    proof {
        lemma_sorted_map(
            rows@,
            |p: Publication| p@,
            |a: Publication, b: Publication| title_le(a@, b@),
            |a: PublicationView, b: PublicationView| title_le(a, b),
        );
    }
    sort_by(rows, by_title, Ghost(|a: Publication, b: Publication| title_le(a@, b@)))
}

/// The publications that pass a test, as they are shown.
fn pick_shown<F: Fn(&Publication) -> bool>(
    rows: &Vec<Publication>,
    test: F,
    with_genres: bool,
    Ghost(p): Ghost<spec_fn(PublicationView) -> bool>,
) -> (r: Vec<Publication>)
    requires
        forall|x: &Publication| #[trigger] test.requires((x,)),
        forall|x: &Publication, b: bool| #[trigger] test.ensures((x,), b) ==> b == p(x@),
    ensures
        publication_views(r@) == publication_views(rows@).filter(p).map_values(
            |x: PublicationView|
                if with_genres {
                    shown(x)
                } else {
                    bare(x)
                },
        ),
{
    let ghost f = |x: PublicationView|
        if with_genres {
            shown(x)
        } else {
            bare(x)
        };
    let ghost views = publication_views(rows@);
    let mut out: Vec<Publication> = Vec::new();
    let mut i: usize = 0;
    proof {
        lemma_filter_none(views.take(0), p);
        assert(publication_views(out@) =~= views.take(0).filter(p).map_values(f));
    }
    while i < rows.len()
        invariant
            forall|x: &Publication| #[trigger] test.requires((x,)),
            forall|x: &Publication, b: bool| #[trigger] test.ensures((x,), b) ==> b == p(x@),
            i <= rows@.len(),
            views == publication_views(rows@),
            f == (|x: PublicationView|
                if with_genres {
                    shown(x)
                } else {
                    bare(x)
                }),
            publication_views(out@) == views.take(i as int).filter(p).map_values(f),
        decreases rows@.len() - i,
    {
        proof {
            lemma_filter_take(views, i as int, p);
        }
        assert(views[i as int] == rows@[i as int]@);
        if test(&rows[i]) {
            let ghost had = out@;
            if with_genres {
                out.push(show(&rows[i]));
            } else {
                let mut b = rows[i].clone();
                b.genres = Vec::new();
                assert(b@ =~= bare(rows@[i as int]@));
                out.push(b);
            }
            assert(publication_views(out@) =~= publication_views(had).push(f(views[i as int])));
            assert(publication_views(out@) =~= views.take(i + 1).filter(p).map_values(f));
        }
        i += 1;
    }
    assert(views.take(views.len() as int) =~= views);
    out
}

impl Db {
    /// Where the publication with an identifier stands.
    pub(crate) fn find_publication(&self, id: Uuid) -> (r: Option<usize>)
        ensures
            match r {
                Some(i) => i < self.publications@.len() && self.publications@[i as int].id == id
                    && has_publication(self@.publications, id),
                None => !has_publication(self@.publications, id),
            },
    {
        let is_it = |p: &Publication| -> (b: bool)
            ensures b == (p.id == id)
        { p.id == id };
        let r = position(&self.publications, is_it, Ghost(|p: Publication| p.id == id));
        proof {
            match r {
                Some(i) => {
                    assert(self@.publications[i as int].id == id);
                },
                None => {
                    assert forall|j: int| 0 <= j < self@.publications.len() implies (
                    #[trigger] self@.publications[j]).id != id by {
                        assert(self.publications@[j].id != id);
                    }
                },
            }
        }
        r
    }

    /// Does something to the publication with an identifier.
    fn change_publication<F: Fn(&Publication) -> Publication>(
        &mut self,
        id: Uuid,
        step: F,
        Ghost(f): Ghost<spec_fn(PublicationView) -> PublicationView>,
    )
        requires
            forall|x: &Publication| #[trigger] step.requires((x,)),
            forall|x: &Publication, y: Publication|
                #[trigger] step.ensures((x,), y) ==> y@ == f(x@),
        ensures
            final(self)@ == (DbView {
                publications: with_publication(old(self)@.publications, id, f),
                ..old(self)@
            }),
    {
        let ghost before = self@;
        let ghost out = with_publication(before.publications, id, f);
        let mut i: usize = 0;
        while i < self.publications.len()
            invariant
                forall|x: &Publication| #[trigger] step.requires((x,)),
                forall|x: &Publication, y: Publication|
                    #[trigger] step.ensures((x,), y) ==> y@ == f(x@),
                i <= self.publications@.len(),
                out == with_publication(before.publications, id, f),
                self@ == (DbView { publications: self@.publications, ..before }),
                self@.publications.len() == before.publications.len(),
                self.publications@.len() == before.publications.len(),
                forall|j: int| 0 <= j < i ==> #[trigger] self@.publications[j] == out[j],
                forall|j: int|
                    i <= j < self@.publications.len() ==> #[trigger] self@.publications[j]
                        == before.publications[j],
            decreases self.publications@.len() - i,
        {
            assert(self@.publications[i as int] == self.publications@[i as int]@);
            if self.publications[i].id == id {
                let ghost had = self@;
                let changed = step(&self.publications[i]);
                self.publications.set(i, changed);
                assert(self@.publications =~= had.publications.update(i as int, changed@));
            }
            i += 1;
        }
        assert(self@.publications =~= out);
    }

    /// Whether a publication other than `id` comes from an origin.
    fn is_origin_taken(&self, origin: &Origin, id: Uuid) -> (r: bool)
        ensures
            r == origin_taken(self@.publications, *origin, id),
    {
        let hit = |p: &Publication| -> (b: bool)
            ensures b == (p.id != id && same_origin(p.origin, *origin))
        {
            p.id != id && match (&p.origin, origin) {
                (
                    Origin::Source { source_id: a, source_key: b },
                    Origin::Source { source_id: c, source_key: d },
                ) => same(a.as_str(), c.as_str()) && same(b.as_str(), d.as_str()),
                (Origin::LocalFile { path: a }, Origin::LocalFile { path: b }) => same(
                    a.as_str(),
                    b.as_str(),
                ),
                _ => false,
            }
        };
        let r = any(
            &self.publications,
            hit,
            Ghost(|p: Publication| p.id != id && same_origin(p.origin, *origin)),
        );
        proof {
            if r {
                let j = choose|j: int|
                    0 <= j < self.publications@.len() && (#[trigger] self.publications@[j]).id != id
                        && same_origin(self.publications@[j].origin, *origin);
                assert(self@.publications[j].id != id);
            }
            if origin_taken(self@.publications, *origin, id) {
                let j = choose|j: int|
                    0 <= j < self@.publications.len() && (#[trigger] self@.publications[j]).id != id
                        && same_origin(self@.publications[j].origin, *origin);
                assert(self.publications@[j].id != id);
            }
        }
        r
    }

    /// Adds a publication with its units.
    fn insert(
        &mut self,
        origin: Origin,
        details: &MangaDetails,
        auto_download: bool,
        id: Uuid,
        ids: &Vec<Uuid>,
        now: Timestamp,
        refusal: &str,
    ) -> (r: Result<Publication, DbError>)
        requires
            old(self).wf(),
        ensures
            final(self).wf(),
            insert_outcome(
                old(self)@,
                origin,
                *details,
                auto_download,
                id,
                ids@,
                now,
                refusal@,
                final(self)@,
                r,
            ),
    {
        if self.knows_publication(id) || self.is_origin_taken(&origin, id) {
            return Err(DbError::Constraint(refusal.to_owned()));
        }
        if !check_ids(ids, details.chapters.len(), &self.units) {
            return Err(taken());
        }
        let ghost before = self@;
        let p = Publication {
            id,
            kind: Kind::Comics,
            origin,
            title: details.summary.title.clone(),
            description: details.description.clone(),
            cover_url: details.summary.cover_url.clone(),
            auto_download,
            category: default_category(),
            genres: dedup_genres(&details.genres),
            added_at: now,
            last_checked_at: None,
            missing_since: None,
        };
        let ghost pv = p@;
        let mut fresh = make_fresh(&self.units, id, &details.chapters, ids, now);
        proof {
            lemma_publication_inserted(before, pv, details.chapters@, ids@, now);
        }
        let r = show(&p);
        self.publications.push(p);
        assert(self@.publications =~= before.publications.push(pv));
        self.units.append(&mut fresh);
        assert(self@ =~= (DbView {
            publications: before.publications.push(pv),
            units: before.units + fresh_units(before.units, id, details.chapters@, ids@, now),
            ..before
        }));
        Ok(r)
    }

    /// Adds a title of a source with its units, with identifiers and a time at hand.
    pub fn insert_publication_at(
        &mut self,
        source_id: &str,
        details: &MangaDetails,
        auto_download: bool,
        id: Uuid,
        ids: &Vec<Uuid>,
        now: Timestamp,
    ) -> (r: Result<Publication, DbError>)
        requires
            old(self).wf(),
        ensures
            final(self).wf(),
            exists|origin: Origin|
                (origin matches Origin::Source { source_id: s, source_key: k } && s@ == source_id@ && k
                    == details.summary.key) && #[trigger] insert_outcome(
                    old(self)@,
                    origin,
                    *details,
                    auto_download,
                    id,
                    ids@,
                    now,
                    "publication already in library"@,
                    final(self)@,
                    r,
                ),
    {
        let origin = Origin::Source {
            source_id: source_id.to_owned(),
            source_key: details.summary.key.clone(),
        };
        self.insert(origin, details, auto_download, id, ids, now, "publication already in library")
    }

    /// Adds a title of a source with its units, as of now.
    pub fn insert_publication(&mut self, source_id: &str, details: &MangaDetails, auto_download: bool) -> (r:
        Result<Publication, DbError>)
        requires
            old(self).wf(),
        ensures
            final(self).wf(),
            exists|origin: Origin, id: Uuid, ids: Seq<Uuid>, now: Timestamp|
                (origin matches Origin::Source { source_id: s, source_key: k } && s@ == source_id@ && k
                    == details.summary.key) && timely_form(id) && timely_forms(
                    ids,
                    details.chapters@.len(),
                ) && is_reading(now) && #[trigger] insert_outcome(
                    old(self)@,
                    origin,
                    *details,
                    auto_download,
                    id,
                    ids,
                    now,
                    "publication already in library"@,
                    final(self)@,
                    r,
                ),
    {
        let id = fresh_id();
        let ids = fresh_ids(details.chapters.len());
        let now = utc_now();
        self.insert_publication_at(source_id, details, auto_download, id, &ids, now)
    }

    /// Adds a local file with its units, with identifiers and a time at hand.
    pub fn insert_local_publication_at(
        &mut self,
        path: &str,
        details: &MangaDetails,
        id: Uuid,
        ids: &Vec<Uuid>,
        now: Timestamp,
    ) -> (r: Result<Publication, DbError>)
        requires
            old(self).wf(),
        ensures
            final(self).wf(),
            exists|origin: Origin|
                (origin matches Origin::LocalFile { path: p } && p@ == path@) && #[trigger] insert_outcome(
                    old(self)@,
                    origin,
                    *details,
                    false,
                    id,
                    ids@,
                    now,
                    "file already in library"@,
                    final(self)@,
                    r,
                ),
    {
        let origin = Origin::LocalFile { path: path.to_owned() };
        self.insert(origin, details, false, id, ids, now, "file already in library")
    }

    /// Adds a local file with its units, as of now.
    pub fn insert_local_publication(&mut self, path: &str, details: &MangaDetails) -> (r: Result<
        Publication,
        DbError,
    >)
        requires
            old(self).wf(),
        ensures
            final(self).wf(),
            exists|origin: Origin, id: Uuid, ids: Seq<Uuid>, now: Timestamp|
                (origin matches Origin::LocalFile { path: p } && p@ == path@) && timely_form(id) && timely_forms(
                    ids,
                    details.chapters@.len(),
                ) && is_reading(now) && #[trigger] insert_outcome(
                    old(self)@,
                    origin,
                    *details,
                    false,
                    id,
                    ids,
                    now,
                    "file already in library"@,
                    final(self)@,
                    r,
                ),
    {
        let id = fresh_id();
        let ids = fresh_ids(details.chapters.len());
        let now = utc_now();
        self.insert_local_publication_at(path, details, id, &ids, now)
    }

    /// The publication with an identifier.
    pub fn get_publication(&self, id: Uuid) -> (r: Result<Publication, DbError>)
        requires
            self.wf(),
        ensures
            match r {
                Ok(p) => has_publication(self@.publications, id) && p@ == shown(
                    publication_of(self@.publications, id),
                ),
                Err(e) => !has_publication(self@.publications, id) && e == DbError::NotFound,
            },
    {
        match self.find_publication(id) {
            Some(i) => {
                proof {
                    let k = choose|k: int|
                        0 <= k < self@.publications.len() && (#[trigger] self@.publications[k]).id == id;
                    assert(self@.publications[i as int].id == id);
                    assert(k == i);
                }
                Ok(show(&self.publications[i]))
            },
            None => Err(DbError::NotFound),
        }
    }

    /// All publications, by title.
    pub fn list_publications(&self) -> (r: Vec<Publication>)
        ensures
            publication_views(r@) == shelf_order(
                self@.publications.map_values(|p: PublicationView| shown(p)),
            ),
    {
        let all = |p: &Publication| -> (b: bool)
            ensures b
        { true };
        let rows = pick_shown(&self.publications, all, true, Ghost(|p: PublicationView| true));
        proof {
            crate::tables::lemma_filter_all(self@.publications, |p: PublicationView| true);
            assert(publication_views(rows@) =~= self@.publications.map_values(
                |p: PublicationView| shown(p),
            ));
        }
        shelve(rows)
    }

    /// The publications that are local files, by title.
    pub fn list_local_publications(&self) -> (r: Vec<Publication>)
        ensures
            publication_views(r@) == local_shelf(self@),
    {
        let local = |p: &Publication| -> (b: bool)
            ensures b == (p@.origin is LocalFile)
        {
            match p.origin {
                Origin::LocalFile { .. } => true,
                _ => false,
            }
        };
        let rows = pick_shown(
            &self.publications,
            local,
            false,
            Ghost(|p: PublicationView| p.origin is LocalFile),
        );
        assert(publication_views(rows@) =~= self@.publications.filter(
            |p: PublicationView| p.origin is LocalFile,
        ).map_values(|p: PublicationView| bare(p)));
        shelve(rows)
    }

    /// The publications that the periodic check looks at, by title: those in a category
    /// that is updated, and no local files.
    pub fn list_publications_for_update(&self) -> (r: Vec<Publication>)
        ensures
            publication_views(r@) == checked_shelf(self@),
    {
        let due = |p: &Publication| -> (b: bool)
            ensures b == (category_updated(self@.categories, p@.category@) && !(p@.origin is LocalFile))
        {
            let scraped = match p.origin {
                Origin::LocalFile { .. } => false,
                _ => true,
            };
            scraped && self.is_category_updated(p.category.as_str())
        };
        let ghost f = |p: PublicationView|
            category_updated(self@.categories, p.category@) && !(p.origin is LocalFile);
        let rows = pick_shown(&self.publications, due, false, Ghost(f));
        assert(publication_views(rows@) =~= self@.publications.filter(f).map_values(
            |p: PublicationView| bare(p),
        ));
        shelve(rows)
    }

    /// Whether a category is there and updated.
    fn is_category_updated(&self, id: &str) -> (r: bool)
        ensures
            r == category_updated(self@.categories, id@),
    {
        let hit = |c: &Category| -> (b: bool)
            ensures b == (c.id@ == id@ && c.update_enabled)
        { same(c.id.as_str(), id) && c.update_enabled };
        any(&self.categories, hit, Ghost(|c: Category| c.id@ == id@ && c.update_enabled))
    }

    /// Whether there is such a category.
    fn knows_category(&self, id: &str) -> (r: bool)
        ensures
            r == has_category(self@.categories, id@),
    {
        let hit = |c: &Category| -> (b: bool)
            ensures b == (c.id@ == id@)
        { same(c.id.as_str(), id) };
        any(&self.categories, hit, Ghost(|c: Category| c.id@ == id@))
    }

    /// Points a local file's publication at a new path; it is missing no longer.
    pub fn repoint_local_publication(&mut self, id: Uuid, path: &str) -> (r: Result<(), DbError>)
        requires
            old(self).wf(),
        ensures
            final(self).wf(),
            match r {
                Ok(_) => {
                    &&& has_publication(old(self)@.publications, id) ==> publication_of(
                        old(self)@.publications,
                        id,
                    ).origin is LocalFile
                    &&& exists|s: String|
                        s@ == path@ && (has_publication(old(self)@.publications, id) ==> !origin_taken(
                            old(self)@.publications,
                            Origin::LocalFile { path: s },
                            id,
                        )) && final(self)@ == (DbView {
                            publications: with_publication(
                                old(self)@.publications,
                                id,
                                #[trigger] at_path(s),
                            ),
                            ..old(self)@
                        })
                },
                Err(e) => {
                    &&& final(self)@ == old(self)@
                    &&& has_publication(old(self)@.publications, id)
                    &&& if publication_of(old(self)@.publications, id).origin is LocalFile {
                        is_taken(e) && exists|s: String|
                            s@ == path@ && #[trigger] origin_taken(
                                old(self)@.publications,
                                Origin::LocalFile { path: s },
                                id,
                            )
                    } else {
                        e matches DbError::Corrupt(m) && m@ == "publication "@ + hyphenated_text(id)
                            + " origin"@
                    }
                },
            },
    {
        let s = path.to_owned();
        let origin = Origin::LocalFile { path: s };
        let ghost before = self@;
        match self.find_publication(id) {
            Some(i) => {
                proof {
                    let k = choose|k: int|
                        0 <= k < self@.publications.len() && (#[trigger] self@.publications[k]).id == id;
                    assert(self@.publications[i as int].id == id);
                    assert(k == i);
                }
                let local = match self.publications[i].origin {
                    Origin::LocalFile { .. } => true,
                    _ => false,
                };
                if !local {
                    return Err(
                        DbError::Corrupt(join3("publication ", uuid_text(id).as_str(), " origin")),
                    );
                }
                if self.is_origin_taken(&origin, id) {
                    return Err(taken());
                }
            },
            None => {
                proof {
                    lemma_absent(before, id, at_path(s));
                }
                return Ok(());
            },
        }
        let to = &origin;
        let step = |p: &Publication| -> (q: Publication)
            ensures q@ == (PublicationView { origin: *to, missing_since: None, ..p@ })
        {
            let mut q = p.clone();
            q.origin = to.clone();
            q.missing_since = None;
            q
        };
        let ghost f = at_path(s);
        proof {
            lemma_same_origin(origin);
            lemma_origin_changed(before, id, f, origin);
        }
        self.change_publication(id, step, Ghost(f));
        Ok(())
    }

    /// Points a scraped publication at its current key: some sources rotate theirs.
    pub fn update_source_key(&mut self, id: Uuid, source_key: &str) -> (r: Result<(), DbError>)
        requires
            old(self).wf(),
        ensures
            final(self).wf(),
            exists|k: String|
                k@ == source_key@ && final(self)@ == #[trigger] key_moved(old(self)@, id, k) && (
                r is Err <==> key_refused(old(self)@.publications, id, k)),
            r matches Err(e) ==> key_refusal(old(self)@.publications, id, e),
    {
        self.move_source_key(id, source_key.to_owned())
    }

    /// Points a scraped publication at its current key.
    pub fn move_source_key(&mut self, id: Uuid, key: String) -> (r: Result<(), DbError>)
        requires
            old(self).wf(),
        ensures
            final(self).wf(),
            final(self)@ == key_moved(old(self)@, id, key),
            r is Err <==> key_refused(old(self)@.publications, id, key),
            r matches Err(e) ==> key_refusal(old(self)@.publications, id, e),
    {
        let ghost before = self@;
        let i = match self.find_publication(id) {
            Some(i) => i,
            None => {
                return Ok(());
            },
        };
        let ghost was = publication_of(before.publications, id);
        proof {
            let k = choose|k: int|
                0 <= k < self@.publications.len() && (#[trigger] self@.publications[k]).id == id;
            assert(self@.publications[i as int].id == id);
            assert(k == i);
        }
        let origin = match &self.publications[i].origin {
            Origin::Source { source_id, .. } => Origin::Source {
                source_id: source_id.clone(),
                source_key: key,
            },
            Origin::LocalFile { .. } => {
                return Err(
                    DbError::Corrupt(join3("publication ", uuid_text(id).as_str(), " origin")),
                );
            },
        };
        assert(origin == moved_origin(was.origin, key));
        if self.is_origin_taken(&origin, id) {
            return Err(taken());
        }
        let to = &origin;
        let step = |p: &Publication| -> (q: Publication)
            ensures q@ == (PublicationView { origin: *to, ..p@ })
        {
            let mut q = p.clone();
            q.origin = to.clone();
            q
        };
        let ghost f = |p: PublicationView|
            PublicationView { origin: moved_origin(was.origin, key), ..p };
        proof {
            lemma_same_origin(origin);
            lemma_origin_changed(before, id, f, origin);
        }
        self.change_publication(id, step, Ghost(f));
        Ok(())
    }

    /// Records since when a local file has been gone, or that it is back.
    pub fn set_missing_since(&mut self, id: Uuid, at: Option<Timestamp>)
        requires
            old(self).wf(),
        ensures
            final(self).wf(),
            final(self)@ == (DbView {
                publications: with_publication(
                    old(self)@.publications,
                    id,
                    |p: PublicationView| PublicationView { missing_since: at, ..p },
                ),
                ..old(self)@
            }),
            others_unchanged(old(self)@.publications, final(self)@.publications, id),
            forall|i: int|
                0 <= i < old(self)@.publications.len() && old(self)@.publications[i].id == id ==> {
                    let p = old(self)@.publications[i];
                    let q = #[trigger] final(self)@.publications[i];
                    q.missing_since == at && q == PublicationView { missing_since: q.missing_since, ..p }
                },
    {
        let step = |p: &Publication| -> (q: Publication)
            ensures q@ == (PublicationView { missing_since: at, ..p@ })
        {
            let mut q = p.clone();
            q.missing_since = at;
            q
        };
        let ghost f = |p: PublicationView| PublicationView { missing_since: at, ..p };
        proof {
            lemma_publications_changed(self@, id, f);
        }
        self.change_publication(id, step, Ghost(f));
    }

    /// Refreshes what a scan tells of a local file, but for its title.
    pub fn update_local_metadata(
        &mut self,
        id: Uuid,
        description: Option<String>,
        cover_url: Option<String>,
    )
        requires
            old(self).wf(),
        ensures
            final(self).wf(),
            final(self)@ == (DbView {
                publications: with_publication(
                    old(self)@.publications,
                    id,
                    |p: PublicationView| PublicationView { description, cover_url, ..p },
                ),
                ..old(self)@
            }),
            others_unchanged(old(self)@.publications, final(self)@.publications, id),
            forall|i: int|
                0 <= i < old(self)@.publications.len() && old(self)@.publications[i].id == id ==> {
                    let p = old(self)@.publications[i];
                    let q = #[trigger] final(self)@.publications[i];
                    q.description == description && q.cover_url == cover_url && q == PublicationView {
                        description: q.description,
                        cover_url: q.cover_url,
                        ..p
                    }
                },
    {
        let d = &description;
        let c = &cover_url;
        let step = |p: &Publication| -> (q: Publication)
            ensures q@ == (PublicationView { description: *d, cover_url: *c, ..p@ })
        {
            let mut q = p.clone();
            q.description = d.clone();
            q.cover_url = c.clone();
            q
        };
        let ghost f = |p: PublicationView| PublicationView { description, cover_url, ..p };
        proof {
            lemma_publications_changed(self@, id, f);
        }
        self.change_publication(id, step, Ghost(f));
    }

    /// Replaces a publication's genres.
    pub fn set_genres(&mut self, publication_id: Uuid, genres: &Vec<String>)
        requires
            old(self).wf(),
        ensures
            final(self).wf(),
            final(self)@ == (DbView {
                publications: with_publication(
                    old(self)@.publications,
                    publication_id,
                    |p: PublicationView| PublicationView { genres: distinct_genres(genres@), ..p },
                ),
                ..old(self)@
            }),
            others_unchanged(old(self)@.publications, final(self)@.publications, publication_id),
            forall|i: int|
                0 <= i < old(self)@.publications.len() && old(self)@.publications[i].id == publication_id ==> {
                    let p = old(self)@.publications[i];
                    let q = #[trigger] final(self)@.publications[i];
                    same_texts(q.genres, genres@) && no_text_twice(q.genres) && q == PublicationView { genres: q.genres, ..p }
                },
    {
        proof {
            lemma_distinct_genres(genres@);
        }
        let step = |p: &Publication| -> (q: Publication)
            ensures q@ == (PublicationView { genres: distinct_genres(genres@), ..p@ })
        {
            let mut q = p.clone();
            q.genres = dedup_genres(genres);
            q
        };
        let ghost f = |p: PublicationView| PublicationView { genres: distinct_genres(genres@), ..p };
        proof {
            lemma_publications_changed(self@, publication_id, f);
        }
        self.change_publication(publication_id, step, Ghost(f));
    }

    /// Records when a publication was last checked.
    pub fn set_last_checked(&mut self, id: Uuid, at: Timestamp)
        requires
            old(self).wf(),
        ensures
            final(self).wf(),
            final(self)@ == (DbView {
                publications: with_publication(
                    old(self)@.publications,
                    id,
                    |p: PublicationView| PublicationView { last_checked_at: Some(at), ..p },
                ),
                ..old(self)@
            }),
            others_unchanged(old(self)@.publications, final(self)@.publications, id),
            forall|i: int|
                0 <= i < old(self)@.publications.len() && old(self)@.publications[i].id == id ==> {
                    let p = old(self)@.publications[i];
                    let q = #[trigger] final(self)@.publications[i];
                    q.last_checked_at == Some(at) && q == PublicationView { last_checked_at: q.last_checked_at, ..p }
                },
    {
        let step = |p: &Publication| -> (q: Publication)
            ensures q@ == (PublicationView { last_checked_at: Some(at), ..p@ })
        {
            let mut q = p.clone();
            q.last_checked_at = Some(at);
            q
        };
        let ghost f = |p: PublicationView| PublicationView { last_checked_at: Some(at), ..p };
        proof {
            lemma_publications_changed(self@, id, f);
        }
        self.change_publication(id, step, Ghost(f));
    }

    /// Sets whether new units of a publication are downloaded as they appear.
    pub fn set_auto_download(&mut self, id: Uuid, auto_download: bool) -> (r: Result<
        Publication,
        DbError,
    >)
        requires
            old(self).wf(),
        ensures
            final(self).wf(),
            final(self)@ == (DbView {
                publications: with_publication(
                    old(self)@.publications,
                    id,
                    |p: PublicationView| PublicationView { auto_download, ..p },
                ),
                ..old(self)@
            }),
            match r {
                Ok(p) => has_publication(old(self)@.publications, id) && p@ == shown(
                    publication_of(final(self)@.publications, id),
                ),
                Err(e) => !has_publication(old(self)@.publications, id) && e == DbError::NotFound,
            },
            others_unchanged(old(self)@.publications, final(self)@.publications, id),
            forall|i: int|
                0 <= i < old(self)@.publications.len() && old(self)@.publications[i].id == id ==> {
                    let p = old(self)@.publications[i];
                    let q = #[trigger] final(self)@.publications[i];
                    q.auto_download == auto_download && q == PublicationView { auto_download: q.auto_download, ..p }
                },
    {
        let step = |p: &Publication| -> (q: Publication)
            ensures q@ == (PublicationView { auto_download, ..p@ })
        {
            let mut q = p.clone();
            q.auto_download = auto_download;
            q
        };
        let ghost f = |p: PublicationView| PublicationView { auto_download, ..p };
        proof {
            lemma_publications_changed(self@, id, f);
            lemma_same_identifiers(self@, with_publication(self@.publications, id, f));
        }
        self.change_publication(id, step, Ghost(f));
        self.get_publication(id)
    }

    /// Moves a publication to a category, which must be there.
    pub fn set_category(&mut self, id: Uuid, category: &str) -> (r: Result<Publication, DbError>)
        requires
            old(self).wf(),
        ensures
            final(self).wf(),
            if !has_category(old(self)@.categories, category@) {
                &&& final(self)@ == old(self)@
                &&& r matches Err(DbError::Constraint(m)) && m@ == "unknown category "@ + debug_text(
                    category@,
                )
            } else if !has_publication(old(self)@.publications, id) {
                final(self)@ == old(self)@ && r == Err::<Publication, DbError>(DbError::NotFound)
            } else {
                exists|c: String|
                    c@ == category@ && final(self)@ == (DbView {
                        publications: with_publication(
                            old(self)@.publications,
                            id,
                            #[trigger] in_category(c),
                        ),
                        ..old(self)@
                    }) && (r matches Ok(p) && p@ == shown(publication_of(final(self)@.publications, id)))
            },
            others_unchanged(old(self)@.publications, final(self)@.publications, id),
            r is Ok <==> publication_there(old(self)@.publications, id) && exists|c: int|
                0 <= c < old(self)@.categories.len() && (#[trigger] old(self)@.categories[c]).id@
                    == category@,
            r is Err ==> final(self)@ == old(self)@,
            r is Ok ==> forall|i: int|
                0 <= i < old(self)@.publications.len() && old(self)@.publications[i].id == id ==> {
                    let p = old(self)@.publications[i];
                    let q = #[trigger] final(self)@.publications[i];
                    q.category@ == category@ && q == PublicationView { category: q.category, ..p }
                },
    {
        if !self.knows_category(category) {
            return Err(
                DbError::Constraint(join2("unknown category ", quoted(category).as_str())),
            );
        }
        if self.find_publication(id).is_none() {
            return Err(DbError::NotFound);
        }
        let c = category.to_owned();
        let to = &c;
        let step = |p: &Publication| -> (q: Publication)
            ensures q@ == (PublicationView { category: *to, ..p@ })
        {
            let mut q = p.clone();
            q.category = to.clone();
            q
        };
        let ghost f = in_category(c);
        proof {
            lemma_publications_changed(self@, id, f);
            lemma_same_identifiers(self@, with_publication(self@.publications, id, f));
        }
        self.change_publication(id, step, Ghost(f));
        self.get_publication(id)
    }

    /// Removes a publication and all that hangs on it.
    pub fn delete_publication(&mut self, id: Uuid) -> (r: Result<(), DbError>)
        requires
            old(self).wf(),
        ensures
            final(self).wf(),
            match r {
                Ok(_) => has_publication(old(self)@.publications, id) && final(self)@
                    == without_publication(old(self)@, id),
                Err(e) => !has_publication(old(self)@.publications, id) && final(self)@ == old(self)@
                    && e == DbError::NotFound,
            },
    {
        if self.find_publication(id).is_none() {
            return Err(DbError::NotFound);
        }
        let ghost before = self@;
        proof {
            lemma_without_publication(before, id);
        }
        let other = |p: &Publication| -> (b: bool)
            ensures b == (p.id != id)
        { p.id != id };
        let ghost rows = self.publications@;
        retain(&mut self.publications, other, Ghost(|p: Publication| p.id != id));
        proof {
            lemma_views_filtered(rows, id);
        }
        let elsewhere = |u: &ReadingUnit| -> (b: bool)
            ensures b == (u.publication_id != id)
        { u.publication_id != id };
        retain(&mut self.units, elsewhere, Ghost(|u: ReadingUnit| u.publication_id != id));
        let units = &self.units;
        let ghost left = self.units@;
        let placed = |m: &ReadMark| -> (b: bool)
            ensures b == has_unit(units@, m.unit_id)
        {
            let unit_id = m.unit_id;
            let is_it = |u: &ReadingUnit| -> (b: bool)
                ensures b == (u.id == unit_id)
            { u.id == unit_id };
            any(units, is_it, Ghost(|u: ReadingUnit| u.id == unit_id))
        };
        retain(&mut self.marks, placed, Ghost(|m: ReadMark| has_unit(left, m.unit_id)));
        let of_others = |e: &JournalEntry| -> (b: bool)
            ensures b == (e.event.publication_id != id)
        { e.event.publication_id != id };
        retain(
            &mut self.journal,
            of_others,
            Ghost(|e: JournalEntry| e.event.publication_id != id),
        );
        assert(self@ =~= without_publication(before, id));
        Ok(())
    }

    /// The keys of a source's tracked titles, and the publications that track them.
    pub fn library_keys(&self, source_id: &str) -> (r: Vec<(String, Uuid)>)
        ensures
            r@ == keys_of(self@.publications, source_id@),
    {
        let mut out: Vec<(String, Uuid)> = Vec::new();
        let mut i: usize = 0;
        assert(self@.publications.take(0) =~= Seq::empty());
        while i < self.publications.len()
            invariant
                i <= self.publications@.len(),
                self@.publications == publication_views(self.publications@),
                out@ == keys_of(self@.publications.take(i as int), source_id@),
            decreases self.publications@.len() - i,
        {
            let p = &self.publications[i];
            assert(self@.publications.take(i + 1).drop_last() =~= self@.publications.take(i as int));
            assert(self@.publications.take(i + 1).last() == p@);
            match &p.origin {
                Origin::Source { source_id: s, source_key } => {
                    if same(s.as_str(), source_id) {
                        out.push((source_key.clone(), p.id));
                    }
                },
                Origin::LocalFile { .. } => {},
            }
            i += 1;
        }
        assert(self@.publications.take(self@.publications.len() as int) =~= self@.publications);
        out
    }

    /// The title of a publication.
    pub fn publication_title(&self, id: Uuid) -> (r: Option<String>)
        requires
            self.wf(),
        ensures
            r == if has_publication(self@.publications, id) {
                Some(publication_of(self@.publications, id).title)
            } else {
                None
            },
    {
        match self.find_publication(id) {
            Some(i) => {
                proof {
                    let k = choose|k: int|
                        0 <= k < self@.publications.len() && (#[trigger] self@.publications[k]).id == id;
                    assert(self@.publications[i as int].id == id);
                    assert(k == i);
                }
                Some(self.publications[i].title.clone())
            },
            None => None,
        }
    }

    /// The sums over a publication's units, for a reader or for nobody in particular.
    pub fn library_rollup(&self, reader: Option<Uuid>, publication_id: Uuid) -> (r: LibraryRollup)
        ensures
            r == rollup_of(self@, reader, publication_id),
    {
        let own = |u: &ReadingUnit| -> (b: bool)
            ensures b == (u.publication_id == publication_id)
        { u.publication_id == publication_id };
        let rows = pick(
            &self.units,
            own,
            Ghost(|u: ReadingUnit| u.publication_id == publication_id),
        );
        let saved = |u: &ReadingUnit| -> (b: bool)
            ensures b == (u.download is Downloaded)
        {
            match u.download {
                DownloadState::Downloaded { .. } => true,
                _ => false,
            }
        };
        let downloaded = count(&rows, saved, Ghost(|u: ReadingUnit| u.download is Downloaded));
        let unread_here = |u: &ReadingUnit| -> (b: bool)
            ensures b == unread_for(self@.marks, reader, *u)
        {
            match reader {
                Some(user) => !self.is_marked(user, u.id),
                None => true,
            }
        };
        let unread = count(
            &rows,
            unread_here,
            Ghost(|u: ReadingUnit| unread_for(self@.marks, reader, u)),
        );
        let mut latest: Option<Timestamp> = None;
        let mut i: usize = 0;
        assert(rows@.take(0) =~= Seq::empty());
        while i < rows.len()
            invariant
                i <= rows@.len(),
                latest == latest_seen(rows@.take(i as int)),
            decreases rows@.len() - i,
        {
            assert(rows@.take(i + 1).drop_last() =~= rows@.take(i as int));
            latest = match latest {
                None => Some(rows[i].fetched_at),
                Some(b) => if b.not_after(&rows[i].fetched_at) {
                    Some(rows[i].fetched_at)
                } else {
                    Some(b)
                },
            };
            i += 1;
        }
        assert(rows@.take(rows@.len() as int) =~= rows@);
        LibraryRollup {
            unit_count: to_count(rows.len()),
            downloaded_count: to_count(downloaded),
            unread_count: to_count(unread),
            latest_unit_at: latest,
        }
    }

    /// Whether a reader has marked a unit.
    pub(crate) fn is_marked(&self, user_id: Uuid, unit_id: Uuid) -> (r: bool)
        ensures
            r == marked(self@.marks, user_id, unit_id),
    {
        let hit = |m: &ReadMark| -> (b: bool)
            ensures b == (m.user_id == user_id && m.unit_id == unit_id)
        { m.user_id == user_id && m.unit_id == unit_id };
        any(&self.marks, hit, Ghost(|m: ReadMark| m.user_id == user_id && m.unit_id == unit_id))
    }

    /// The title of a unit.
    pub fn title_of_unit(&self, id: Uuid) -> (r: Option<String>)
        requires
            self.wf(),
        ensures
            r == unit_title(self@.units, id),
    {
        let is_it = |u: &ReadingUnit| -> (b: bool)
            ensures b == (u.id == id)
        { u.id == id };
        match position(&self.units, is_it, Ghost(|u: ReadingUnit| u.id == id)) {
            Some(i) => {
                proof {
                    assert(self@.units[i as int].id == id);
                    let k = choose|k: int| 0 <= k < self@.units.len() && (#[trigger] self@.units[k]).id == id;
                    assert(k == i);
                }
                Some(self.units[i].title.clone())
            },
            None => None,
        }
    }

    /// A reader's place in a publication, and the title of the unit it is in.
    pub fn latest_place(&self, user_id: Uuid, publication_id: Uuid) -> (r: Option<
        (Locator, Option<String>),
    >)
        requires
            self.wf(),
        ensures
            r == match position_in(self@.journal, user_id, publication_id) {
                Some(l) => Some((l, unit_title(self@.units, l.unit_id))),
                None => None,
            },
    {
        match self.latest_position(user_id, publication_id) {
            Some(l) => {
                let title = self.title_of_unit(l.unit_id);
                Some((l, title))
            },
            None => None,
        }
    }
}

/// The keys of a source's tracked titles, and the publications that track them.
pub open spec fn keys_of(s: Seq<PublicationView>, source_id: Seq<char>) -> Seq<(String, Uuid)>
    decreases s.len(),
{
    if s.len() == 0 {
        Seq::empty()
    } else {
        let before = keys_of(s.drop_last(), source_id);
        match s.last().origin {
            Origin::Source { source_id: sid, source_key } => if sid@ == source_id {
                before.push((source_key, s.last().id))
            } else {
                before
            },
            Origin::LocalFile { .. } => before,
        }
    }
}

/// A source's title under another key.
pub open spec fn moved_origin(origin: Origin, key: String) -> Origin {
    match origin {
        Origin::Source { source_id, .. } => Origin::Source { source_id, source_key: key },
        Origin::LocalFile { .. } => origin,
    }
}

/// A publication cannot take a key: it is of no source, or the key is another's.
pub open spec fn key_refused(s: Seq<PublicationView>, id: Uuid, key: String) -> bool {
    has_publication(s, id) && {
        let origin = publication_of(s, id).origin;
        origin is LocalFile || origin_taken(s, moved_origin(origin, key), id)
    }
}

/// Why a publication cannot take a key.
pub open spec fn key_refusal(s: Seq<PublicationView>, id: Uuid, e: DbError) -> bool {
    if publication_of(s, id).origin is Source {
        is_taken(e)
    } else {
        e matches DbError::Corrupt(m) && m@ == "publication "@ + hyphenated_text(id) + " origin"@
    }
}

/// The tables with a publication under another key, where it can take it.
pub open spec fn key_moved(db: DbView, id: Uuid, key: String) -> DbView {
    if has_publication(db.publications, id) && !key_refused(db.publications, id, key) {
        let origin = moved_origin(publication_of(db.publications, id).origin, key);
        DbView {
            publications: with_publication(
                db.publications,
                id,
                |p: PublicationView| PublicationView { origin, ..p },
            ),
            ..db
        }
    } else {
        db
    }
}

/// The change of pointing a publication at a local path, where it is found again.
pub open spec fn at_path(path: String) -> spec_fn(PublicationView) -> PublicationView {
    |p: PublicationView|
        PublicationView { origin: Origin::LocalFile { path }, missing_since: None, ..p }
}

/// The change of moving a publication to a category.
pub open spec fn in_category(c: String) -> spec_fn(PublicationView) -> PublicationView {
    |p: PublicationView| PublicationView { category: c, ..p }
}

/// An origin is the same as itself.
proof fn lemma_same_origin(o: Origin)
    ensures
        same_origin(o, o),
{
}

/// Doing something to a publication that is not there changes nothing.
proof fn lemma_absent(db: DbView, id: Uuid, f: spec_fn(PublicationView) -> PublicationView)
    requires
        !has_publication(db.publications, id),
    ensures
        with_publication(db.publications, id, f) == db.publications,
{
    assert forall|i: int| 0 <= i < db.publications.len() implies (#[trigger] db.publications[i]).id
        != id by {}
    assert(with_publication(db.publications, id, f) =~= db.publications);
}

/// Taking rows out of a table takes out what they stand for.
proof fn lemma_views_filtered(rows: Seq<Publication>, id: Uuid)
    ensures
        publication_views(rows.filter(|p: Publication| p.id != id)) == publication_views(rows).filter(
            |p: PublicationView| p.id != id,
        ),
    decreases rows.len(),
{
    reveal(Seq::filter);
    let p = |x: Publication| x.id != id;
    let q = |x: PublicationView| x.id != id;
    if rows.len() > 0 {
        lemma_views_filtered(rows.drop_last(), id);
        assert(publication_views(rows).drop_last() =~= publication_views(rows.drop_last()));
        let x = rows.last();
        if p(x) {
            assert(publication_views(rows.drop_last().filter(p).push(x)) =~= publication_views(
                rows.drop_last().filter(p),
            ).push(x@));
        }
    } else {
        assert(publication_views(rows.filter(p)) =~= publication_views(rows).filter(q));
    }
}

}
