//! Backups: taking one, and putting one back.

use vstd::prelude::*;

use crate::clock::{utc_now, Timestamp};
use crate::db::categories::category_order;
use crate::db::listing::by_publication;
use crate::db::progress::{
    all_appended, events_in, has_event, is_known, known_of, lemma_all_appended, lemma_known_of, lemma_nothing_appended,
    law_journal_only_grows, pushed, JournalState,
};
use crate::db::publications::{
    dedup_genres, distinct_genres, has_category, origin_taken, publication_views, shelf_order, shown, title_le, with_publication,
};
use crate::db::read_marks::{law_marking_settles, lemma_with_marks, marked_units, with_marks};
use crate::db::units::{has_key, marked};
use crate::db::{
    categories_distinct, dangling, has_publication, has_unit, is_dangling, is_taken, publications_distinct, same_origin, taken,
    units_distinct, units_placed, Db, DbError, DbView, JournalEntry, ReadMark,
};
use crate::domain::backup::{Backup, RestoreSummary, BACKUP_VERSION};
use crate::domain::progress::ProgressEvent;
use crate::domain::publication::{Category, DownloadState, Origin, Publication, PublicationView, ReadingUnit};
use crate::ids::Uuid;
use crate::order::{is_ranking, lemma_lexical_total, lemma_lexical_transitive, lemma_sorted, lemma_sorted_no_duplicates};
use crate::tables::{any, count32, kept_places, lemma_filter_contains, lemma_filter_none, lemma_filter_take, lemma_kept_places, to_count};
use crate::text::{ascii_small, same};

verus! {

/// What a backup holds.
#[verifier::ext_equal]
pub struct BackupView {
    pub categories: Seq<Category>,
    pub publications: Seq<PublicationView>,
    pub units: Seq<ReadingUnit>,
    pub read_unit_ids: Seq<Uuid>,
    pub progress: Seq<ProgressEvent>,
}

impl View for Backup {
    type V = BackupView;

    open spec fn view(&self) -> BackupView {
        BackupView {
            categories: self.categories@,
            publications: publication_views(self.publications@),
            units: self.units@,
            read_unit_ids: self.read_unit_ids@,
            progress: self.progress@,
        }
    }
}

/// Why a backup cannot be put back.
pub enum Refusal {
    /// An identifier or a key is taken.
    Taken,
    /// A row refers to nothing.
    Dangling,
}

/// The categories with those of the backup added that are not there.
pub open spec fn with_categories(s: Seq<Category>, more: Seq<Category>) -> Seq<Category>
    decreases more.len(),
{
    if more.len() == 0 {
        s
    } else {
        let before = with_categories(s, more.drop_last());
        if has_category(before, more.last().id@) {
            before
        } else {
            before.push(more.last())
        }
    }
}

/// A publication as it is put back, its genres free of repetitions.
pub open spec fn tagged(p: PublicationView, genres: Seq<String>) -> PublicationView {
    PublicationView { genres: distinct_genres(genres), ..p }
}

/// The publications with those of the backup added that are not there; those that are
/// there get the backup's genres. A new one whose title or file another publication
/// has cannot be added.
pub open spec fn with_publications(s: Seq<PublicationView>, more: Seq<PublicationView>) -> Option<
    Seq<PublicationView>,
>
    decreases more.len(),
{
    if more.len() == 0 {
        Some(s)
    } else {
        match with_publications(s, more.drop_last()) {
            None => None,
            Some(before) => {
                let p = more.last();
                if has_publication(before, p.id) {
                    Some(
                        with_publication(
                            before,
                            p.id,
                            |q: PublicationView| tagged(q, p.genres),
                        ),
                    )
                } else if origin_taken(before, p.origin, p.id) {
                    None
                } else {
                    Some(before.push(tagged(p, p.genres)))
                }
            },
        }
    }
}

/// A unit as it is put back: its pages are not in the backup, so it counts as not
/// downloaded; how many there are is still known.
pub open spec fn reset(u: ReadingUnit) -> ReadingUnit {
    ReadingUnit { download: DownloadState::Absent, read: false, ..u }
}

/// The units with those of the backup added that are not there.
pub open spec fn with_units(
    s: Seq<ReadingUnit>,
    publications: Seq<PublicationView>,
    more: Seq<ReadingUnit>,
) -> Result<Seq<ReadingUnit>, Refusal>
    decreases more.len(),
{
    if more.len() == 0 {
        Ok(s)
    } else {
        match with_units(s, publications, more.drop_last()) {
            Err(e) => Err(e),
            Ok(before) => {
                let u = more.last();
                if has_unit(before, u.id) {
                    Ok(before)
                } else if has_key(before, u.publication_id, u.source_key@) {
                    Err(Refusal::Taken)
                } else if !has_publication(publications, u.publication_id) {
                    Err(Refusal::Dangling)
                } else {
                    Ok(before.push(reset(u)))
                }
            },
        }
    }
}

/// Those of the identifiers that are of units.
pub open spec fn known_ids(units: Seq<ReadingUnit>, ids: Seq<Uuid>) -> Seq<Uuid> {
    ids.filter(|id: Uuid| has_unit(units, id))
}

/// The tables with a backup put back for a reader.
pub open spec fn restored(db: DbView, user_id: Uuid, b: BackupView, now: Timestamp) -> Result<
    DbView,
    Refusal,
> {
    match with_publications(db.publications, b.publications) {
        None => Err(Refusal::Taken),
        Some(publications) => match with_units(db.units, publications, b.units) {
            Err(e) => Err(e),
            Ok(units) => Ok(
                pushed(
                    DbView {
                        categories: with_categories(db.categories, b.categories),
                        publications,
                        units,
                        marks: with_marks(db.marks, user_id, known_ids(units, b.read_unit_ids), now),
                        ..db
                    },
                    user_id,
                    b.progress,
                ),
            ),
        },
    }
}

/// How much a restore added.
pub open spec fn summary_of(before: DbView, after: DbView) -> RestoreSummary {
    RestoreSummary {
        publications: count32(after.publications.len() - before.publications.len()),
        units: count32(after.units.len() - before.units.len()),
        categories: count32(after.categories.len() - before.categories.len()),
        read_marks: count32(after.marks.len() - before.marks.len()),
        progress_events: count32(after.journal.len() - before.journal.len()),
    }
}

/// What putting a backup back does: all of it, or nothing.
pub open spec fn restore_outcome(
    before: DbView,
    user_id: Uuid,
    b: BackupView,
    now: Timestamp,
    after: DbView,
    r: Result<RestoreSummary, DbError>,
) -> bool {
    match restored(before, user_id, b, now) {
        Ok(db) => after == db && r == Ok::<RestoreSummary, DbError>(summary_of(before, db)),
        Err(Refusal::Taken) => after == before && (r matches Err(e) && is_taken(e)),
        Err(Refusal::Dangling) => after == before && (r matches Err(e) && is_dangling(e)),
    }
}

// ---- what a restore keeps ----

/// Adding categories keeps them distinct, and those that were there in front.
proof fn lemma_with_categories(s: Seq<Category>, more: Seq<Category>)
    requires
        categories_distinct(s),
    ensures
        categories_distinct(with_categories(s, more)),
        with_categories(s, more).len() >= s.len(),
        with_categories(s, more).len() <= s.len() + more.len(),
        with_categories(s, more).take(s.len() as int) == s,
        forall|i: int|
            0 <= i < more.len() ==> has_category(with_categories(s, more), (#[trigger] more[i]).id@),
    decreases more.len(),
{
    if more.len() > 0 {
        let init = more.drop_last();
        lemma_with_categories(s, init);
        let before = with_categories(s, init);
        let out = with_categories(s, more);
        assert(out.take(s.len() as int) =~= before.take(s.len() as int));
        if !has_category(before, more.last().id@) {
            assert forall|i: int, j: int|
                0 <= i < out.len() && 0 <= j < out.len() && (#[trigger] out[i]).id@ == (#[trigger] out[j]).id@ implies i
                == j by {
                if i < before.len() && j < before.len() {
                    assert(before[i].id@ == before[j].id@);
                } else if i < before.len() {
                    assert(before[i].id@ == more.last().id@);
                } else if j < before.len() {
                    assert(before[j].id@ == more.last().id@);
                }
            }
        }
        assert forall|i: int| 0 <= i < more.len() implies has_category(out, (#[trigger] more[i]).id@) by {
            if i < init.len() {
                assert(init[i] == more[i]);
                let k = choose|k: int| 0 <= k < before.len() && (#[trigger] before[k]).id@ == more[i].id@;
                assert(out[k].id@ == more[i].id@);
            } else if !has_category(before, more.last().id@) {
                assert(out[out.len() - 1].id@ == more[i].id@);
            }
        }
    } else {
        assert(s.take(s.len() as int) =~= s);
    }
}

/// The genres that the last of the backup's publications with the identifier has.
pub open spec fn last_genres(more: Seq<PublicationView>, id: Uuid) -> Option<Seq<String>>
    decreases more.len(),
{
    if more.len() == 0 {
        None
    } else if more.last().id == id {
        Some(more.last().genres)
    } else {
        last_genres(more.drop_last(), id)
    }
}

/// A publication with the backup's genres, where the backup has it.
pub open spec fn retagged(p: PublicationView, more: Seq<PublicationView>) -> PublicationView {
    match last_genres(more, p.id) {
        Some(g) => tagged(p, g),
        None => p,
    }
}

/// Adding publications keeps them distinct; those that were there stay in front, with
/// nothing but their genres changed; each of the backup's is there.
proof fn lemma_with_publications(s: Seq<PublicationView>, more: Seq<PublicationView>)
    requires
        publications_distinct(s),
        with_publications(s, more) is Some,
    ensures
        ({
            let out = with_publications(s, more)->0;
            &&& publications_distinct(out)
            &&& s.len() <= out.len() <= s.len() + more.len()
            &&& forall|i: int|
                0 <= i < s.len() ==> #[trigger] out[i] == (PublicationView { genres: out[i].genres, ..s[i] })
            &&& forall|id: Uuid| has_publication(s, id) ==> #[trigger] has_publication(out, id)
            &&& forall|k: int| 0 <= k < more.len() ==> has_publication(out, (#[trigger] more[k]).id)
            &&& forall|i: int| 0 <= i < out.len() ==> retagged(#[trigger] out[i], more) == out[i]
        }),
    decreases more.len(),
{
    if more.len() > 0 {
        let init = more.drop_last();
        lemma_with_publications(s, init);
        let before = with_publications(s, init)->0;
        let out = with_publications(s, more)->0;
        let p = more.last();
        if has_publication(before, p.id) {
            assert forall|i: int| 0 <= i < out.len() implies (#[trigger] out[i]).id == before[i].id
                && out[i].origin == before[i].origin && out[i] == (if before[i].id == p.id {
                tagged(before[i], p.genres)
            } else {
                before[i]
            }) by {}
            assert forall|i: int| 0 <= i < s.len() implies #[trigger] out[i] == (PublicationView {
                genres: out[i].genres,
                ..s[i]
            }) by {
                assert(before[i] == (PublicationView { genres: before[i].genres, ..s[i] }));
            }
            assert forall|id: Uuid| has_publication(before, id) implies #[trigger] has_publication(out, id) by {
                let i = choose|i: int| 0 <= i < before.len() && (#[trigger] before[i]).id == id;
                assert(out[i].id == id);
            }
        } else {
            assert forall|i: int, j: int|
                0 <= i < out.len() && 0 <= j < out.len() && (#[trigger] out[i]).id == (#[trigger] out[j]).id implies i
                == j by {
                if i < before.len() && j < before.len() {
                    assert(before[i].id == before[j].id);
                } else if i < before.len() {
                    assert(before[i].id == p.id);
                } else if j < before.len() {
                    assert(before[j].id == p.id);
                }
            }
            assert forall|i: int, j: int|
                0 <= i < out.len() && 0 <= j < out.len() && same_origin(
                    (#[trigger] out[i]).origin,
                    (#[trigger] out[j]).origin,
                ) implies i == j by {
                if i < before.len() && j < before.len() {
                    assert(same_origin(before[i].origin, before[j].origin));
                } else if i < before.len() {
                    assert(before[i].id != p.id);
                    assert(same_origin(before[i].origin, p.origin));
                } else if j < before.len() {
                    assert(before[j].id != p.id);
                    assert(same_origin(before[j].origin, p.origin));
                }
            }
            assert forall|i: int| 0 <= i < s.len() implies #[trigger] out[i] == (PublicationView {
                genres: out[i].genres,
                ..s[i]
            }) by {
                assert(before[i] == (PublicationView { genres: before[i].genres, ..s[i] }));
            }
            assert forall|id: Uuid| has_publication(before, id) implies #[trigger] has_publication(out, id) by {
                let i = choose|i: int| 0 <= i < before.len() && (#[trigger] before[i]).id == id;
                assert(out[i].id == id);
            }
            assert(out[out.len() - 1].id == p.id);
        }
        assert forall|k: int| 0 <= k < more.len() implies has_publication(out, (#[trigger] more[k]).id) by {
            if k < init.len() {
                assert(init[k] == more[k]);
                assert(has_publication(before, init[k].id));
            }
        }
        assert forall|i: int| 0 <= i < out.len() implies retagged(#[trigger] out[i], more) == out[i] by {
            if i < before.len() {
                assert(retagged(before[i], init) == before[i]);
            }
        }
    }
}

/// Where all of the backup's publications are there, only genres change.
proof fn lemma_all_present(s: Seq<PublicationView>, more: Seq<PublicationView>)
    requires
        forall|k: int| 0 <= k < more.len() ==> has_publication(s, (#[trigger] more[k]).id),
    ensures
        with_publications(s, more) == Some(s.map_values(|p: PublicationView| retagged(p, more))),
    decreases more.len(),
{
    if more.len() == 0 {
        assert(s.map_values(|p: PublicationView| retagged(p, more)) =~= s);
    } else {
        let init = more.drop_last();
        assert forall|k: int| 0 <= k < init.len() implies has_publication(s, (#[trigger] init[k]).id) by {
            assert(init[k] == more[k]);
        }
        lemma_all_present(s, init);
        let before = s.map_values(|p: PublicationView| retagged(p, init));
        let x = more.last();
        assert(has_publication(s, more[more.len() - 1].id));
        let i = choose|i: int| 0 <= i < s.len() && (#[trigger] s[i]).id == x.id;
        assert(before[i].id == x.id);
        assert(has_publication(before, x.id));
        assert(with_publication(before, x.id, |q: PublicationView| tagged(q, x.genres)) =~= s.map_values(
            |p: PublicationView| retagged(p, more),
        ));
    }
}

/// Adding units keeps them distinct and in place; those that were there stay in front
/// as they are; each of the backup's is there.
proof fn lemma_with_units(
    s: Seq<ReadingUnit>,
    publications: Seq<PublicationView>,
    more: Seq<ReadingUnit>,
)
    requires
        units_distinct(s),
        units_placed(s, publications),
        with_units(s, publications, more) is Ok,
    ensures
        ({
            let out = with_units(s, publications, more)->Ok_0;
            &&& units_distinct(out)
            &&& units_placed(out, publications)
            &&& s.len() <= out.len() <= s.len() + more.len()
            &&& out.take(s.len() as int) == s
            &&& forall|i: int|
                s.len() <= i < out.len() ==> (#[trigger] out[i]).download is Absent
            &&& forall|id: Uuid| has_unit(s, id) ==> #[trigger] has_unit(out, id)
            &&& forall|k: int| 0 <= k < more.len() ==> has_unit(out, (#[trigger] more[k]).id)
        }),
    decreases more.len(),
{
    if more.len() > 0 {
        let init = more.drop_last();
        lemma_with_units(s, publications, init);
        let before = with_units(s, publications, init)->Ok_0;
        let out = with_units(s, publications, more)->Ok_0;
        let u = more.last();
        assert(out.take(s.len() as int) =~= before.take(s.len() as int));
        assert forall|id: Uuid| has_unit(before, id) implies #[trigger] has_unit(out, id) by {
            let i = choose|i: int| 0 <= i < before.len() && (#[trigger] before[i]).id == id;
            assert(out[i].id == id);
        }
        if !has_unit(before, u.id) {
            assert(out[out.len() - 1].id == u.id);
            assert forall|i: int, j: int|
                0 <= i < out.len() && 0 <= j < out.len() && (#[trigger] out[i]).id == (#[trigger] out[j]).id implies i
                == j by {
                if i < before.len() && j < before.len() {
                    assert(before[i].id == before[j].id);
                } else if i < before.len() {
                    assert(before[i].id == u.id);
                } else if j < before.len() {
                    assert(before[j].id == u.id);
                }
            }
            assert forall|i: int, j: int|
                0 <= i < out.len() && 0 <= j < out.len() && (#[trigger] out[i]).publication_id == (
                #[trigger] out[j]).publication_id && out[i].source_key@ == out[j].source_key@ implies i == j by {
                if i < before.len() && j < before.len() {
                    assert(before[i].publication_id == before[j].publication_id);
                } else if i < before.len() {
                    assert(before[i].publication_id == u.publication_id);
                } else if j < before.len() {
                    assert(before[j].publication_id == u.publication_id);
                }
            }
            assert forall|i: int| 0 <= i < out.len() implies has_publication(
                publications,
                (#[trigger] out[i]).publication_id,
            ) by {
                if i < before.len() {
                    assert(has_publication(publications, before[i].publication_id));
                }
            }
        }
        assert forall|k: int| 0 <= k < more.len() implies has_unit(out, (#[trigger] more[k]).id) by {
            if k < init.len() {
                assert(init[k] == more[k]);
                assert(has_unit(before, init[k].id));
            }
        }
    } else {
        assert(s.take(s.len() as int) =~= s);
    }
}

/// Where all of the backup's units are there, nothing changes.
proof fn lemma_units_present(
    s: Seq<ReadingUnit>,
    publications: Seq<PublicationView>,
    more: Seq<ReadingUnit>,
)
    requires
        forall|k: int| 0 <= k < more.len() ==> has_unit(s, (#[trigger] more[k]).id),
    ensures
        with_units(s, publications, more) == Ok::<Seq<ReadingUnit>, Refusal>(s),
    decreases more.len(),
{
    if more.len() > 0 {
        let init = more.drop_last();
        assert forall|k: int| 0 <= k < init.len() implies has_unit(s, (#[trigger] init[k]).id) by {
            assert(init[k] == more[k]);
        }
        lemma_units_present(s, publications, init);
        assert(has_unit(s, more[more.len() - 1].id));
    }
}

/// Where all of the backup's categories are there, nothing changes.
proof fn lemma_categories_present(s: Seq<Category>, more: Seq<Category>)
    requires
        forall|k: int| 0 <= k < more.len() ==> has_category(s, (#[trigger] more[k]).id@),
    ensures
        with_categories(s, more) == s,
    decreases more.len(),
{
    if more.len() > 0 {
        let init = more.drop_last();
        assert forall|k: int| 0 <= k < init.len() implies has_category(s, (#[trigger] init[k]).id@) by {
            assert(init[k] == more[k]);
        }
        lemma_categories_present(s, init);
        assert(has_category(s, more[more.len() - 1].id@));
    }
}

/// The known identifiers are of units.
proof fn lemma_known_ids(units: Seq<ReadingUnit>, ids: Seq<Uuid>)
    ensures
        forall|i: int|
            0 <= i < known_ids(units, ids).len() ==> has_unit(units, #[trigger] known_ids(units, ids)[i]),
        known_ids(units, ids).len() <= ids.len(),
        forall|x: Uuid| #[trigger] known_ids(units, ids).contains(x) <==> ids.contains(x) && has_unit(units, x),
{
    let p = |id: Uuid| has_unit(units, id);
    lemma_kept_places(ids, p);
    crate::tables::lemma_filter_len(ids, p);
    lemma_filter_contains(ids, p);
    assert forall|i: int| 0 <= i < known_ids(units, ids).len() implies has_unit(
        units,
        #[trigger] known_ids(units, ids)[i],
    ) by {
        let _ = kept_places(ids, p)[i];
    }
}

/// The tables before the journal of a backup is put back.
spec fn shelved(db: DbView, user_id: Uuid, b: BackupView, now: Timestamp) -> DbView {
    let publications = with_publications(db.publications, b.publications)->0;
    let units = with_units(db.units, publications, b.units)->Ok_0;
    DbView {
        categories: with_categories(db.categories, b.categories),
        publications,
        units,
        marks: with_marks(db.marks, user_id, known_ids(units, b.read_unit_ids), now),
        ..db
    }
}

/// A restore keeps the tables' promises up to the journal.
proof fn lemma_shelved(db: DbView, user_id: Uuid, b: BackupView, now: Timestamp)
    requires
        db.wf(),
        restored(db, user_id, b, now) is Ok,
    ensures
        shelved(db, user_id, b, now).wf(),
        shelved(db, user_id, b, now).marks.len() >= db.marks.len(),
{
    let out = shelved(db, user_id, b, now);
    lemma_with_categories(db.categories, b.categories);
    lemma_with_publications(db.publications, b.publications);
    assert forall|i: int| 0 <= i < db.units.len() implies has_publication(
        out.publications,
        (#[trigger] db.units[i]).publication_id,
    ) by {
        assert(has_publication(db.publications, db.units[i].publication_id));
    }
    lemma_with_units(db.units, out.publications, b.units);
    assert forall|i: int| 0 <= i < db.marks.len() implies has_unit(
        out.units,
        (#[trigger] db.marks[i]).unit_id,
    ) by {
        assert(has_unit(db.units, db.marks[i].unit_id));
    }
    lemma_known_ids(out.units, b.read_unit_ids);
    lemma_with_marks(db.marks, out.units, user_id, known_ids(out.units, b.read_unit_ids), now);
    assert forall|i: int| 0 <= i < db.journal.len() implies has_publication(
        out.publications,
        (#[trigger] db.journal[i]).event.publication_id,
    ) by {
        assert(has_publication(db.publications, db.journal[i].event.publication_id));
    }
}

/// A restore only adds: what was there is still there, in front of what came; of a
/// publication nothing but the genres changes, and what comes back counts as not
/// downloaded.
pub proof fn law_restore_only_adds(db: DbView, user_id: Uuid, b: BackupView, now: Timestamp)
    requires
        db.wf(),
        restored(db, user_id, b, now) is Ok,
        db.next_seq + b.progress.len() <= i64::MAX,
    ensures
        ({
            let out = restored(db, user_id, b, now)->Ok_0;
            &&& out.categories.take(db.categories.len() as int) == db.categories
            &&& out.units.take(db.units.len() as int) == db.units
            &&& out.journal.take(db.journal.len() as int) == db.journal
            &&& forall|i: int|
                0 <= i < db.publications.len() ==> #[trigger] out.publications[i] == (PublicationView {
                    genres: out.publications[i].genres,
                    ..db.publications[i]
                })
            &&& forall|i: int|
                db.units.len() <= i < out.units.len() ==> (#[trigger] out.units[i]).download is Absent
            &&& forall|u: Uuid, x: Uuid|
                marked(db.marks, u, x) ==> #[trigger] marked(out.marks, u, x)
            &&& out.users == db.users
            &&& out.sessions == db.sessions
        }),
{
    let mid = shelved(db, user_id, b, now);
    lemma_shelved(db, user_id, b, now);
    lemma_with_categories(db.categories, b.categories);
    lemma_with_publications(db.publications, b.publications);
    assert forall|i: int| 0 <= i < db.units.len() implies has_publication(
        mid.publications,
        (#[trigger] db.units[i]).publication_id,
    ) by {
        assert(has_publication(db.publications, db.units[i].publication_id));
    }
    lemma_with_units(db.units, mid.publications, b.units);
    lemma_known_ids(mid.units, b.read_unit_ids);
    assert forall|i: int| 0 <= i < db.marks.len() implies has_unit(
        mid.units,
        (#[trigger] db.marks[i]).unit_id,
    ) by {
        assert(has_unit(db.units, db.marks[i].unit_id));
    }
    lemma_with_marks(db.marks, mid.units, user_id, known_ids(mid.units, b.read_unit_ids), now);
    law_journal_only_grows(
        JournalState { journal: mid.journal, next_seq: mid.next_seq },
        user_id,
        known_of(mid, b.progress),
    );
}

/// Putting the same backup back again changes nothing, and nothing counts as added.
pub proof fn law_restoring_again_changes_nothing(
    db: DbView,
    user_id: Uuid,
    b: BackupView,
    now: Timestamp,
    later: Timestamp,
)
    requires
        db.wf(),
        restored(db, user_id, b, now) is Ok,
        db.next_seq + b.progress.len() <= i64::MAX,
    ensures
        ({
            let once = restored(db, user_id, b, now)->Ok_0;
            &&& restored(once, user_id, b, later) == Ok::<DbView, Refusal>(once)
            &&& summary_of(once, once) == (RestoreSummary {
                publications: 0,
                units: 0,
                categories: 0,
                read_marks: 0,
                progress_events: 0,
            })
        }),
{
    let mid = shelved(db, user_id, b, now);
    let once = restored(db, user_id, b, now)->Ok_0;
    lemma_shelved(db, user_id, b, now);
    lemma_with_categories(db.categories, b.categories);
    lemma_with_publications(db.publications, b.publications);
    assert forall|i: int| 0 <= i < db.units.len() implies has_publication(
        mid.publications,
        (#[trigger] db.units[i]).publication_id,
    ) by {
        assert(has_publication(db.publications, db.units[i].publication_id));
    }
    lemma_with_units(db.units, mid.publications, b.units);
    lemma_known_ids(mid.units, b.read_unit_ids);
    assert forall|i: int| 0 <= i < db.marks.len() implies has_unit(
        mid.units,
        (#[trigger] db.marks[i]).unit_id,
    ) by {
        assert(has_unit(db.units, db.marks[i].unit_id));
    }
    let ids = known_ids(mid.units, b.read_unit_ids);
    lemma_with_marks(db.marks, mid.units, user_id, ids, now);
    lemma_all_present(once.publications, b.publications);
    assert(once.publications.map_values(
        |p: PublicationView| retagged(p, b.publications),
    ) =~= once.publications);
    lemma_units_present(once.units, once.publications, b.units);
    lemma_categories_present(once.categories, b.categories);
    assert forall|i: int| 0 <= i < ids.len() implies marked(once.marks, user_id, #[trigger] ids[i]) by {
        assert(ids.contains(ids[i]));
    }
    law_marking_settles(once.marks, user_id, ids, later);
    lemma_known_of(mid, b.progress);
    lemma_all_appended(
        JournalState { journal: mid.journal, next_seq: mid.next_seq },
        mid.publications,
        user_id,
        known_of(mid, b.progress),
    );
    assert(known_of(once, b.progress) == known_of(mid, b.progress));
    lemma_nothing_appended(
        JournalState { journal: once.journal, next_seq: once.next_seq },
        user_id,
        known_of(mid, b.progress),
    );
}

/// The tables with the rows of a backup, before any reader's state is put back.
spec fn rows_added(db: DbView, b: BackupView) -> DbView {
    let publications = with_publications(db.publications, b.publications)->0;
    DbView {
        categories: with_categories(db.categories, b.categories),
        publications,
        units: with_units(db.units, publications, b.units)->Ok_0,
        ..db
    }
}

/// Adding the rows of a backup keeps the tables' promises.
proof fn lemma_rows_added(db: DbView, b: BackupView)
    requires
        db.wf(),
        with_publications(db.publications, b.publications) is Some,
        with_units(db.units, with_publications(db.publications, b.publications)->0, b.units) is Ok,
    ensures
        rows_added(db, b).wf(),
        rows_added(db, b).publications.len() >= db.publications.len(),
        rows_added(db, b).units.len() >= db.units.len(),
        rows_added(db, b).categories.len() >= db.categories.len(),
{
    let out = rows_added(db, b);
    lemma_with_categories(db.categories, b.categories);
    lemma_with_publications(db.publications, b.publications);
    assert forall|i: int| 0 <= i < db.units.len() implies has_publication(
        out.publications,
        (#[trigger] db.units[i]).publication_id,
    ) by {
        assert(has_publication(db.publications, db.units[i].publication_id));
    }
    lemma_with_units(db.units, out.publications, b.units);
    assert forall|i: int| 0 <= i < db.marks.len() implies has_unit(
        out.units,
        (#[trigger] db.marks[i]).unit_id,
    ) by {
        assert(has_unit(db.units, db.marks[i].unit_id));
    }
    assert forall|i: int| 0 <= i < db.journal.len() implies has_publication(
        out.publications,
        (#[trigger] db.journal[i]).event.publication_id,
    ) by {
        assert(has_publication(db.publications, db.journal[i].event.publication_id));
    }
}

// ---- putting a backup back ----

/// Adds the categories that are not there.
fn add_categories(rows: &mut Vec<Category>, more: &Vec<Category>)
    ensures
        final(rows)@ == with_categories(old(rows)@, more@),
{
    let ghost start = rows@;
    let mut k: usize = 0;
    assert(more@.take(0) =~= Seq::empty());
    while k < more.len()
        invariant
            k <= more@.len(),
            rows@ == with_categories(start, more@.take(k as int)),
        decreases more@.len() - k,
    {
        let c = &more[k];
        assert(more@.take(k + 1).drop_last() =~= more@.take(k as int));
        let hit = |x: &Category| -> (b: bool)
            ensures b == (x.id@ == c.id@)
        { same(x.id.as_str(), c.id.as_str()) };
        let there = any(rows, hit, Ghost(|x: Category| x.id@ == c.id@));
        assert(there == has_category(rows@, c.id@));
        if !there {
            rows.push(c.clone());
        }
        k += 1;
    }
    assert(more@.take(more@.len() as int) =~= more@);
}

/// Whether two origins are the same title, or the same file.
fn origins_match(a: &Origin, b: &Origin) -> (r: bool)
    ensures
        r == same_origin(*a, *b),
{
    match (a, b) {
        (
            Origin::Source { source_id: i, source_key: k },
            Origin::Source { source_id: j, source_key: l },
        ) => same(i.as_str(), j.as_str()) && same(k.as_str(), l.as_str()),
        (Origin::LocalFile { path: p }, Origin::LocalFile { path: q }) => same(p.as_str(), q.as_str()),
        _ => false,
    }
}

/// Adds the publications that are not there, and refreshes the genres of those that are.
fn add_publications(rows: &mut Vec<Publication>, more: &Vec<Publication>) -> (ok: bool)
    ensures
        match with_publications(publication_views(old(rows)@), publication_views(more@)) {
            Some(out) => ok && publication_views(final(rows)@) == out,
            None => !ok,
        },
{
    let ghost start = publication_views(rows@);
    let ghost all = publication_views(more@);
    let mut k: usize = 0;
    assert(all.take(0) =~= Seq::empty());
    while k < more.len()
        invariant
            k <= more@.len(),
            start == publication_views(old(rows)@),
            all == publication_views(more@),
            with_publications(start, all.take(k as int)) == Some(publication_views(rows@)),
        decreases more@.len() - k,
    {
        let p = &more[k];
        let ghost pv = p@;
        let ghost before = publication_views(rows@);
        assert(all.take(k + 1).drop_last() =~= all.take(k as int));
        assert(all.take(k + 1).last() == pv);
        let mut there = false;
        let mut clash = false;
        let mut i: usize = 0;
        while i < rows.len()
            invariant
                i <= rows@.len(),
                pv == p@,
                before == publication_views(rows@),
                there == exists|j: int| 0 <= j < i && (#[trigger] before[j]).id == pv.id,
                clash == exists|j: int|
                    0 <= j < i && (#[trigger] before[j]).id != pv.id && same_origin(
                        before[j].origin,
                        pv.origin,
                    ),
            decreases rows@.len() - i,
        {
            assert(before[i as int] == rows@[i as int]@);
            if rows[i].id == p.id {
                there = true;
            } else if origins_match(&rows[i].origin, &p.origin) {
                clash = true;
            }
            i += 1;
        }
        assert(there == has_publication(before, pv.id));
        assert(clash == origin_taken(before, pv.origin, pv.id));
        if there {
            let ghost out = with_publication(before, pv.id, |q: PublicationView| tagged(q, pv.genres));
            let mut j: usize = 0;
            while j < rows.len()
                invariant
                    j <= rows@.len(),
                    pv == p@,
                    rows@.len() == before.len(),
                    out == with_publication(
                        before,
                        pv.id,
                        |q: PublicationView| tagged(q, pv.genres),
                    ),
                    forall|m: int| 0 <= m < j ==> (#[trigger] rows@[m])@ == out[m],
                    forall|m: int| j <= m < rows@.len() ==> (#[trigger] rows@[m])@ == before[m],
                decreases rows@.len() - j,
            {
                if rows[j].id == p.id {
                    let mut q = rows[j].clone();
                    q.genres = dedup_genres(&p.genres);
                    assert(q@ =~= out[j as int]);
                    rows.set(j, q);
                }
                j += 1;
            }
            assert(publication_views(rows@) =~= out);
        } else if clash {
            proof {
                lemma_refused(start, all, k + 1);
            }
            return false;
        } else {
            let mut q = p.clone();
            q.genres = dedup_genres(&p.genres);
            let ghost qv = q@;
            assert(qv =~= tagged(pv, pv.genres));
            rows.push(q);
            assert(publication_views(rows@) =~= before.push(qv));
        }
        k += 1;
    }
    assert(all.take(all.len() as int) =~= all);
    true
}

/// What cannot be added stops the whole.
proof fn lemma_refused(s: Seq<PublicationView>, more: Seq<PublicationView>, n: int)
    requires
        0 <= n <= more.len(),
        with_publications(s, more.take(n)) is None,
    ensures
        with_publications(s, more) is None,
    decreases more.len(),
{
    if n < more.len() {
        assert(more.drop_last().take(n) =~= more.take(n));
        lemma_refused(s, more.drop_last(), n);
    } else {
        assert(more.take(n) =~= more);
    }
}

/// Adds the units that are not there.
fn add_units(rows: &mut Vec<ReadingUnit>, publications: &Vec<Publication>, more: &Vec<ReadingUnit>) -> (r:
    Result<(), DbError>)
    ensures
        match with_units(old(rows)@, publication_views(publications@), more@) {
            Ok(out) => r is Ok && final(rows)@ == out,
            Err(Refusal::Taken) => r matches Err(e) && is_taken(e),
            Err(Refusal::Dangling) => r matches Err(e) && is_dangling(e),
        },
{
    let ghost start = rows@;
    let ghost pubs = publication_views(publications@);
    let mut k: usize = 0;
    assert(more@.take(0) =~= Seq::empty());
    while k < more.len()
        invariant
            k <= more@.len(),
            start == old(rows)@,
            pubs == publication_views(publications@),
            with_units(start, pubs, more@.take(k as int)) == Ok::<Seq<ReadingUnit>, Refusal>(rows@),
        decreases more@.len() - k,
    {
        let u = &more[k];
        assert(more@.take(k + 1).drop_last() =~= more@.take(k as int));
        let id = u.id;
        let is_it = |x: &ReadingUnit| -> (b: bool)
            ensures b == (x.id == id)
        { x.id == id };
        let there = any(rows, is_it, Ghost(|x: ReadingUnit| x.id == id));
        assert(there == has_unit(rows@, u.id));
        if !there {
            let keyed = |x: &ReadingUnit| -> (b: bool)
                ensures b == (x.publication_id == u.publication_id && x.source_key@ == u.source_key@)
            {
                x.publication_id == u.publication_id && same(
                    x.source_key.as_str(),
                    u.source_key.as_str(),
                )
            };
            let clash = any(
                rows,
                keyed,
                Ghost(
                    |x: ReadingUnit|
                        x.publication_id == u.publication_id && x.source_key@ == u.source_key@,
                ),
            );
            assert(clash == has_key(rows@, u.publication_id, u.source_key@));
            if clash {
                proof {
                    lemma_units_refused(start, pubs, more@, k + 1);
                }
                return Err(taken());
            }
            let publication_id = u.publication_id;
            let owner = |p: &Publication| -> (b: bool)
                ensures b == (p.id == publication_id)
            { p.id == publication_id };
            let placed = any(publications, owner, Ghost(|p: Publication| p.id == publication_id));
            assert(placed == has_publication(pubs, u.publication_id)) by {
                if placed {
                    let j = choose|j: int|
                        0 <= j < publications@.len() && #[trigger] publications@[j].id == publication_id;
                    assert(pubs[j].id == publication_id);
                }
                if has_publication(pubs, publication_id) {
                    let j = choose|j: int| 0 <= j < pubs.len() && (#[trigger] pubs[j]).id == publication_id;
                    assert(publications@[j].id == publication_id);
                }
            }
            if !placed {
                proof {
                    lemma_units_refused(start, pubs, more@, k + 1);
                }
                return Err(dangling());
            }
            let mut v = u.clone();
            v.download = DownloadState::Absent;
            v.read = false;
            rows.push(v);
        }
        k += 1;
    }
    assert(more@.take(more@.len() as int) =~= more@);
    Ok(())
}

/// What cannot be added stops the whole.
proof fn lemma_units_refused(
    s: Seq<ReadingUnit>,
    publications: Seq<PublicationView>,
    more: Seq<ReadingUnit>,
    n: int,
)
    requires
        0 <= n <= more.len(),
        with_units(s, publications, more.take(n)) is Err,
    ensures
        with_units(s, publications, more) == with_units(s, publications, more.take(n)),
    decreases more.len(),
{
    if n < more.len() {
        assert(more.drop_last().take(n) =~= more.take(n));
        lemma_units_refused(s, publications, more.drop_last(), n);
    } else {
        assert(more.take(n) =~= more);
    }
}

impl Db {
    /// Those of the identifiers that are of units.
    fn pick_known(&self, ids: &Vec<Uuid>) -> (r: Vec<Uuid>)
        ensures
            r@ == known_ids(self@.units, ids@),
    {
        let ghost p = |id: Uuid| has_unit(self@.units, id);
        let mut out: Vec<Uuid> = Vec::new();
        let mut i: usize = 0;
        proof {
            lemma_filter_none(ids@.take(0), p);
            assert(ids@.take(0).filter(p) =~= Seq::empty());
        }
        while i < ids.len()
            invariant
                i <= ids@.len(),
                p == (|id: Uuid| has_unit(self@.units, id)),
                out@ == ids@.take(i as int).filter(p),
            decreases ids@.len() - i,
        {
            proof {
                lemma_filter_take(ids@, i as int, p);
            }
            if self.knows_unit(ids[i]) {
                out.push(ids[i]);
            }
            i += 1;
        }
        assert(ids@.take(ids@.len() as int) =~= ids@);
        out
    }

    /// Puts a backup back for a reader, with a time at hand. What is there stays;
    /// what is not is added; marks and events whose unit or publication did not come
    /// along are skipped. Where a row cannot be added, nothing is.
    pub fn import_backup_at(&mut self, user_id: Uuid, backup: &Backup, now: Timestamp) -> (r: Result<
        RestoreSummary,
        DbError,
    >)
        requires
            old(self).wf(),
            old(self)@.next_seq + backup.progress@.len() <= i64::MAX,
        ensures
            final(self).wf(),
            restore_outcome(old(self)@, user_id, backup@, now, final(self)@, r),
    {
        let ghost before = self@;
        let ghost b = backup@;
        let mut publications = self.publications.clone();
        proof {
            assert(publication_views(publications@) =~= before.publications);
        }
        if !add_publications(&mut publications, &backup.publications) {
            return Err(taken());
        }
        let mut units = self.units.clone();
        proof {
            assert(units@ =~= before.units);
        }
        match add_units(&mut units, &publications, &backup.units) {
            Ok(_) => {},
            Err(e) => {
                return Err(e);
            },
        }
        let had_publications: usize = self.publications.len();
        let had_units: usize = self.units.len();
        let had_categories: usize = self.categories.len();
        let had_marks: usize = self.marks.len();
        let had_events: usize = self.journal.len();
        add_categories(&mut self.categories, &backup.categories);
        self.publications = publications;
        self.units = units;
        proof {
            assert(self@ =~= rows_added(before, b));
            lemma_rows_added(before, b);
        }
        let known = self.pick_known(&backup.read_unit_ids);
        proof {
            lemma_known_ids(self@.units, b.read_unit_ids);
            crate::db::read_marks::lemma_first_unknown(self@.units, known@);
        }
        let marked_now = self.mark_read_at(user_id, &known, now);
        proof {
            assert(self@ =~= shelved(before, user_id, b, now));
            lemma_shelved(before, user_id, b, now);
            law_journal_only_grows(
                JournalState { journal: self@.journal, next_seq: self@.next_seq },
                user_id,
                known_of(self@, b.progress),
            );
        }
        let _ = self.append_events(user_id, &backup.progress);
        Ok(
            RestoreSummary {
                publications: to_count(self.publications.len() - had_publications),
                units: to_count(self.units.len() - had_units),
                categories: to_count(self.categories.len() - had_categories),
                read_marks: to_count(self.marks.len() - had_marks),
                progress_events: to_count(self.journal.len() - had_events),
            },
        )
    }

    /// Puts a backup back for a reader, as of now.
    pub fn import_backup(&mut self, user_id: Uuid, backup: &Backup) -> (r: Result<
        RestoreSummary,
        DbError,
    >)
        requires
            old(self).wf(),
            old(self)@.next_seq + backup.progress@.len() <= i64::MAX,
        ensures
            final(self).wf(),
            exists|now: Timestamp|
                crate::clock::is_reading(now) && #[trigger] restore_outcome(
                    old(self)@,
                    user_id,
                    backup@,
                    now,
                    final(self)@,
                    r,
                ),
    {
        let now = utc_now();
        self.import_backup_at(user_id, backup, now)
    }

    /// Takes a backup of the shelf and of a reader's state.
    pub fn export_backup(&self, user_id: Uuid, now: Timestamp) -> (r: Backup)
        ensures
            r.version == BACKUP_VERSION,
            r.exported_at == now,
            r@ == backup_of(self@, user_id),
    {
        Backup {
            version: BACKUP_VERSION,
            exported_at: now,
            categories: self.list_categories(),
            publications: self.list_publications(),
            units: self.export_units(),
            read_unit_ids: self.read_all_ids(user_id),
            progress: self.export_events(user_id),
        }
    }
}

/// The backup of the shelf and of a reader's state.
pub open spec fn backup_of(db: DbView, user_id: Uuid) -> BackupView {
    BackupView {
        categories: category_order(db.categories),
        publications: shelf_order(db.publications.map_values(|p: PublicationView| shown(p))),
        units: by_publication(db.units),
        read_unit_ids: marked_units(db.marks.filter(|m: ReadMark| m.user_id == user_id)),
        progress: events_in(db.journal.filter(|e: JournalEntry| e.user_id == user_id)),
    }
}

/// Publications that are distinct can all be added to an empty shelf.
proof fn lemma_empty_shelf(more: Seq<PublicationView>)
    requires
        publications_distinct(more),
    ensures
        with_publications(Seq::empty(), more) == Some(
            more.map_values(|p: PublicationView| tagged(p, p.genres)),
        ),
    decreases more.len(),
{
    let f = |p: PublicationView| tagged(p, p.genres);
    if more.len() == 0 {
        assert(more.map_values(f) =~= Seq::empty());
    } else {
        let init = more.drop_last();
        assert(publications_distinct(init)) by {
            assert(forall|i: int| 0 <= i < init.len() ==> init[i] == more[i]);
        }
        lemma_empty_shelf(init);
        let before = init.map_values(f);
        let x = more.last();
        assert forall|i: int| 0 <= i < before.len() implies (#[trigger] before[i]).id != x.id && !same_origin(
            before[i].origin,
            x.origin,
        ) by {
            assert(before[i].id == more[i].id && before[i].origin == more[i].origin);
            assert(more[i].id != more[more.len() - 1].id);
            assert(!same_origin(more[i].origin, more[more.len() - 1].origin));
        }
        assert(before.push(tagged(x, x.genres)) =~= more.map_values(f));
    }
}

/// Units that are distinct and have their publications can all be added to none.
proof fn lemma_no_units(publications: Seq<PublicationView>, more: Seq<ReadingUnit>)
    requires
        units_distinct(more),
        units_placed(more, publications),
    ensures
        with_units(Seq::empty(), publications, more) == Ok::<Seq<ReadingUnit>, Refusal>(
            more.map_values(|u: ReadingUnit| reset(u)),
        ),
    decreases more.len(),
{
    let f = |u: ReadingUnit| reset(u);
    if more.len() == 0 {
        assert(more.map_values(f) =~= Seq::empty());
    } else {
        let init = more.drop_last();
        assert(forall|i: int| 0 <= i < init.len() ==> init[i] == more[i]);
        lemma_no_units(publications, init);
        let before = init.map_values(f);
        let x = more.last();
        assert(has_publication(publications, more[more.len() - 1].publication_id));
        assert forall|i: int| 0 <= i < before.len() implies (#[trigger] before[i]).id != x.id && !(
        before[i].publication_id == x.publication_id && before[i].source_key@ == x.source_key@) by {
            assert(before[i].id == more[i].id);
            assert(more[i].id != more[more.len() - 1].id);
            assert(!(more[i].publication_id == more[more.len() - 1].publication_id
                && more[i].source_key@ == more[more.len() - 1].source_key@));
        }
        assert(before.push(reset(x)) =~= more.map_values(f));
    }
}

/// Sorting keeps publications distinct.
proof fn lemma_shelf_order_distinct(s: Seq<PublicationView>)
    requires
        publications_distinct(s),
    ensures
        publications_distinct(shelf_order(s)),
        forall|x: PublicationView| #[trigger] shelf_order(s).contains(x) <==> s.contains(x),
{
    let le = |a: PublicationView, b: PublicationView| title_le(a, b);
    lemma_titles_rank();
    lemma_sorted(s, le);
    let out = shelf_order(s);
    assert(s.no_duplicates()) by {
        assert forall|i: int, j: int| 0 <= i < s.len() && 0 <= j < s.len() && i != j implies s[i] != s[j] by {
            if s[i] == s[j] {
                assert(s[i].id == s[j].id);
            }
        }
    }
    lemma_sorted_no_duplicates(s, le);
    assert forall|i: int, j: int|
        0 <= i < out.len() && 0 <= j < out.len() && (#[trigger] out[i]).id == (#[trigger] out[j]).id implies i
        == j by {
        assert(out.contains(out[i]) && out.contains(out[j]));
        let a = choose|a: int| 0 <= a < s.len() && s[a] == out[i];
        let b = choose|b: int| 0 <= b < s.len() && s[b] == out[j];
        assert(s[a].id == s[b].id);
    }
    assert forall|i: int, j: int|
        0 <= i < out.len() && 0 <= j < out.len() && same_origin(
            (#[trigger] out[i]).origin,
            (#[trigger] out[j]).origin,
        ) implies i == j by {
        assert(out.contains(out[i]) && out.contains(out[j]));
        let a = choose|a: int| 0 <= a < s.len() && s[a] == out[i];
        let b = choose|b: int| 0 <= b < s.len() && s[b] == out[j];
        assert(same_origin(s[a].origin, s[b].origin));
    }
}

/// Titles rank any two publications.
proof fn lemma_titles_rank()
    ensures
        is_ranking(|a: PublicationView, b: PublicationView| title_le(a, b)),
{
    let le = |a: PublicationView, b: PublicationView| title_le(a, b);
    assert forall|a: PublicationView, b: PublicationView| #[trigger] le(a, b) || le(b, a) by {
        lemma_lexical_total(ascii_small(a.title@), ascii_small(b.title@));
    }
    assert forall|a: PublicationView, b: PublicationView, c: PublicationView|
        #[trigger] le(a, b) && #[trigger] le(b, c) implies le(a, c) by {
        lemma_lexical_transitive(
            ascii_small(a.title@),
            ascii_small(b.title@),
            ascii_small(c.title@),
        );
    }
}

/// Sorting by publication keeps units distinct.
proof fn lemma_by_publication_distinct(s: Seq<ReadingUnit>)
    requires
        units_distinct(s),
    ensures
        units_distinct(by_publication(s)),
        by_publication(s).len() == s.len(),
        forall|x: ReadingUnit| #[trigger] by_publication(s).contains(x) <==> s.contains(x),
{
    let le = |a: ReadingUnit, b: ReadingUnit| a.publication_id <= b.publication_id;
    assert(is_ranking(le));
    lemma_sorted(s, le);
    let out = by_publication(s);
    assert(s.no_duplicates()) by {
        assert forall|i: int, j: int| 0 <= i < s.len() && 0 <= j < s.len() && i != j implies s[i] != s[j] by {
            if s[i] == s[j] {
                assert(s[i].id == s[j].id);
            }
        }
    }
    lemma_sorted_no_duplicates(s, le);
    assert forall|i: int, j: int|
        0 <= i < out.len() && 0 <= j < out.len() && (#[trigger] out[i]).id == (#[trigger] out[j]).id implies i
        == j by {
        assert(out.contains(out[i]) && out.contains(out[j]));
        let a = choose|a: int| 0 <= a < s.len() && s[a] == out[i];
        let b = choose|b: int| 0 <= b < s.len() && s[b] == out[j];
        assert(s[a].id == s[b].id);
    }
    assert forall|i: int, j: int|
        0 <= i < out.len() && 0 <= j < out.len() && (#[trigger] out[i]).publication_id == (
        #[trigger] out[j]).publication_id && out[i].source_key@ == out[j].source_key@ implies i == j by {
        assert(out.contains(out[i]) && out.contains(out[j]));
        let a = choose|a: int| 0 <= a < s.len() && s[a] == out[i];
        let b = choose|b: int| 0 <= b < s.len() && s[b] == out[j];
        assert(s[a].publication_id == s[b].publication_id);
    }
}

/// A backup put back into an empty instance gives the shelf back: every publication
/// with its genres, every unit as not downloaded, the reader's marks, and the
/// reader's journal as far as its units are still there.
pub proof fn law_backup_comes_back(
    db: DbView,
    user_id: Uuid,
    empty: DbView,
    reader: Uuid,
    now: Timestamp,
)
    requires
        db.wf(),
        empty.wf(),
        empty.publications.len() == 0,
        empty.next_seq + db.journal.len() <= i64::MAX,
    ensures
        ({
            let b = backup_of(db, user_id);
            let r = restored(empty, reader, b, now);
            let out = r->Ok_0;
            &&& r is Ok
            &&& out.publications.len() == db.publications.len()
            &&& forall|p: PublicationView|
                #[trigger] db.publications.contains(p) ==> out.publications.contains(
                    tagged(shown(p), shown(p).genres),
                )
            &&& out.units.len() == db.units.len()
            &&& forall|u: ReadingUnit| #[trigger] db.units.contains(u) ==> out.units.contains(reset(u))
            &&& forall|x: Uuid|
                #[trigger] marked(out.marks, reader, x) <==> marked(db.marks, user_id, x)
            &&& events_in(out.journal) == known_of(db, b.progress)
        }),
{
    let b = backup_of(db, user_id);
    let f = |p: PublicationView| shown(p);
    let pubs = db.publications.map_values(f);
    let g = |p: PublicationView| tagged(p, p.genres);
    assert(publications_distinct(pubs)) by {
        assert forall|i: int| 0 <= i < pubs.len() implies (#[trigger] pubs[i]).id
            == db.publications[i].id && pubs[i].origin == db.publications[i].origin by {}
    }
    lemma_shelf_order_distinct(pubs);
    lemma_sorted_len(pubs);
    lemma_empty_shelf(b.publications);
    assert(empty.publications =~= Seq::empty());
    let outp = b.publications.map_values(g);
    lemma_by_publication_distinct(db.units);
    let le = |a: ReadingUnit, c: ReadingUnit| a.publication_id <= c.publication_id;
    assert forall|id: Uuid| has_publication(db.publications, id) implies #[trigger] has_publication(
        outp,
        id,
    ) by {
        let i = choose|i: int| 0 <= i < db.publications.len() && (#[trigger] db.publications[i]).id == id;
        assert(pubs[i].id == id);
        assert(pubs.contains(pubs[i]));
        assert(b.publications.contains(pubs[i]));
        let k = choose|k: int| 0 <= k < b.publications.len() && b.publications[k] == pubs[i];
        assert(outp[k].id == id);
    }
    assert(units_placed(b.units, outp)) by {
        assert forall|i: int| 0 <= i < b.units.len() implies has_publication(
            outp,
            (#[trigger] b.units[i]).publication_id,
        ) by {
            assert(b.units.contains(b.units[i]));
            let k = choose|k: int| 0 <= k < db.units.len() && db.units[k] == b.units[i];
            assert(has_publication(db.publications, db.units[k].publication_id));
        }
    }
    assert(empty.units.len() == 0) by {
        if empty.units.len() > 0 {
            assert(has_publication(empty.publications, empty.units[0].publication_id));
        }
    }
    assert(empty.units =~= Seq::empty());
    assert(empty.marks.len() == 0) by {
        if empty.marks.len() > 0 {
            assert(has_unit(empty.units, empty.marks[0].unit_id));
        }
    }
    assert(empty.journal.len() == 0) by {
        if empty.journal.len() > 0 {
            assert(has_publication(empty.publications, empty.journal[0].event.publication_id));
        }
    }
    lemma_no_units(outp, b.units);
    let h = |u: ReadingUnit| reset(u);
    let outu = b.units.map_values(h);
    assert forall|id: Uuid| #[trigger] has_unit(outu, id) <==> has_unit(db.units, id) by {
        if has_unit(outu, id) {
            let i = choose|i: int| 0 <= i < outu.len() && (#[trigger] outu[i]).id == id;
            assert(b.units.contains(b.units[i]));
            let k = choose|k: int| 0 <= k < db.units.len() && db.units[k] == b.units[i];
            assert(db.units[k].id == id);
        }
        if has_unit(db.units, id) {
            let i = choose|i: int| 0 <= i < db.units.len() && (#[trigger] db.units[i]).id == id;
            assert(db.units.contains(db.units[i]));
            assert(b.units.contains(db.units[i]));
            let k = choose|k: int| 0 <= k < b.units.len() && b.units[k] == db.units[i];
            assert(outu[k].id == id);
        }
    }
    let mid = shelved(empty, reader, b, now);
    lemma_shelved(empty, reader, b, now);
    assert forall|p: PublicationView| #[trigger] db.publications.contains(p) implies mid.publications.contains(
        tagged(shown(p), shown(p).genres),
    ) by {
        let i = choose|i: int| 0 <= i < db.publications.len() && db.publications[i] == p;
        assert(pubs[i] == shown(p));
        assert(b.publications.contains(pubs[i]));
        let k = choose|k: int| 0 <= k < b.publications.len() && b.publications[k] == pubs[i];
        assert(outp[k] == tagged(shown(p), shown(p).genres));
    }
    assert forall|u: ReadingUnit| #[trigger] db.units.contains(u) implies mid.units.contains(reset(u)) by {
        assert(b.units.contains(u));
        let k = choose|k: int| 0 <= k < b.units.len() && b.units[k] == u;
        assert(outu[k] == reset(u));
    }
    lemma_marks_come_back(db, user_id, empty, reader, outu, now);
    lemma_journal_comes_back(db, user_id, mid, reader);
}

/// Sorting keeps the number of publications.
proof fn lemma_sorted_len(s: Seq<PublicationView>)
    ensures
        shelf_order(s).len() == s.len(),
{
    lemma_titles_rank();
    lemma_sorted(s, |a: PublicationView, b: PublicationView| title_le(a, b));
}

/// The reader's marks come back, and no others.
proof fn lemma_marks_come_back(
    db: DbView,
    user_id: Uuid,
    empty: DbView,
    reader: Uuid,
    units: Seq<ReadingUnit>,
    now: Timestamp,
)
    requires
        db.wf(),
        empty.marks.len() == 0,
        forall|id: Uuid| #[trigger] has_unit(units, id) <==> has_unit(db.units, id),
    ensures
        ({
            let ids = marked_units(db.marks.filter(|m: ReadMark| m.user_id == user_id));
            let out = with_marks(empty.marks, reader, known_ids(units, ids), now);
            forall|x: Uuid| #[trigger] marked(out, reader, x) <==> marked(db.marks, user_id, x)
        }),
{
    let p = |m: ReadMark| m.user_id == user_id;
    let own = db.marks.filter(p);
    let ids = marked_units(own);
    let known = known_ids(units, ids);
    lemma_known_ids(units, ids);
    lemma_with_marks(empty.marks, units, reader, known, now);
    lemma_filter_contains(db.marks, p);
    let out = with_marks(empty.marks, reader, known, now);
    assert forall|x: Uuid| #[trigger] marked(out, reader, x) <==> marked(db.marks, user_id, x) by {
        if known.contains(x) {
            assert(ids.contains(x));
            let k = choose|k: int| 0 <= k < ids.len() && ids[k] == x;
            assert(own.contains(own[k]));
            let m = choose|m: int| 0 <= m < db.marks.len() && db.marks[m] == own[k];
            assert(db.marks[m].user_id == user_id && db.marks[m].unit_id == x);
        }
        if marked(db.marks, user_id, x) {
            let m = choose|m: int|
                0 <= m < db.marks.len() && (#[trigger] db.marks[m]).user_id == user_id
                    && db.marks[m].unit_id == x;
            assert(has_unit(db.units, db.marks[m].unit_id));
            assert(db.marks.contains(db.marks[m]));
            assert(own.contains(db.marks[m]));
            let k = choose|k: int| 0 <= k < own.len() && own[k] == db.marks[m];
            assert(ids[k] == x);
            assert(ids.contains(x));
            assert(known.contains(x));
        }
    }
}

/// A journal without repeated events is appended to an empty one as it is.
proof fn lemma_all_new(j: JournalState, user_id: Uuid, events: Seq<ProgressEvent>)
    requires
        j.journal.len() == 0,
        forall|i: int, k: int|
            0 <= i < events.len() && 0 <= k < events.len() && (#[trigger] events[i]).id == (
            #[trigger] events[k]).id ==> i == k,
    ensures
        events_in(all_appended(j, user_id, events).journal) == events,
    decreases events.len(),
{
    if events.len() == 0 {
        assert(events_in(j.journal) =~= events);
    } else {
        let init = events.drop_last();
        assert(forall|i: int| 0 <= i < init.len() ==> init[i] == events[i]);
        lemma_all_new(j, user_id, init);
        let before = all_appended(j, user_id, init);
        let x = events.last();
        assert(!has_event(before.journal, x.id)) by {
            if has_event(before.journal, x.id) {
                let i = choose|i: int|
                    0 <= i < before.journal.len() && (#[trigger] before.journal[i]).event.id == x.id;
                assert(events_in(before.journal)[i] == init[i]);
                assert(events[i].id == events[events.len() - 1].id);
            }
        }
        let out = all_appended(j, user_id, events);
        assert(events_in(out.journal) =~= events_in(before.journal).push(x));
        assert(init.push(x) =~= events);
    }
}

/// The reader's journal comes back, as far as its units are still there.
proof fn lemma_journal_comes_back(db: DbView, user_id: Uuid, mid: DbView, reader: Uuid)
    requires
        db.wf(),
        mid.journal.len() == 0,
        forall|id: Uuid| #[trigger] has_unit(mid.units, id) <==> has_unit(db.units, id),
        forall|id: Uuid| has_publication(db.publications, id) ==> #[trigger] has_publication(mid.publications, id),
    ensures
        ({
            let progress = events_in(db.journal.filter(|e: JournalEntry| e.user_id == user_id));
            events_in(pushed(mid, reader, progress).journal) == known_of(db, progress)
        }),
{
    let q = |e: JournalEntry| e.user_id == user_id;
    let own = db.journal.filter(q);
    let progress = events_in(own);
    lemma_kept_places(db.journal, q);
    let at = kept_places(db.journal, q);
    let p = |e: ProgressEvent| is_known(db.publications, db.units, e);
    let p2 = |e: ProgressEvent| is_known(mid.publications, mid.units, e);
    assert forall|i: int| 0 <= i < progress.len() implies #[trigger] progress[i]
        == db.journal[at[i]].event && 0 <= at[i] < db.journal.len() by {}
    lemma_filters_agree(progress, p, p2, db, mid, own, at);
    let known = known_of(db, progress);
    lemma_kept_places(progress, p);
    let ka = kept_places(progress, p);
    assert forall|i: int, k: int|
        0 <= i < known.len() && 0 <= k < known.len() && (#[trigger] known[i]).id == (#[trigger] known[k]).id implies i
        == k by {
        assert(known[i] == progress[ka[i]] && known[k] == progress[ka[k]]);
        assert(db.journal[at[ka[i]]].event.id == db.journal[at[ka[k]]].event.id);
        assert(at[ka[i]] == at[ka[k]]);
        assert(ka[i] < ka[k] || ka[k] < ka[i] || i == k);
        assert(ka[i] == ka[k] || at[ka[i]] != at[ka[k]]);
    }
    lemma_all_new(JournalState { journal: mid.journal, next_seq: mid.next_seq }, reader, known);
}

/// What is known here is known there.
proof fn lemma_filters_agree(
    progress: Seq<ProgressEvent>,
    p: spec_fn(ProgressEvent) -> bool,
    p2: spec_fn(ProgressEvent) -> bool,
    db: DbView,
    mid: DbView,
    own: Seq<JournalEntry>,
    at: Seq<int>,
)
    requires
        db.wf(),
        p == (|e: ProgressEvent| is_known(db.publications, db.units, e)),
        p2 == (|e: ProgressEvent| is_known(mid.publications, mid.units, e)),
        forall|id: Uuid| #[trigger] has_unit(mid.units, id) <==> has_unit(db.units, id),
        forall|id: Uuid| has_publication(db.publications, id) ==> #[trigger] has_publication(mid.publications, id),
        at.len() >= progress.len(),
        forall|i: int|
            0 <= i < progress.len() ==> #[trigger] progress[i] == db.journal[at[i]].event && 0 <= at[i]
                < db.journal.len(),
    ensures
        progress.filter(p) == progress.filter(p2),
    decreases progress.len(),
{
    reveal(Seq::filter);
    if progress.len() > 0 {
        let init = progress.drop_last();
        assert forall|i: int| 0 <= i < init.len() implies #[trigger] init[i] == db.journal[at[i]].event && 0
            <= at[i] < db.journal.len() by {
            assert(init[i] == progress[i]);
        }
        lemma_filters_agree(init, p, p2, db, mid, own, at);
        let k = progress.len() - 1;
        assert(progress[k] == db.journal[at[k]].event);
        assert(has_publication(db.publications, db.journal[at[k]].event.publication_id));
        assert(has_unit(mid.units, progress[k].unit_id) <==> has_unit(db.units, progress[k].unit_id));
        assert(p(progress.last()) == p2(progress.last()));
    }
}

}
