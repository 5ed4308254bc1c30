//! What a backup holds, and what of it comes back.

use vstd::prelude::*;

use crate::clock::Timestamp;
use crate::db::backup::{backup_of, known_ids, reset, restore_outcome, tagged, with_categories, with_publications, with_units, BackupView};
use crate::db::categories::category_le;
use crate::db::journal_laws::law_a_push_records_what_applies;
use crate::db::plain::{event_there, has_read, no_text_twice, publication_there, recorded_for, same_publication, same_texts, one_reads, unit_there};
use crate::db::progress::{events_in, pushed};
use crate::db::publications::{distinct_genres, genre_order, has_category, shown};
use crate::db::read_marks::{lemma_with_marks, marked_units, with_marks};
use crate::db::units::marked;
use crate::db::{has_publication, has_unit, DbView, JournalEntry, ReadMark};
use crate::domain::backup::RestoreSummary;
use crate::domain::progress::ProgressEvent;
use crate::domain::publication::{Category, PublicationView, ReadingUnit};
use crate::ids::Uuid;
use crate::order::lemma_sorted_multiset;
use crate::tables::{count32, lemma_filter_contains};

verus! {

/// Leaving out repetitions keeps every text, and each of them once.
pub proof fn lemma_distinct_genres(genres: Seq<String>)
    ensures
        same_texts(distinct_genres(genres), genres),
        no_text_twice(distinct_genres(genres)),
    decreases genres.len(),
{
    if genres.len() > 0 {
        let d = genres.drop_last();
        lemma_distinct_genres(d);
        let before = distinct_genres(d);
        let out = distinct_genres(genres);
        assert(forall|k: int| 0 <= k < before.len() ==> out[k] == before[k]);
        assert forall|t: Seq<char>| #[trigger] one_reads(out, t) <==> one_reads(genres, t) by {
            if one_reads(genres, t) {
                let k = choose|k: int| 0 <= k < genres.len() && (#[trigger] genres[k])@ == t;
                if k < d.len() {
                    assert(d[k]@ == t);
                    assert(one_reads(d, t));
                    assert(one_reads(before, t) <==> one_reads(d, t));
                    let n = choose|n: int| 0 <= n < before.len() && (#[trigger] before[n])@ == t;
                    assert(out[n]@ == t);
                } else if out.len() == before.len() {
                    let n = choose|n: int|
                        0 <= n < before.len() && (#[trigger] before[n])@ == genres.last()@;
                    assert(out[n]@ == t);
                } else {
                    assert(out[out.len() - 1]@ == t);
                }
            }
            if one_reads(out, t) {
                let n = choose|n: int| 0 <= n < out.len() && (#[trigger] out[n])@ == t;
                if n < before.len() {
                    assert(before[n]@ == t);
                    assert(one_reads(before, t));
                    assert(one_reads(d, t));
                    let k = choose|k: int| 0 <= k < d.len() && (#[trigger] d[k])@ == t;
                    assert(genres[k]@ == t);
                } else {
                    assert(genres[genres.len() - 1]@ == t);
                }
            }
        }
    }
}

/// Putting genres in order keeps all of them.
pub proof fn lemma_genre_order(genres: Seq<String>)
    ensures
        same_texts(genre_order(genres), genres),
        genre_order(genres).len() == genres.len(),
{
    broadcast use vstd::seq_lib::group_to_multiset_ensures;

    let le = |a: String, b: String| crate::order::nocase_le(a@, b@);
    let out = genre_order(genres);
    lemma_sorted_multiset(genres, le);
    crate::order::lemma_sorted_len(genres, le);
    assert forall|t: Seq<char>| #[trigger] one_reads(out, t) <==> one_reads(genres, t) by {
        if one_reads(out, t) {
            let k = choose|k: int| 0 <= k < out.len() && (#[trigger] out[k])@ == t;
            assert(out.contains(out[k]));
            assert(out.to_multiset().contains(out[k]));
            assert(genres.contains(out[k]));
            let n = choose|n: int| 0 <= n < genres.len() && genres[n] == out[k];
            assert(genres[n]@ == t);
        }
        if one_reads(genres, t) {
            let k = choose|k: int| 0 <= k < genres.len() && (#[trigger] genres[k])@ == t;
            assert(genres.contains(genres[k]));
            assert(genres.to_multiset().contains(genres[k]));
            assert(out.contains(genres[k]));
            let n = choose|n: int| 0 <= n < out.len() && out[n] == genres[k];
            assert(out[n]@ == t);
        }
    }
}

/// What was there is there when units are added, in its place.
proof fn lemma_units_kept(s: Seq<ReadingUnit>, publications: Seq<PublicationView>, more: Seq<ReadingUnit>)
    requires
        with_units(s, publications, more) is Ok,
    ensures
        with_units(s, publications, more)->Ok_0.len() >= s.len(),
        with_units(s, publications, more)->Ok_0.take(s.len() as int) == s,
    decreases more.len(),
{
    if more.len() == 0 {
        assert(s.take(s.len() as int) =~= s);
    } else {
        let init = more.drop_last();
        lemma_units_kept(s, publications, init);
        let before = with_units(s, publications, init)->Ok_0;
        let out = with_units(s, publications, more)->Ok_0;
        assert(out.take(s.len() as int) =~= s) by {
            assert forall|k: int| 0 <= k < s.len() implies out[k] == s[k] by {
                assert(before.take(s.len() as int)[k] == s[k]);
            }
        }
    }
}

/// A unit that was not there is added as it is put back, and nothing else is.
proof fn lemma_unit_added(
    s: Seq<ReadingUnit>,
    publications: Seq<PublicationView>,
    more: Seq<ReadingUnit>,
    i: int,
)
    requires
        with_units(s, publications, more) is Ok,
    ensures
        0 <= i < more.len() && !has_unit(s, more[i].id) && (forall|j: int|
            0 <= j < i ==> (#[trigger] more[j]).id != more[i].id) ==> with_units(
            s,
            publications,
            more,
        )->Ok_0.contains(reset(more[i])),
        forall|k: int|
            s.len() <= k < with_units(s, publications, more)->Ok_0.len() ==> exists|j: int|
                0 <= j < more.len() && #[trigger] with_units(s, publications, more)->Ok_0[k] == reset(
                    #[trigger] more[j],
                ),
    decreases more.len(),
{
    lemma_units_kept(s, publications, more);
    if more.len() > 0 {
        let init = more.drop_last();
        let before = with_units(s, publications, init)->Ok_0;
        let out = with_units(s, publications, more)->Ok_0;
        lemma_unit_added(s, publications, init, i);
        lemma_units_kept(s, publications, init);
        if 0 <= i < more.len() && !has_unit(s, more[i].id) && (forall|j: int|
            0 <= j < i ==> (#[trigger] more[j]).id != more[i].id) {
            if i < init.len() {
                assert(init[i] == more[i]);
                assert forall|j: int| 0 <= j < i implies (#[trigger] init[j]).id != init[i].id by {
                    assert(init[j] == more[j]);
                }
                let n = choose|n: int| 0 <= n < before.len() && before[n] == reset(more[i]);
                assert(out[n] == reset(more[i]));
            } else {
                assert(!has_unit(before, more[i].id)) by {
                    if has_unit(before, more[i].id) {
                        let k = choose|k: int|
                            0 <= k < before.len() && (#[trigger] before[k]).id == more[i].id;
                        if k < s.len() {
                            assert(before.take(s.len() as int)[k] == s[k]);
                            assert(s[k].id == more[i].id);
                        } else {
                            let j = choose|j: int|
                                0 <= j < init.len() && before[k] == reset(#[trigger] init[j]);
                            assert(more[j] == init[j]);
                        }
                    }
                }
                assert(out[out.len() - 1] == reset(more[i]));
            }
        }
        assert forall|k: int| s.len() <= k < out.len() implies exists|j: int|
            0 <= j < more.len() && #[trigger] out[k] == reset(#[trigger] more[j]) by {
            if k < before.len() {
                assert(out[k] == before[k]);
                let j = choose|j: int| 0 <= j < init.len() && before[k] == reset(#[trigger] init[j]);
                assert(more[j] == init[j]);
            } else {
                assert(more[more.len() - 1] == more.last());
            }
        }
    }
}

/// A unit of a backup that was not there comes back as the backup has it: its identifier,
/// publication, key, title, number, place, group, the time it was first seen, its release
/// date and its page count. Its pages are not in the backup, so it is not downloaded. Units
/// that were there stay as they are, and no unit comes from anywhere else.
pub proof fn law_restored_units_are_those_of_the_backup(
    before: DbView,
    user_id: Uuid,
    b: BackupView,
    now: Timestamp,
    after: DbView,
    summary: RestoreSummary,
    i: int,
)
    requires
        before.wf(),
        restore_outcome(before, user_id, b, now, after, Ok(summary)),
        0 <= i < b.units.len(),
        !unit_there(before.units, b.units[i].id),
        forall|j: int| 0 <= j < i ==> (#[trigger] b.units[j]).id != b.units[i].id,
    ensures
        exists|v: ReadingUnit|
            {
                &&& #[trigger] after.units.contains(v)
                &&& v.id == b.units[i].id
                &&& v.publication_id == b.units[i].publication_id
                &&& v.source_key == b.units[i].source_key
                &&& v.title == b.units[i].title
                &&& v.number == b.units[i].number
                &&& v.source_order == b.units[i].source_order
                &&& v.scanlator == b.units[i].scanlator
                &&& v.fetched_at == b.units[i].fetched_at
                &&& v.published_at == b.units[i].published_at
                &&& v.page_count == b.units[i].page_count
                &&& v.download is Absent
                &&& !v.read
            },
        after.units.len() >= before.units.len(),
        forall|k: int| 0 <= k < before.units.len() ==> #[trigger] after.units[k] == before.units[k],
        forall|k: int|
            before.units.len() <= k < after.units.len() ==> exists|j: int|
                0 <= j < b.units.len() && (#[trigger] after.units[k]).id == (#[trigger] b.units[j]).id,
        summary.units == count32(after.units.len() - before.units.len()),
{
    let publications = with_publications(before.publications, b.publications)->0;
    lemma_units_kept(before.units, publications, b.units);
    lemma_unit_added(before.units, publications, b.units, i);
    assert(!has_unit(before.units, b.units[i].id));
    assert(after.units.contains(reset(b.units[i])));
    assert forall|k: int| 0 <= k < before.units.len() implies #[trigger] after.units[k] == before.units[k] by {
        assert(after.units.take(before.units.len() as int)[k] == before.units[k]);
    }
    assert forall|k: int| before.units.len() <= k < after.units.len() implies exists|j: int|
        0 <= j < b.units.len() && (#[trigger] after.units[k]).id == (#[trigger] b.units[j]).id by {
        let j = choose|j: int| 0 <= j < b.units.len() && after.units[k] == reset(#[trigger] b.units[j]);
        assert(after.units[k].id == b.units[j].id);
    }
}

/// What adding publications does to the one with an identifier that the backup has once.
proof fn lemma_publication_added(s: Seq<PublicationView>, more: Seq<PublicationView>, i: int)
    requires
        with_publications(s, more) is Some,
        0 <= i < more.len(),
        forall|j: int| 0 <= j < more.len() && j != i ==> (#[trigger] more[j]).id != more[i].id,
    ensures
        !has_publication(s, more[i].id) ==> with_publications(s, more)->0.contains(
            tagged(more[i], more[i].genres),
        ),
        forall|k: int|
            0 <= k < s.len() && (#[trigger] s[k]).id == more[i].id ==> with_publications(s, more)->0.len()
                >= s.len() && with_publications(s, more)->0[k] == tagged(s[k], more[i].genres),
    decreases more.len(),
{
    let init = more.drop_last();
    let before = with_publications(s, init)->0;
    let out = with_publications(s, more)->0;
    let last = more.last();
    lemma_shelf_len(s, init);
    assert forall|j: int| 0 <= j < init.len() implies init[j] == more[j] by {}
    if i < init.len() {
        assert forall|j: int| 0 <= j < init.len() && j != i implies (#[trigger] init[j]).id != init[i].id by {
            assert(init[j] == more[j]);
        }
        lemma_publication_added(s, init, i);
        assert(last.id != more[i].id) by {
            assert(more[more.len() - 1].id != more[i].id);
        }
        if !has_publication(s, more[i].id) {
            let n = choose|n: int| 0 <= n < before.len() && before[n] == tagged(more[i], more[i].genres);
            assert(out[n] == tagged(more[i], more[i].genres));
        }
        assert forall|k: int| 0 <= k < s.len() && (#[trigger] s[k]).id == more[i].id implies out[k] == tagged(
            s[k],
            more[i].genres,
        ) by {
            assert(before[k] == tagged(s[k], more[i].genres));
        }
    } else {
        assert forall|j: int| 0 <= j < init.len() implies (#[trigger] init[j]).id != more[i].id by {
            assert(init[j] == more[j]);
        }
        lemma_untouched(s, init, more[i].id);
        if !has_publication(s, more[i].id) {
            assert(!has_publication(before, more[i].id));
            assert(out[out.len() - 1] == tagged(more[i], more[i].genres));
        } else {
            let m = choose|m: int| 0 <= m < s.len() && (#[trigger] s[m]).id == more[i].id;
            assert(before[m] == s[m]);
            assert(has_publication(before, more[i].id));
            assert forall|k: int| 0 <= k < s.len() && (#[trigger] s[k]).id == more[i].id implies out[k]
                == tagged(s[k], more[i].genres) by {
                assert(before[k] == s[k]);
            }
        }
    }
}

/// The shelf never shrinks when publications are added.
proof fn lemma_shelf_len(s: Seq<PublicationView>, more: Seq<PublicationView>)
    requires
        with_publications(s, more) is Some,
    ensures
        with_publications(s, more)->0.len() >= s.len(),
    decreases more.len(),
{
    if more.len() > 0 {
        lemma_shelf_len(s, more.drop_last());
    }
}

/// Publications that a backup does not have are not touched, and none of them appears.
proof fn lemma_untouched(s: Seq<PublicationView>, more: Seq<PublicationView>, id: Uuid)
    requires
        with_publications(s, more) is Some,
        forall|j: int| 0 <= j < more.len() ==> (#[trigger] more[j]).id != id,
    ensures
        with_publications(s, more)->0.len() >= s.len(),
        forall|k: int|
            0 <= k < s.len() && (#[trigger] s[k]).id == id ==> with_publications(s, more)->0[k] == s[k],
        !has_publication(s, id) ==> !has_publication(with_publications(s, more)->0, id),
    decreases more.len(),
{
    if more.len() > 0 {
        let init = more.drop_last();
        assert forall|j: int| 0 <= j < init.len() implies (#[trigger] init[j]).id != id by {
            assert(init[j] == more[j]);
        }
        lemma_untouched(s, init, id);
        let before = with_publications(s, init)->0;
        let out = with_publications(s, more)->0;
        assert(more[more.len() - 1].id != id);
        assert forall|k: int| 0 <= k < s.len() && (#[trigger] s[k]).id == id implies out[k] == s[k] by {
            assert(before[k] == s[k]);
        }
        if !has_publication(s, id) && has_publication(out, id) {
            let k = choose|k: int| 0 <= k < out.len() && (#[trigger] out[k]).id == id;
            assert(k < before.len());
            assert(before[k].id == id);
        }
    }
}

/// A publication of a backup that was not there comes back as the backup has it, each of its
/// genres once. One that was there keeps everything but its genres, which become those of
/// the backup.
pub proof fn law_restored_publications_are_those_of_the_backup(
    before: DbView,
    user_id: Uuid,
    b: BackupView,
    now: Timestamp,
    after: DbView,
    summary: RestoreSummary,
    i: int,
)
    requires
        before.wf(),
        restore_outcome(before, user_id, b, now, after, Ok(summary)),
        0 <= i < b.publications.len(),
        forall|j: int|
            0 <= j < b.publications.len() && j != i ==> (#[trigger] b.publications[j]).id
                != b.publications[i].id,
    ensures
        !publication_there(before.publications, b.publications[i].id) ==> exists|p: PublicationView|
            #[trigger] after.publications.contains(p) && same_publication(p, b.publications[i])
                && no_text_twice(p.genres),
        forall|k: int|
            0 <= k < before.publications.len() && (#[trigger] before.publications[k]).id
                == b.publications[i].id ==> {
                &&& after.publications[k] == (PublicationView {
                    genres: after.publications[k].genres,
                    ..before.publications[k]
                })
                &&& same_texts(after.publications[k].genres, b.publications[i].genres)
                &&& no_text_twice(after.publications[k].genres)
            },
        summary.publications == count32(after.publications.len() - before.publications.len()),
{
    lemma_publication_added(before.publications, b.publications, i);
    lemma_distinct_genres(b.publications[i].genres);
    if !publication_there(before.publications, b.publications[i].id) {
        assert(!has_publication(before.publications, b.publications[i].id));
        let p = tagged(b.publications[i], b.publications[i].genres);
        assert(after.publications.contains(p));
        assert(same_publication(p, b.publications[i]));
    }
}

/// What adding categories does: each category of the backup is there afterwards, one that
/// was not there just as it came, and those that were there stay.
proof fn lemma_category_added(s: Seq<Category>, more: Seq<Category>, i: int)
    requires
        0 <= i < more.len(),
    ensures
        with_categories(s, more).len() >= s.len(),
        with_categories(s, more).take(s.len() as int) == s,
        has_category(with_categories(s, more), more[i].id@),
        !has_category(s, more[i].id@) && (forall|j: int|
            0 <= j < i ==> (#[trigger] more[j]).id@ != more[i].id@) ==> with_categories(s, more).contains(
            more[i],
        ),
    decreases more.len(),
{
    let init = more.drop_last();
    let before = with_categories(s, init);
    let out = with_categories(s, more);
    lemma_categories_kept(s, init);
    lemma_categories_kept(s, more);
    if i < init.len() {
        assert(init[i] == more[i]);
        lemma_category_added(s, init, i);
        let k = choose|k: int| 0 <= k < before.len() && (#[trigger] before[k]).id@ == more[i].id@;
        assert(out[k].id@ == more[i].id@);
        if !has_category(s, more[i].id@) && (forall|j: int|
            0 <= j < i ==> (#[trigger] more[j]).id@ != more[i].id@) {
            assert forall|j: int| 0 <= j < i implies (#[trigger] init[j]).id@ != init[i].id@ by {
                assert(init[j] == more[j]);
            }
            let n = choose|n: int| 0 <= n < before.len() && before[n] == more[i];
            assert(out[n] == more[i]);
        }
    } else {
        if has_category(before, more[i].id@) {
            if !has_category(s, more[i].id@) {
                let k = choose|k: int| 0 <= k < before.len() && (#[trigger] before[k]).id@ == more[i].id@;
                if k < s.len() {
                    assert(before.take(s.len() as int)[k] == s[k]);
                    assert(s[k].id@ == more[i].id@);
                } else {
                    let j = lemma_category_from(s, init, k);
                    assert(more[j] == init[j]);
                }
            }
        } else {
            assert(out[out.len() - 1] == more[i]);
            assert(out[out.len() - 1].id@ == more[i].id@);
        }
    }
}

proof fn lemma_categories_kept(s: Seq<Category>, more: Seq<Category>)
    ensures
        with_categories(s, more).len() >= s.len(),
        with_categories(s, more).take(s.len() as int) == s,
    decreases more.len(),
{
    if more.len() == 0 {
        assert(s.take(s.len() as int) =~= s);
    } else {
        let before = with_categories(s, more.drop_last());
        lemma_categories_kept(s, more.drop_last());
        let out = with_categories(s, more);
        assert(out.take(s.len() as int) =~= s) by {
            assert forall|k: int| 0 <= k < s.len() implies out[k] == s[k] by {
                assert(before.take(s.len() as int)[k] == s[k]);
            }
        }
    }
}

proof fn lemma_category_from(s: Seq<Category>, more: Seq<Category>, k: int) -> (j: int)
    requires
        s.len() <= k < with_categories(s, more).len(),
    ensures
        0 <= j < more.len(),
        with_categories(s, more)[k] == more[j],
    decreases more.len(),
{
    let init = more.drop_last();
    let before = with_categories(s, init);
    if k < before.len() {
        let j = lemma_category_from(s, init, k);
        assert(more[j] == init[j]);
        j
    } else {
        more.len() - 1
    }
}

/// A category of a backup that was not there comes back with its name, its place and
/// whether it is updated; those that were there stay as they are.
pub proof fn law_restored_categories_are_those_of_the_backup(
    before: DbView,
    user_id: Uuid,
    b: BackupView,
    now: Timestamp,
    after: DbView,
    summary: RestoreSummary,
    i: int,
)
    requires
        restore_outcome(before, user_id, b, now, after, Ok(summary)),
        0 <= i < b.categories.len(),
        forall|j: int| 0 <= j < i ==> (#[trigger] b.categories[j]).id@ != b.categories[i].id@,
    ensures
        (forall|k: int|
            0 <= k < before.categories.len() ==> (#[trigger] before.categories[k]).id@
                != b.categories[i].id@) ==> after.categories.contains(b.categories[i]),
        after.categories.take(before.categories.len() as int) == before.categories,
        summary.categories == count32(after.categories.len() - before.categories.len()),
{
    lemma_category_added(before.categories, b.categories, i);
}

/// After a restore the reader has read what they had read, and what the backup says they
/// had, of the units that are there; nobody else's marks change.
pub proof fn law_restored_marks_are_those_of_the_backup(
    before: DbView,
    user_id: Uuid,
    b: BackupView,
    now: Timestamp,
    after: DbView,
    summary: RestoreSummary,
    who: Uuid,
    unit_id: Uuid,
)
    requires
        before.wf(),
        restore_outcome(before, user_id, b, now, after, Ok(summary)),
    ensures
        has_read(after.marks, who, unit_id) <==> has_read(before.marks, who, unit_id) || (who == user_id
            && b.read_unit_ids.contains(unit_id) && unit_there(after.units, unit_id)),
        summary.read_marks == count32(after.marks.len() - before.marks.len()),
{
    let publications = with_publications(before.publications, b.publications)->0;
    lemma_units_kept(before.units, publications, b.units);
    let p = |id: Uuid| has_unit(after.units, id);
    let ids = known_ids(after.units, b.read_unit_ids);
    lemma_filter_contains(b.read_unit_ids, p);
    assert forall|i: int| 0 <= i < ids.len() implies has_unit(after.units, #[trigger] ids[i]) by {
        assert(ids.contains(ids[i]));
    }
    assert forall|k: int| 0 <= k < before.marks.len() implies has_unit(
        after.units,
        (#[trigger] before.marks[k]).unit_id,
    ) by {
        assert(has_unit(before.units, before.marks[k].unit_id));
        let n = choose|n: int|
            0 <= n < before.units.len() && (#[trigger] before.units[n]).id == before.marks[k].unit_id;
        assert(after.units.take(before.units.len() as int)[n] == before.units[n]);
        assert(after.units[n].id == before.marks[k].unit_id);
    }
    lemma_with_marks(before.marks, after.units, user_id, ids, now);
    assert(marked(after.marks, who, unit_id) <==> has_read(after.marks, who, unit_id));
    assert(marked(before.marks, who, unit_id) <==> has_read(before.marks, who, unit_id));
    assert(ids.contains(unit_id) <==> b.read_unit_ids.contains(unit_id) && has_unit(after.units, unit_id));
}

/// A backup's event that the journal did not have is in it after a restore, as this
/// reader's and just as the backup has it, exactly where its publication and its unit are
/// there; and the journal that was there stays in front of what came.
pub proof fn law_restored_events_are_those_of_the_backup(
    before: DbView,
    user_id: Uuid,
    b: BackupView,
    now: Timestamp,
    after: DbView,
    summary: RestoreSummary,
    i: int,
)
    requires
        restore_outcome(before, user_id, b, now, after, Ok(summary)),
        0 <= i < b.progress.len(),
        !event_there(before.journal, b.progress[i].id),
        forall|k: int|
            0 <= k < b.progress.len() && k != i ==> (#[trigger] b.progress[k]).id != b.progress[i].id,
    ensures
        recorded_for(after.journal, user_id, b.progress[i]) <==> publication_there(
            after.publications,
            b.progress[i].publication_id,
        ) && unit_there(after.units, b.progress[i].unit_id),
        after.journal.take(before.journal.len() as int) == before.journal,
        summary.progress_events == count32(after.journal.len() - before.journal.len()),
{
    let publications = with_publications(before.publications, b.publications)->0;
    let units = with_units(before.units, publications, b.units)->Ok_0;
    let mid = DbView {
        categories: with_categories(before.categories, b.categories),
        publications,
        units,
        marks: with_marks(before.marks, user_id, known_ids(units, b.read_unit_ids), now),
        ..before
    };
    assert(after == pushed(mid, user_id, b.progress));
    law_a_push_records_what_applies(mid, user_id, b.progress, i);
}

/// A sorted list holds what the list held.
proof fn lemma_sorted_holds<T>(s: Seq<T>, le: spec_fn(T, T) -> bool, x: T)
    ensures
        crate::order::sorted(s, le).contains(x) <==> s.contains(x),
        crate::order::sorted(s, le).len() == s.len(),
{
    broadcast use vstd::seq_lib::group_to_multiset_ensures;

    lemma_sorted_multiset(s, le);
    crate::order::lemma_sorted_len(s, le);
    let out = crate::order::sorted(s, le);
    assert(out.contains(x) <==> out.to_multiset().contains(x));
    assert(s.contains(x) <==> s.to_multiset().contains(x));
}

/// A backup holds the whole library and all of the reader's state: every category, every
/// publication with its genres, every unit as it is, a mark exactly for each unit the reader
/// has read, and exactly the reader's events.
pub proof fn law_a_backup_holds_everything(
    db: DbView,
    user_id: Uuid,
    c: Category,
    k: int,
    u: ReadingUnit,
    unit_id: Uuid,
    e: ProgressEvent,
)
    ensures
        backup_of(db, user_id).categories.contains(c) <==> db.categories.contains(c),
        backup_of(db, user_id).publications.len() == db.publications.len(),
        0 <= k < db.publications.len() ==> exists|p: PublicationView|
            #[trigger] backup_of(db, user_id).publications.contains(p) && same_publication(
                p,
                db.publications[k],
            ),
        backup_of(db, user_id).units.contains(u) <==> db.units.contains(u),
        backup_of(db, user_id).units.len() == db.units.len(),
        backup_of(db, user_id).read_unit_ids.contains(unit_id) <==> has_read(db.marks, user_id, unit_id),
        backup_of(db, user_id).progress.contains(e) <==> recorded_for(db.journal, user_id, e),
{
    let b = backup_of(db, user_id);
    lemma_sorted_holds(db.categories, |a: Category, b: Category| category_le(a, b), c);
    let f = |p: PublicationView| shown(p);
    let rows = db.publications.map_values(f);
    let tle = |a: PublicationView, b: PublicationView| crate::db::publications::title_le(a, b);
    if 0 <= k < db.publications.len() {
        let p = shown(db.publications[k]);
        assert(rows[k] == p);
        assert(rows.contains(p));
        lemma_sorted_holds(rows, tle, p);
        lemma_genre_order(db.publications[k].genres);
        assert(b.publications.contains(p));
    }
    crate::order::lemma_sorted_len(rows, tle);
    lemma_sorted_holds(
        db.units,
        |a: ReadingUnit, b: ReadingUnit| a.publication_id <= b.publication_id,
        u,
    );
    let q = |m: ReadMark| m.user_id == user_id;
    let own = db.marks.filter(q);
    lemma_filter_contains(db.marks, q);
    if b.read_unit_ids.contains(unit_id) {
        let n = choose|n: int| 0 <= n < own.len() && marked_units(own)[n] == unit_id;
        assert(own.contains(own[n]));
        let m = choose|m: int| 0 <= m < db.marks.len() && db.marks[m] == own[n];
        assert(db.marks[m].user_id == user_id);
    }
    if has_read(db.marks, user_id, unit_id) {
        let m = choose|m: int|
            0 <= m < db.marks.len() && (#[trigger] db.marks[m]).user_id == user_id && db.marks[m].unit_id
                == unit_id;
        assert(db.marks.contains(db.marks[m]));
        assert(own.contains(db.marks[m]));
        let n = choose|n: int| 0 <= n < own.len() && own[n] == db.marks[m];
        assert(marked_units(own)[n] == unit_id);
    }
    let r = |x: JournalEntry| x.user_id == user_id;
    let mine = db.journal.filter(r);
    lemma_filter_contains(db.journal, r);
    if b.progress.contains(e) {
        let n = choose|n: int| 0 <= n < mine.len() && events_in(mine)[n] == e;
        assert(mine.contains(mine[n]));
        let m = choose|m: int| 0 <= m < db.journal.len() && db.journal[m] == mine[n];
        assert(db.journal[m].user_id == user_id);
    }
    if recorded_for(db.journal, user_id, e) {
        let m = choose|m: int|
            0 <= m < db.journal.len() && (#[trigger] db.journal[m]).user_id == user_id && db.journal[m].event
                == e;
        assert(db.journal.contains(db.journal[m]));
        assert(mine.contains(db.journal[m]));
        let n = choose|n: int| 0 <= n < mine.len() && mine[n] == db.journal[m];
        assert(events_in(mine)[n] == e);
    }
}

}
