//! What a look into the books directory finds, and what it leaves behind.

use vstd::prelude::*;

use crate::clock::Timestamp;
use crate::db::backup_laws::lemma_distinct_genres;
use crate::db::plain::{no_text_twice, same_texts};
use crate::db::publications::{bare, local_shelf, title_le};
use crate::db::shelf_laws::lemma_titles_rank;
use crate::db::DbView;
use crate::domain::publication::{Origin, PublicationView};
use crate::domain::source::{ChapterNumber, ChapterRef, MangaDetails};
use crate::door_laws::{lemma_one_piece, lemma_pieces_append};
use crate::downloader::{file_name, path_extension};
use crate::ids::Uuid;
use crate::order::{is_ranking, lemma_lexical_total, lemma_lexical_transitive, lemma_sorted, lexical, sorted};
use crate::streamer::keys::{key_allowed, resolved, value_of, within};
use crate::streamer::pages::{after_dot, law_pages_come_in_reading_order, page_number, page_order, type_of_extension};
use crate::streamer::scan::{all_missed, book_noted, gone, law_known_books_lie_at_their_path, lies_at, take_up_outcome, vanished};
use crate::streamer::series::{
    archive_name, chapter_is, cover_of, first_there, found_among, is_unit, law_units_come_in_reading_order, path_order, shape, single_is,
    title_text, unit_order, units_of, Discovered, Entry, Shape,
};
use crate::streamer::SourceError;
use crate::tables::{lemma_filter_contains, lemma_filter_push};
use crate::text::{begins_with, finishes_with, last_index, lemma_last_index, lemma_last_index_is, pieces};
use crate::text_laws::law_suffixes_are_taken_off;

verus! {

// ---- books that are known ----

/// What was found of a known book is noted on it: its description, its cover and its genres,
/// each once, and that it is there. Nothing else of it changes, and no other publication does.
pub proof fn law_found_books_are_noted(db: DbView, id: Uuid, details: MangaDetails, k: int)
    requires
        0 <= k < db.publications.len(),
    ensures
        ({
            let p = db.publications[k];
            let q = book_noted(db, id, details).publications[k];
            &&& book_noted(db, id, details).publications.len() == db.publications.len()
            &&& p.id != id ==> q == p
            &&& p.id == id ==> {
                &&& q.description == details.description
                &&& q.cover_url == details.summary.cover_url
                &&& q.missing_since is None
                &&& same_texts(q.genres, details.genres@) && no_text_twice(q.genres)
                &&& q.id == p.id && q.kind == p.kind && q.origin == p.origin && q.title == p.title
                &&& q.auto_download == p.auto_download && q.category == p.category
                &&& q.added_at == p.added_at && q.last_checked_at == p.last_checked_at
            }
            &&& book_noted(db, id, details).units == db.units
        }),
{
    lemma_distinct_genres(details.genres@);
}

/// A publication whose file was not found.
pub open spec fn not_found(p: PublicationView, found: Seq<Discovered>) -> bool {
    p.origin matches Origin::LocalFile { path } && forall|i: int|
        0 <= i < found.len() ==> (#[trigger] found[i]).path@ != path@
}

/// Which publications have vanished.
proof fn lemma_gone(s: Seq<PublicationView>, found: Seq<Discovered>, id: Uuid)
    ensures
        gone(s, found).contains(id) <==> exists|k: int|
            0 <= k < s.len() && (#[trigger] s[k]).id == id && s[k].missing_since is None && not_found(
                s[k],
                found,
            ),
    decreases s.len(),
{
    if s.len() > 0 {
        let d = s.drop_last();
        let x = s.last();
        lemma_gone(d, found, id);
        let before = gone(d, found);
        let all = gone(s, found);
        assert(s[s.len() - 1] == x);
        assert(vanished(x, found) <==> x.missing_since is None && not_found(x, found));
        if all.contains(id) {
            let n = choose|n: int| 0 <= n < all.len() && all[n] == id;
            if n < before.len() {
                assert(before[n] == id);
                assert(before.contains(id));
                let k = choose|k: int|
                    0 <= k < d.len() && (#[trigger] d[k]).id == id && d[k].missing_since is None
                        && not_found(d[k], found);
                assert(s[k] == d[k]);
            }
        }
        if exists|k: int|
            0 <= k < s.len() && (#[trigger] s[k]).id == id && s[k].missing_since is None && not_found(
                s[k],
                found,
            ) {
            let k = choose|k: int|
                0 <= k < s.len() && (#[trigger] s[k]).id == id && s[k].missing_since is None && not_found(
                    s[k],
                    found,
                );
            if k < d.len() {
                assert(d[k] == s[k]);
                let n = choose|n: int| 0 <= n < before.len() && before[n] == id;
                assert(all[n] == id);
            } else {
                assert(all[before.len() as int] == id);
            }
        }
    }
}

/// What noting identifiers as missing does to a row.
proof fn lemma_missed(db: DbView, ids: Seq<Uuid>, now: Timestamp, k: int)
    requires
        0 <= k < db.publications.len(),
    ensures
        all_missed(db, ids, now).publications.len() == db.publications.len(),
        all_missed(db, ids, now).publications[k] == (if ids.contains(db.publications[k].id) {
            PublicationView { missing_since: Some(now), ..db.publications[k] }
        } else {
            db.publications[k]
        }),
        all_missed(db, ids, now).units == db.units,
    decreases ids.len(),
{
    if ids.len() > 0 {
        let d = ids.drop_last();
        lemma_missed(db, d, now, k);
        let id = db.publications[k].id;
        assert(ids[ids.len() - 1] == ids.last());
        assert(ids.contains(id) <==> d.contains(id) || id == ids.last()) by {
            if d.contains(id) {
                let n = choose|n: int| 0 <= n < d.len() && d[n] == id;
                assert(ids[n] == id);
            }
            if ids.contains(id) && id != ids.last() {
                let n = choose|n: int| 0 <= n < ids.len() && ids[n] == id;
                assert(d[n] == id);
            }
        }
    }
}

/// After a look into the books directory a publication is missing since then exactly where it is
/// a file that was not found and that was not missed before. One that was missed before keeps
/// its time, and nothing else changes.
pub proof fn law_vanished_books_are_missed(db: DbView, found: Seq<Discovered>, now: Timestamp, k: int)
    requires
        db.wf(),
        0 <= k < db.publications.len(),
    ensures
        ({
            let p = db.publications[k];
            let after = all_missed(db, gone(local_shelf(db), found), now);
            &&& after.publications.len() == db.publications.len()
            &&& after.publications[k] == (if p.missing_since is None && not_found(p, found) {
                PublicationView { missing_since: Some(now), ..p }
            } else {
                p
            })
            &&& after.units == db.units
        }),
{
    let local = |p: PublicationView| p.origin is LocalFile;
    let f = |p: PublicationView| bare(p);
    let rows = db.publications.filter(local);
    let shelf = local_shelf(db);
    let p = db.publications[k];
    lemma_titles_rank();
    lemma_sorted(rows.map_values(f), |a: PublicationView, b: PublicationView| title_le(a, b));
    lemma_filter_contains(db.publications, local);
    lemma_gone(shelf, found, p.id);
    lemma_missed(db, gone(shelf, found), now, k);
    if gone(shelf, found).contains(p.id) {
        let n = choose|n: int|
            0 <= n < shelf.len() && (#[trigger] shelf[n]).id == p.id && shelf[n].missing_since is None
                && not_found(shelf[n], found);
        assert(shelf.contains(shelf[n]));
        assert(rows.map_values(f).contains(shelf[n]));
        let m = choose|m: int| 0 <= m < rows.len() && rows.map_values(f)[m] == shelf[n];
        assert(rows.contains(rows[m]));
        assert(db.publications.contains(rows[m]));
        let j = choose|j: int| 0 <= j < db.publications.len() && db.publications[j] == rows[m];
        assert(db.publications[j].id == db.publications[k].id);
        assert(j == k);
    }
    if p.missing_since is None && not_found(p, found) {
        assert(db.publications.contains(p));
        assert(rows.contains(p));
        let m = choose|m: int| 0 <= m < rows.len() && rows[m] == p;
        assert(rows.map_values(f)[m] == bare(p));
        assert(rows.map_values(f).contains(bare(p)));
        assert(shelf.contains(bare(p)));
        let n = choose|n: int| 0 <= n < shelf.len() && shelf[n] == bare(p);
        assert(shelf[n].id == p.id);
        assert(not_found(shelf[n], found));
    }
}

// ---- what lies there ----

/// An entry at the top of the books directory is a book of its own where it is an archive, a
/// series where it is a directory that holds an archive or a directory that is not hidden, and
/// nothing where it is any other file.
pub proof fn law_entries_are_told_by_what_they_hold(name: Seq<char>, children: Seq<Entry>, i: int)
    ensures
        shape(name, false, children) == Shape::Archive <==> archive_name(name),
        shape(name, false, children) == Shape::Archive || shape(name, false, children) == Shape::Nothing,
        0 <= i < children.len() && !begins_with(children[i].name@, "."@) && (children[i].is_dir
            || archive_name(children[i].name@)) ==> shape(name, true, children) == Shape::Series,
        children.len() == 0 ==> shape(name, true, children) == Shape::Nothing,
        shape(name, true, children) != Shape::Archive,
{
    if 0 <= i < children.len() && !begins_with(children[i].name@, "."@) && (children[i].is_dir
        || archive_name(children[i].name@)) {
        assert(is_unit(children[i]));
    }
}

/// A series is read by the numbers of its units, those without one behind the others and by
/// their titles; it is made of the directories and archives that are not hidden, and of nothing
/// else.
pub proof fn law_series_are_read_by_number(entries: Seq<Entry>, e: Entry, i: int, j: int)
    ensures
        units_of(entries).contains(e) <==> entries.contains(e) && !begins_with(e.name@, "."@) && (e.is_dir
            || archive_name(e.name@)),
        0 <= i < j < units_of(entries).len() ==> {
            let a = units_of(entries)[i];
            let b = units_of(entries)[j];
            &&& b.number is Some ==> a.number is Some && a.number->0.rank <= b.number->0.rank
            &&& a.number is None && b.number is None ==> lexical(
                title_text(a.name@),
                title_text(b.name@),
            )
        },
{
    broadcast use vstd::seq_lib::group_to_multiset_ensures;

    let p = |e: Entry| is_unit(e);
    law_units_come_in_reading_order(entries);
    lemma_filter_contains(entries, p);
    let u = units_of(entries);
    let kept = entries.filter(p);
    assert(u.contains(e) <==> u.to_multiset().count(e) > 0);
    assert(kept.contains(e) <==> kept.to_multiset().count(e) > 0);
    assert(kept.contains(e) <==> entries.contains(e) && p(e));
    if 0 <= i < j < u.len() {
        assert(unit_order()(u[i], u[j]));
    }
}

/// Of the names under which a cover may lie, the first that is there counts.
pub proof fn law_the_first_cover_counts(names: Seq<Seq<char>>, there: Seq<Seq<char>>, k: int)
    requires
        0 <= k < names.len(),
        there.contains(names[k]),
        forall|j: int| 0 <= j < k ==> !there.contains(#[trigger] names[j]),
    ensures
        first_there(names, there) == Some(names[k]),
    decreases names.len(),
{
    let d = names.drop_last();
    if k < d.len() {
        assert(d[k] == names[k]);
        assert forall|j: int| 0 <= j < k implies !there.contains(#[trigger] d[j]) by {
            assert(d[j] == names[j]);
        }
        law_the_first_cover_counts(d, there, k);
    } else {
        assert forall|j: int| 0 <= j < d.len() implies !there.contains(#[trigger] d[j]) by {
            assert(d[j] == names[j]);
        }
        lemma_none_there(d, there);
    }
}

/// Names of which none is there give none.
proof fn lemma_none_there(names: Seq<Seq<char>>, there: Seq<Seq<char>>)
    requires
        forall|j: int| 0 <= j < names.len() ==> !there.contains(#[trigger] names[j]),
    ensures
        first_there(names, there) is None,
    decreases names.len(),
{
    if names.len() > 0 {
        let d = names.drop_last();
        assert(names[names.len() - 1] == names.last());
        assert forall|j: int| 0 <= j < d.len() implies !there.contains(#[trigger] d[j]) by {
            assert(d[j] == names[j]);
        }
        lemma_none_there(d, there);
    }
}

/// A series without a cover file has the first page of its first unit for a cover.
pub proof fn law_the_first_page_stands_in(
    series: Seq<char>,
    there: Seq<Seq<char>>,
    first_page: Option<Seq<char>>,
)
    requires
        there.len() == 0,
    ensures
        cover_of(series, there, first_page) == first_page,
{
    let names = crate::streamer::series::cover_names();
    assert forall|j: int| 0 <= j < names.len() implies !there.contains(#[trigger] names[j]) by {}
    lemma_none_there(names, there);
}

/// All that was found is kept, by path; what could not be read and what is nothing is left out.
pub proof fn law_all_that_was_found_is_kept(
    outcomes: Seq<Result<Option<Discovered>, SourceError>>,
    d: Discovered,
    i: int,
    j: int,
)
    ensures
        sorted(found_among(outcomes), path_order()).contains(d) <==> outcomes.contains(
            Ok::<Option<Discovered>, SourceError>(Some(d)),
        ),
        0 <= i < j < sorted(found_among(outcomes), path_order()).len() ==> lexical(
            sorted(found_among(outcomes), path_order())[i].path@,
            sorted(found_among(outcomes), path_order())[j].path@,
        ),
{
    let le = path_order();
    assert(is_ranking(le)) by {
        assert forall|a: Discovered, b: Discovered| #[trigger] le(a, b) || le(b, a) by {
            lemma_lexical_total(a.path@, b.path@);
        }
        assert forall|a: Discovered, b: Discovered, c: Discovered| #[trigger] le(a, b) && #[trigger] le(
            b,
            c,
        ) implies le(a, c) by {
            lemma_lexical_transitive(a.path@, b.path@, c.path@);
        }
    }
    let found = found_among(outcomes);
    lemma_sorted(found, le);
    lemma_found(outcomes, d);
    if 0 <= i < j < sorted(found, le).len() {
        assert(le(sorted(found, le)[i], sorted(found, le)[j]));
    }
}

/// What was found is among what came of the entries.
proof fn lemma_found(outcomes: Seq<Result<Option<Discovered>, SourceError>>, x: Discovered)
    ensures
        found_among(outcomes).contains(x) <==> outcomes.contains(
            Ok::<Option<Discovered>, SourceError>(Some(x)),
        ),
    decreases outcomes.len(),
{
    if outcomes.len() > 0 {
        let d = outcomes.drop_last();
        lemma_found(d, x);
        let before = found_among(d);
        let all = found_among(outcomes);
        let it = Ok::<Option<Discovered>, SourceError>(Some(x));
        assert(outcomes[outcomes.len() - 1] == outcomes.last());
        if all.contains(x) {
            let n = choose|n: int| 0 <= n < all.len() && all[n] == x;
            if n < before.len() {
                assert(before[n] == x);
                let k = choose|k: int| 0 <= k < d.len() && d[k] == it;
                assert(outcomes[k] == it);
            }
        }
        if outcomes.contains(it) {
            let k = choose|k: int| 0 <= k < outcomes.len() && outcomes[k] == it;
            if k < d.len() {
                assert(d[k] == it);
                let n = choose|n: int| 0 <= n < before.len() && before[n] == x;
                assert(all[n] == x);
            } else {
                assert(all[before.len() as int] == x);
            }
        }
    }
}

// ---- keys and names ----

/// A path is given for a key only where the key may be, the path is there and can be resolved,
/// and it lies in the books directory; and then it is that path.
pub proof fn law_only_books_are_given_out(
    key: Seq<char>,
    exists: bool,
    dir: Result<Seq<char>, Seq<char>>,
    path: Result<Seq<char>, Seq<char>>,
)
    ensures
        resolved(key, exists, dir, path) is Ok <==> key_allowed(key) && exists && dir is Ok && path is Ok
            && within(path->Ok_0, dir->Ok_0),
        resolved(key, exists, dir, path) is Ok ==> resolved(key, exists, dir, path) == path,
{
}

/// Of several pairs with a name the first gives the value.
pub proof fn law_the_first_pair_gives_the_value(pairs: Seq<(Seq<char>, Seq<char>)>, name: Seq<char>, k: int)
    requires
        0 <= k < pairs.len(),
        pairs[k].0 == name,
        forall|j: int| 0 <= j < k ==> (#[trigger] pairs[j]).0 != name,
    ensures
        value_of(pairs, name) == Some(pairs[k].1),
    decreases pairs.len(),
{
    let d = pairs.drop_last();
    if k < d.len() {
        assert(d[k] == pairs[k]);
        assert forall|j: int| 0 <= j < k implies (#[trigger] d[j]).0 != name by {
            assert(d[j] == pairs[j]);
        }
        law_the_first_pair_gives_the_value(d, name, k);
    } else {
        assert forall|j: int| 0 <= j < d.len() implies (#[trigger] d[j]).0 != name by {
            assert(d[j] == pairs[j]);
        }
        law_missing_names_have_no_value(d, name);
    }
}

/// A name that no pair has gets no value.
pub proof fn law_missing_names_have_no_value(pairs: Seq<(Seq<char>, Seq<char>)>, name: Seq<char>)
    requires
        forall|j: int| 0 <= j < pairs.len() ==> (#[trigger] pairs[j]).0 != name,
    ensures
        value_of(pairs, name) is None,
    decreases pairs.len(),
{
    if pairs.len() > 0 {
        let d = pairs.drop_last();
        assert(pairs[pairs.len() - 1] == pairs.last());
        assert forall|j: int| 0 <= j < d.len() implies (#[trigger] d[j]).0 != name by {
            assert(d[j] == pairs[j]);
        }
        law_missing_names_have_no_value(d, name);
    }
}

/// What stands behind the last point of a name is its extension; a name without one has none.
pub proof fn law_extensions_stand_behind_the_last_point(stem: Seq<char>, ext: Seq<char>)
    requires
        forall|i: int| 0 <= i < ext.len() ==> #[trigger] ext[i] != '.',
    ensures
        after_dot(stem + seq!['.'] + ext) == Some(ext),
        after_dot(ext) is None,
{
    let name = stem + seq!['.'] + ext;
    let at = stem.len() as int;
    assert(name[at] == '.');
    assert forall|j: int| at < j < name.len() implies name[j] != '.' by {
        assert(name[j] == ext[j - at - 1]);
    }
    lemma_last_index_is(name, '.', at);
    assert(name.skip(at + 1) =~= ext);
    lemma_last_index(ext, '.');
    if last_index(ext, '.') is Some {
        let i = last_index(ext, '.')->0;
        assert(ext[i] == '.');
    }
}

/// Each of the known extensions has the content type that is named after it; any other, and
/// none, has that of JPEG.
pub proof fn law_content_types_are_named_after_extensions(ext: Seq<char>)
    ensures
        ext == "png"@ || ext == "webp"@ || ext == "gif"@ || ext == "avif"@ ==> type_of_extension(Some(ext))
            == "image/"@ + ext,
        ext != "png"@ && ext != "webp"@ && ext != "gif"@ && ext != "avif"@ ==> type_of_extension(Some(ext))
            == "image/jpeg"@,
        type_of_extension(None) == "image/jpeg"@,
{
    reveal_strlit("png");
    reveal_strlit("webp");
    reveal_strlit("gif");
    reveal_strlit("avif");
    reveal_strlit("image/");
    reveal_strlit("image/png");
    reveal_strlit("image/webp");
    reveal_strlit("image/gif");
    reveal_strlit("image/avif");
    assert("image/png"@ =~= "image/"@ + "png"@);
    assert("image/webp"@ =~= "image/"@ + "webp"@);
    assert("image/gif"@ =~= "image/"@ + "gif"@);
    assert("image/avif"@ =~= "image/"@ + "avif"@);
    assert("png"@[0] != "webp"@[0] && "png"@[0] != "gif"@[0] && "png"@[0] != "avif"@[0]);
    assert("webp"@[0] != "gif"@[0] && "webp"@[0] != "avif"@[0] && "gif"@[0] != "avif"@[0]);
}

/// A key with a hidden part, with a way up or that starts at the root is refused.
pub proof fn law_hidden_parts_are_refused(key: Seq<char>, i: int)
    requires
        0 <= i < pieces(key, '/').len(),
        pieces(key, '/')[i].len() > 1,
        pieces(key, '/')[i][0] == '.',
    ensures
        !key_allowed(key),
{
    reveal_strlit(".");
    let part = pieces(key, '/')[i];
    assert("."@.len() == 1);
    assert(!crate::streamer::keys::part_allowed(part, i));
}

/// A name that does not start with a point is a key, and so is one below another.
pub proof fn law_plain_names_are_keys(dir: Seq<char>, name: Seq<char>)
    requires
        dir.len() > 0 && dir[0] != '.',
        name.len() > 0 && name[0] != '.',
        forall|i: int| 0 <= i < dir.len() ==> #[trigger] dir[i] != '/',
        forall|i: int| 0 <= i < name.len() ==> #[trigger] name[i] != '/',
    ensures
        key_allowed(dir),
        key_allowed(dir + seq!['/'] + name),
{
    reveal_strlit(".");
    lemma_one_piece(dir, '/');
    lemma_pieces_append(dir, '/', name);
    assert("."@[0] == '.');
    let key = dir + seq!['/'] + name;
    let parts = pieces(key, '/');
    assert(parts.len() == 2 && parts[0] == dir && parts[1] == name);
}

/// Pages that all have numbers come by number, those of one number in dictionary order; pages none
/// of which has one come in dictionary order. All of them come, and nothing else.
pub proof fn law_pages_come_by_number(names: Seq<String>, name: String, i: int, j: int)
    requires
        (forall|k: int| 0 <= k < names.len() ==> page_number((#[trigger] names[k])@) is Some) || (
        forall|k: int| 0 <= k < names.len() ==> page_number((#[trigger] names[k])@) is None),
        0 <= i < j < names.len(),
    ensures
        ({
            let out = sorted(names, page_order());
            let x = page_number(out[i]@);
            let y = page_number(out[j]@);
            &&& out.len() == names.len()
            &&& out.contains(name) <==> names.contains(name)
            &&& x is Some && y is Some ==> x->0 <= y->0 && (x->0 == y->0 ==> lexical(out[i]@, out[j]@))
            &&& x is None && y is None ==> lexical(out[i]@, out[j]@)
            &&& x is Some <==> y is Some
        }),
{
    broadcast use vstd::seq_lib::group_to_multiset_ensures;

    law_pages_come_in_reading_order(names);
    let out = sorted(names, page_order());
    assert(out.len() == out.to_multiset().len() && names.len() == names.to_multiset().len());
    assert(page_order()(out[i], out[j]));
    assert(out.contains(name) <==> out.to_multiset().count(name) > 0);
    assert(names.contains(name) <==> names.to_multiset().count(name) > 0);
    let a = out[i];
    let b = out[j];
    assert(out.contains(a) && out.contains(b));
    assert(names.to_multiset().count(a) > 0 && names.to_multiset().count(b) > 0);
    assert(names.contains(a) && names.contains(b));
    let m = choose|m: int| 0 <= m < names.len() && names[m] == a;
    let n = choose|n: int| 0 <= n < names.len() && names[n] == b;
    assert(page_number(names[m]@) is Some <==> page_number(names[n]@) is Some);
}

/// A file is known by what stands behind the last slash of its path, and its extension by what
/// stands behind the last point of that; a point at the start opens none.
pub proof fn law_paths_end_in_a_name(dir: Seq<char>, stem: Seq<char>, ext: Seq<char>)
    requires
        stem.len() > 0,
        forall|i: int| 0 <= i < stem.len() ==> #[trigger] stem[i] != '/',
        forall|i: int| 0 <= i < ext.len() ==> #[trigger] ext[i] != '/' && ext[i] != '.',
        ext.len() > 0,
    ensures
        file_name(dir + seq!['/'] + (stem + seq!['.'] + ext)) == Some(stem + seq!['.'] + ext),
        path_extension(dir + seq!['/'] + (stem + seq!['.'] + ext)) == Some(ext),
        path_extension(dir + seq!['/'] + (seq!['.'] + ext)) is None,
{
    reveal_strlit(".");
    reveal_strlit("..");
    let name = stem + seq!['.'] + ext;
    let hidden = seq!['.'] + ext;
    let p = |part: Seq<char>| part.len() > 0 && part != "."@;
    assert forall|i: int| 0 <= i < name.len() implies #[trigger] name[i] != '/' by {
        if i < stem.len() {
            assert(name[i] == stem[i]);
        } else if i > stem.len() {
            assert(name[i] == ext[i - stem.len() - 1]);
        }
    }
    assert forall|i: int| 0 <= i < hidden.len() implies #[trigger] hidden[i] != '/' by {
        if i > 0 {
            assert(hidden[i] == ext[i - 1]);
        }
    }
    lemma_pieces_append(dir, '/', name);
    lemma_pieces_append(dir, '/', hidden);
    lemma_filter_push(pieces(dir, '/'), name, p);
    lemma_filter_push(pieces(dir, '/'), hidden, p);
    assert(name.len() > 1 && hidden.len() > 1);
    assert(name[name.len() - 1] == ext[ext.len() - 1]);
    assert(hidden[hidden.len() - 1] == ext[ext.len() - 1]);
    assert(".."@.len() == 2 && ".."@[1] == '.');
    assert(name != ".."@ && hidden != ".."@);
    let at = stem.len() as int;
    assert(name[at] == '.');
    assert forall|j: int| at < j < name.len() implies name[j] != '.' by {
        assert(name[j] == ext[j - at - 1]);
    }
    lemma_last_index_is(name, '.', at);
    assert(name.skip(at + 1) =~= ext);
    assert forall|j: int| 0 < j < hidden.len() implies hidden[j] != '.' by {
        assert(hidden[j] == ext[j - 1]);
    }
    lemma_last_index_is(hidden, '.', 0);
}

/// The chapters of a series carry the key, the title and the number of their units, and their
/// places count down to nought: what is read later stands higher in the listing, as with sources
/// that list the newest first.
pub proof fn law_chapters_count_down(
    a: ChapterRef,
    b: ChapterRef,
    series: Seq<char>,
    units: Seq<Entry>,
    i: int,
    j: int,
)
    requires
        0 <= i < j < units.len(),
        chapter_is(a, series, units[i], units.len() - 1 - i),
        chapter_is(b, series, units[j], units.len() - 1 - j),
    ensures
        a.source_order > b.source_order,
        a.source_order - b.source_order == j - i,
        j == units.len() - 1 ==> b.source_order == 0,
        a.key@ == series + seq!['/'] + units[i].name@,
        a.title@ == title_text(units[i].name@),
        a.number == units[i].number,
        a.scanlator is None && a.published_at is None,
{
    reveal_strlit("/");
    assert("/"@ =~= seq!['/']);
}

/// An archive's title is its name without the extension, in small letters or in capitals; a name
/// without it is its own title.
pub proof fn law_titles_lose_the_extension(name: Seq<char>)
    requires
        !finishes_with(name, ".cbz"@),
        !finishes_with(name, ".CBZ"@),
    ensures
        title_text(name) == name,
        title_text(name + ".cbz"@) == name,
        !finishes_with(name + ".CBZ"@, ".cbz"@) ==> title_text(name + ".CBZ"@) == name,
{
    reveal_strlit(".cbz");
    reveal_strlit(".CBZ");
    law_suffixes_are_taken_off(name, ".cbz"@);
    law_suffixes_are_taken_off(name, ".CBZ"@);
    law_suffixes_are_taken_off(name + ".CBZ"@, ".cbz"@);
}

/// A book of its own has one chapter; both are known by its path, carry its title, and the chapter
/// its number.
pub proof fn law_a_book_is_its_own_chapter(
    d: MangaDetails,
    path: Seq<char>,
    title: Seq<char>,
    number: Option<ChapterNumber>,
)
    requires
        single_is(d, path, title, number),
    ensures
        d.summary.key@ == path && d.summary.title@ == title,
        d.chapters@.len() == 1,
        d.chapters@[0].key@ == path && d.chapters@[0].title@ == title && d.chapters@[0].number == number,
        d.chapters@[0].source_order == 0,
        d.genres@.len() == 0 && d.description is None && d.summary.cover_url is None,
{
}

/// A book that lies where no publication does is added as one, and is said to be new; one that lies
/// where a publication does adds none, and is not.
pub proof fn law_books_are_taken_up_once(
    before: DbView,
    book: Discovered,
    id: Uuid,
    ids: Seq<Uuid>,
    now: Timestamp,
    after: DbView,
    new: bool,
)
    requires
        take_up_outcome(before, book, id, ids, now, after, Ok(new)),
    ensures
        new <==> !exists|k: int|
            0 <= k < before.publications.len() && #[trigger] lies_at(before.publications[k], book.path@),
        new ==> after.publications.len() == before.publications.len() + 1 && lies_at(
            after.publications[before.publications.len() as int],
            book.path@,
        ) && after.publications[before.publications.len() as int].title
            == book.details.summary.title,
        !new ==> after.publications.len() == before.publications.len(),
{
    law_known_books_lie_at_their_path(before, book.path@);
    if exists|k: int| 0 <= k < before.publications.len() && #[trigger] lies_at(before.publications[k], book.path@) {
        let k = choose|k: int| 0 <= k < before.publications.len() && #[trigger] lies_at(before.publications[k], book.path@);
        assert(lies_at(before.publications[k], book.path@));
    }
}

}
