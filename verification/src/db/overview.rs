//! What the library's list needs of all publications at once.

use vstd::prelude::*;

use crate::db::publications::{genre_order, has_units, publication_of, publication_views, rollup_of, sort_genres, unit_title};
use crate::db::progress::position_in;
use crate::db::{has_publication, Db, DbView, LibraryRollup};
use crate::domain::progress::Locator;
use crate::domain::publication::{PublicationView, ReadingUnit};
use crate::ids::Uuid;
use crate::tables::any;

verus! {

/// The sums over each publication's units, of those that have any.
pub open spec fn rollups(db: DbView, reader: Option<Uuid>, s: Seq<PublicationView>) -> Seq<(Uuid, LibraryRollup)>
    decreases s.len(),
{
    if s.len() == 0 {
        Seq::empty()
    } else {
        let before = rollups(db, reader, s.drop_last());
        if has_units(db.units, s.last().id) {
            before.push((s.last().id, rollup_of(db, reader, s.last().id)))
        } else {
            before
        }
    }
}

/// A reader's place in each publication, of those in which there is one, with the title
/// of the unit it is in.
pub open spec fn places(db: DbView, user_id: Uuid, s: Seq<PublicationView>) -> Seq<
    (Uuid, (Locator, Option<String>)),
>
    decreases s.len(),
{
    if s.len() == 0 {
        Seq::empty()
    } else {
        let before = places(db, user_id, s.drop_last());
        match position_in(db.journal, user_id, s.last().id) {
            Some(l) => before.push((s.last().id, (l, unit_title(db.units, l.unit_id)))),
            None => before,
        }
    }
}

/// The titles of the publications that are named and there, once for each naming.
pub open spec fn titles(s: Seq<PublicationView>, ids: Seq<Uuid>) -> Seq<(Uuid, String)>
    decreases ids.len(),
{
    if ids.len() == 0 {
        Seq::empty()
    } else {
        let before = titles(s, ids.drop_last());
        if has_publication(s, ids.last()) {
            before.push((ids.last(), publication_of(s, ids.last()).title))
        } else {
            before
        }
    }
}

/// The genres of each publication that has any, in order.
pub open spec fn genre_lists(s: Seq<PublicationView>) -> Seq<(Uuid, Seq<String>)>
    decreases s.len(),
{
    if s.len() == 0 {
        Seq::empty()
    } else {
        let before = genre_lists(s.drop_last());
        if s.last().genres.len() > 0 {
            before.push((s.last().id, genre_order(s.last().genres)))
        } else {
            before
        }
    }
}

/// Lists of genres, by what they hold.
pub open spec fn genre_texts(s: Seq<(Uuid, Vec<String>)>) -> Seq<(Uuid, Seq<String>)> {
    s.map_values(|x: (Uuid, Vec<String>)| (x.0, x.1@))
}

impl Db {
    /// The sums over each publication's units, for a reader or for nobody in particular.
    pub fn library_rollups(&self, reader: Option<Uuid>) -> (r: Vec<(Uuid, LibraryRollup)>)
        ensures
            r@ == rollups(self@, reader, self@.publications),
    {
        let mut out: Vec<(Uuid, LibraryRollup)> = Vec::new();
        let mut i: usize = 0;
        assert(self@.publications.take(0) =~= Seq::empty());
        while i < self.publications.len()
            invariant
                i <= self.publications@.len(),
                self@.publications == publication_views(self.publications@),
                out@ == rollups(self@, reader, self@.publications.take(i as int)),
            decreases self.publications@.len() - i,
        {
            assert(self@.publications.take(i + 1).drop_last() =~= self@.publications.take(i as int));
            let id = self.publications[i].id;
            assert(self@.publications.take(i + 1).last().id == id);
            let own = |u: &ReadingUnit| -> (b: bool)
                ensures b == (u.publication_id == id)
            {
                u.publication_id == id
            };
            if any(&self.units, own, Ghost(|u: ReadingUnit| u.publication_id == id)) {
                out.push((id, self.library_rollup(reader, id)));
            }
            i += 1;
        }
        assert(self@.publications.take(self@.publications.len() as int) =~= self@.publications);
        out
    }

    /// A reader's place in each publication, with the title of the unit it is in.
    pub fn latest_positions(&self, user_id: Uuid) -> (r: Vec<(Uuid, (Locator, Option<String>))>)
        requires
            self.wf(),
        ensures
            r@ == places(self@, user_id, self@.publications),
    {
        let mut out: Vec<(Uuid, (Locator, Option<String>))> = Vec::new();
        let mut i: usize = 0;
        assert(self@.publications.take(0) =~= Seq::empty());
        while i < self.publications.len()
            invariant
                self.wf(),
                i <= self.publications@.len(),
                self@.publications == publication_views(self.publications@),
                out@ == places(self@, user_id, self@.publications.take(i as int)),
            decreases self.publications@.len() - i,
        {
            assert(self@.publications.take(i + 1).drop_last() =~= self@.publications.take(i as int));
            let id = self.publications[i].id;
            assert(self@.publications.take(i + 1).last().id == id);
            match self.latest_place(user_id, id) {
                Some(place) => {
                    out.push((id, place));
                },
                None => {},
            }
            i += 1;
        }
        assert(self@.publications.take(self@.publications.len() as int) =~= self@.publications);
        out
    }

    /// The titles of publications.
    pub fn publication_titles(&self, ids: &Vec<Uuid>) -> (r: Vec<(Uuid, String)>)
        requires
            self.wf(),
        ensures
            r@ == titles(self@.publications, ids@),
    {
        let mut out: Vec<(Uuid, String)> = Vec::new();
        let mut i: usize = 0;
        assert(ids@.take(0) =~= Seq::empty());
        while i < ids.len()
            invariant
                self.wf(),
                i <= ids@.len(),
                out@ == titles(self@.publications, ids@.take(i as int)),
            decreases ids@.len() - i,
        {
            assert(ids@.take(i + 1).drop_last() =~= ids@.take(i as int));
            match self.publication_title(ids[i]) {
                Some(title) => {
                    out.push((ids[i], title));
                },
                None => {},
            }
            i += 1;
        }
        assert(ids@.take(ids@.len() as int) =~= ids@);
        out
    }

    /// The genres of each publication that has any, in order.
    pub fn genres_by_publication(&self) -> (r: Vec<(Uuid, Vec<String>)>)
        requires
            self.wf(),
        ensures
            genre_texts(r@) == genre_lists(self@.publications),
    {
        let mut out: Vec<(Uuid, Vec<String>)> = Vec::new();
        let mut i: usize = 0;
        assert(self@.publications.take(0) =~= Seq::empty());
        assert(genre_texts(out@) =~= Seq::empty());
        while i < self.publications.len()
            invariant
                self.wf(),
                i <= self.publications@.len(),
                self@.publications == publication_views(self.publications@),
                genre_texts(out@) == genre_lists(self@.publications.take(i as int)),
            decreases self.publications@.len() - i,
        {
            let ghost had = out@;
            assert(self@.publications.take(i + 1).drop_last() =~= self@.publications.take(i as int));
            let p = &self.publications[i];
            assert(self@.publications.take(i + 1).last() == p@);
            if p.genres.len() > 0 {
                out.push((p.id, sort_genres(p.genres.clone())));
                assert(genre_texts(out@) =~= genre_texts(had).push((p.id, genre_order(p.genres@))));
            }
            i += 1;
        }
        assert(self@.publications.take(self@.publications.len() as int) =~= self@.publications);
        out
    }

    /// A publication's genres, in order; none where it is not there.
    pub fn genres_for(&self, publication_id: Uuid) -> (r: Vec<String>)
        requires
            self.wf(),
        ensures
            r@ == (if has_publication(self@.publications, publication_id) {
                genre_order(publication_of(self@.publications, publication_id).genres)
            } else {
                Seq::empty()
            }),
    {
        match self.get_publication(publication_id) {
            Ok(p) => {
                assert(p@.genres == p.genres@);
                p.genres
            },
            Err(_) => Vec::new(),
        }
    }
}

}
