//! Categories: the sections of the shelf.

use vstd::prelude::*;

use crate::db::publications::has_category;
use crate::db::{Db, DbError, DbView};
use crate::domain::publication::Category;
use crate::order::{lexical, lexical_before, sort_by, sorted};
use crate::tables::{change_all, position};
use crate::text::same;

verus! {

/// Categories by position, then by identifier.
pub open spec fn category_le(a: Category, b: Category) -> bool {
    a.position < b.position || (a.position == b.position && lexical(a.id@, b.id@))
}

/// Categories in the order in which they are shown.
pub open spec fn category_order(s: Seq<Category>) -> Seq<Category> {
    sorted(s, |a: Category, b: Category| category_le(a, b))
}

/// A category with its updating set, where it has the identifier.
pub open spec fn switched(c: Category, id: Seq<char>, update_enabled: bool) -> Category {
    if c.id@ == id {
        Category { update_enabled, ..c }
    } else {
        c
    }
}

/// The category with the identifier.
pub open spec fn category_of(s: Seq<Category>, id: Seq<char>) -> Category {
    s[choose|i: int| 0 <= i < s.len() && (#[trigger] s[i]).id@ == id]
}

impl Db {
    /// All categories, in the order in which they are shown.
    pub fn list_categories(&self) -> (r: Vec<Category>)
        ensures
            r@ == category_order(self@.categories),
    {
        let before = |a: &Category, b: &Category| -> (r: bool)
            ensures r == category_le(*a, *b)
        {
            a.position < b.position || (a.position == b.position && lexical_before(
                a.id.as_str(),
                b.id.as_str(),
            ))
        };
        let rows = self.categories.clone();
        assert(rows@ =~= self.categories@);
        sort_by(rows, before, Ghost(|a: Category, b: Category| category_le(a, b)))
    }

    /// Sets whether a category is updated.
    pub fn set_category_update(&mut self, id: &str, update_enabled: bool) -> (r: Result<
        Category,
        DbError,
    >)
        requires
            old(self).wf(),
        ensures
            final(self).wf(),
            final(self)@ == (DbView {
                categories: old(self)@.categories.map_values(
                    |c: Category| switched(c, id@, update_enabled),
                ),
                ..old(self)@
            }),
            match r {
                Ok(c) => has_category(old(self)@.categories, id@) && c == (Category {
                    update_enabled,
                    ..category_of(old(self)@.categories, id@)
                }),
                Err(e) => !has_category(old(self)@.categories, id@) && e == DbError::NotFound,
            },
    {
        let ghost before = self@;
        let hit = |c: &Category| -> (b: bool)
            ensures b == (c.id@ == id@)
        { same(c.id.as_str(), id) };
        let found = position(&self.categories, hit, Ghost(|c: Category| c.id@ == id@));
        let step = |c: &Category| -> (d: Category)
            ensures d == switched(*c, id@, update_enabled)
        {
            let mut d = c.clone();
            if same(c.id.as_str(), id) {
                d.update_enabled = update_enabled;
            }
            d
        };
        change_all(
            &mut self.categories,
            step,
            Ghost(|c: Category| switched(c, id@, update_enabled)),
        );
        proof {
            assert forall|i: int| 0 <= i < self@.categories.len() implies (
            #[trigger] self@.categories[i]).id == before.categories[i].id by {}
        }
        match found {
            Some(i) => {
                proof {
                    let k = choose|k: int|
                        0 <= k < before.categories.len() && (#[trigger] before.categories[k]).id@ == id@;
                    assert(before.categories[i as int].id@ == id@);
                    assert(k == i);
                }
                Ok(self.categories[i].clone())
            },
            None => Err(DbError::NotFound),
        }
    }
}

}
