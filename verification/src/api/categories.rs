//! Categories in the API.

use vstd::prelude::*;

use crate::api::error::ApiError;
use crate::db::categories::{category_of, category_order, switched};
use crate::db::publications::has_category;
use crate::db::{Db, DbView};
use crate::domain::api::UpdateCategoryRequest;
use crate::domain::publication::Category;

verus! {

/// Lists the categories in the order in which they are shown.
pub fn list(db: &Db) -> (r: Vec<Category>)
    ensures
        r@ == category_order(db@.categories),
{
    db.list_categories()
}

/// Sets whether a category is updated.
pub fn update(db: &mut Db, id: &str, req: UpdateCategoryRequest) -> (r: Result<Category, ApiError>)
    requires
        old(db).wf(),
    ensures
        final(db).wf(),
        final(db)@ == (DbView {
            categories: old(db)@.categories.map_values(
                |c: Category| switched(c, id@, req.update_enabled),
            ),
            ..old(db)@
        }),
        match r {
            Ok(c) => has_category(old(db)@.categories, id@) && c == (Category {
                update_enabled: req.update_enabled,
                ..category_of(old(db)@.categories, id@)
            }),
            Err(e) => !has_category(old(db)@.categories, id@) && e == ApiError::NotFound,
        },
{
    match db.set_category_update(id, req.update_enabled) {
        Ok(c) => Ok(c),
        Err(e) => Err(ApiError::from_db(e)),
    }
}

}
