//! What recent checks found.

use vstd::prelude::*;

use crate::clock::{days_from, shifted_days, Timestamp, FIRST_SECOND};
use crate::db::updates::{limited, shown_update, updates_after};
use crate::db::{Db, UpdateRow};
use crate::domain::api::UpdatesResponse;

verus! {

/// From when on a client wants to hear.
#[derive(Clone, Copy, Debug, PartialEq, Eq, Structural)]
pub struct UpdatesQuery {
    pub since: Option<Timestamp>,
}

/// How far back a client hears that names no time, in days.
pub const FEED_DAYS: i64 = 30;

/// The most that one answer holds.
pub const FEED_LIMIT: i64 = 100;

/// Lists what checks found since a time, newest first; where none is named, in the last
/// thirty days.
pub fn list(db: &Db, query: UpdatesQuery, now: Timestamp) -> (r: UpdatesResponse)
    requires
        db.wf(),
        now.valid(),
        now.nanos < 1_000_000_000,
        FIRST_SECOND + FEED_DAYS * 86_400 <= now.secs,
    ensures
        ({
            let since = match query.since {
                Some(t) => t,
                None => days_from(now, -FEED_DAYS),
            };
            r.updates@ == limited(updates_after(db@, since), FEED_LIMIT as int).map_values(
                |u: UpdateRow| shown_update(u, db@.publications),
            )
        }),
{
    let since = match query.since {
        Some(t) => t,
        None => shifted_days(now, -FEED_DAYS),
    };
    UpdatesResponse { updates: db.updates_since(since, FEED_LIMIT) }
}

}
