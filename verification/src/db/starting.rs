//! Starting: a store is opened, and old accounts are put in order.

use vstd::prelude::*;

use crate::clock::{is_reading, utc_now, Timestamp};
use crate::db::aliases::{all_unified, duplicates_in, owns_rows, unified, Unifying};
use crate::db::opening::{recovered, Tables};
use crate::db::users::{claim_blocked, claimed};
use crate::db::{is_dangling, is_taken, Db, DbError, DbView};
use crate::ids::{fresh_ids, timely_forms, Uuid};

verus! {

/// The tables once accounts that were made twice are one again.
pub open spec fn put_in_order(db: DbView) -> Unifying {
    all_unified(db, duplicates_in(db.users, db.users))
}

/// What starting makes of rows that were kept elsewhere: downloads that were interrupted
/// wait again, accounts that were made twice are one again, and the shared account's
/// history goes to the one reader it can belong to.
pub open spec fn start_outcome(kept: DbView, ids: Seq<Uuid>, now: Timestamp, r: Result<Db, DbError>) -> bool {
    let out = put_in_order(recovered(kept));
    if !kept.wf() {
        r matches Err(DbError::Corrupt(m)) && m@ == "rows break the constraints of their tables"@
    } else if !out.through {
        r matches Err(e) && is_dangling(e)
    } else if claim_blocked(out.db, ids) {
        r matches Err(e) && is_taken(e)
    } else {
        r matches Ok(db) && db.wf() && db@ == claimed(out.db, ids, now)
    }
}

/// Unifying accounts leaves the journal as long as it was, and its numbers where they
/// were.
proof fn lemma_unifying_keeps_the_journal(db: DbView, pairs: Seq<(Uuid, Uuid)>)
    ensures
        all_unified(db, pairs).db.journal.len() == db.journal.len(),
        all_unified(db, pairs).db.next_seq == db.next_seq,
        all_unified(db, pairs).db.units == db.units,
        all_unified(db, pairs).db.publications == db.publications,
    decreases pairs.len(),
{
    if pairs.len() > 0 {
        lemma_unifying_keeps_the_journal(db, pairs.drop_last());
    }
}

impl Db {
    /// Starts with rows that were kept elsewhere, with identifiers and a time at hand.
    pub fn connect_at(tables: Tables, ids: &Vec<Uuid>, now: Timestamp) -> (r: Result<Db, DbError>)
        requires
            tables.next_seq + tables.journal@.len() <= i64::MAX,
        ensures
            start_outcome(tables@, ids@, now, r),
    {
        let ghost kept = tables@;
        match Db::open(tables) {
            Err(e) => Err(e),
            Ok(opened) => {
                let mut db = opened;
                proof {
                    lemma_unifying_keeps_the_journal(db@, duplicates_in(db@.users, db@.users));
                }
                match db.reconcile_qualified_users() {
                    Err(e) => Err(e),
                    Ok(_) => match db.claim_shared_history_at(ids, now) {
                        Err(e) => Err(e),
                        Ok(_) => Ok(db),
                    },
                }
            },
        }
    }

    /// Starts with rows that were kept elsewhere, as of now.
    pub fn connect(tables: Tables) -> (r: Result<Db, DbError>)
        requires
            tables.next_seq + tables.journal@.len() <= i64::MAX,
        ensures
            exists|ids: Seq<Uuid>, now: Timestamp|
                timely_forms(ids, tables@.journal.len()) && is_reading(now) && #[trigger] start_outcome(
                    tables@,
                    ids,
                    now,
                    r,
                ),
    {
        let ids = fresh_ids(tables.journal.len());
        Db::connect_at(tables, &ids, utc_now())
    }
}

/// After starting no download is under way: those that were wait again. Every other unit, and every
/// publication, is as it was kept.
pub proof fn law_starting_keeps_the_shelf(kept: DbView, ids: Seq<Uuid>, now: Timestamp, db: Db, k: int)
    requires
        kept.wf(),
        start_outcome(kept, ids, now, Ok(db)),
        0 <= k < kept.units.len(),
    ensures
        db@.publications == kept.publications,
        db@.units.len() == kept.units.len(),
        kept.units[k].download is Downloading ==> db@.units[k].download is Pending && db@.units[k].id
            == kept.units[k].id,
        !(kept.units[k].download is Downloading) ==> db@.units[k] == kept.units[k],
{
    let start = recovered(kept);
    lemma_unifying_keeps_the_journal(start, duplicates_in(start.users, start.users));
}

/// Accounts that were made twice are unified in turn, until one cannot be.
pub proof fn law_accounts_are_unified_in_turn(db: DbView, pairs: Seq<(Uuid, Uuid)>, pair: (Uuid, Uuid))
    ensures
        all_unified(db, Seq::empty()).through && all_unified(db, Seq::empty()).db == db,
        all_unified(db, pairs.push(pair)).through <==> all_unified(db, pairs).through && (exists|i: int|
            0 <= i < all_unified(db, pairs).db.users.len() && (#[trigger] all_unified(
                db,
                pairs,
            ).db.users[i]).id == pair.1) || (all_unified(db, pairs).through && !owns_rows(
            all_unified(db, pairs).db,
            pair.0,
        )),
        all_unified(db, pairs.push(pair)).through ==> all_unified(db, pairs.push(pair)).db == unified(
            all_unified(db, pairs).db,
            pair.0,
            pair.1,
        ),
        !all_unified(db, pairs.push(pair)).through ==> all_unified(db, pairs.push(pair)).db == all_unified(
            db,
            pairs,
        ).db,
{
    assert(pairs.push(pair).drop_last() =~= pairs);
}

}
