//! Whose session, account and history is whose.

use vstd::prelude::*;

use crate::clock::Timestamp;
use crate::db::aliases::{doubled_by, duplicates_in, is_duplicate, unified};
use crate::db::plain::{has_read, sooner};
use crate::db::sessions::{is_live, live_sessions, new_session, session_outcome, session_user};
use crate::db::units::marked;
use crate::db::users::{
    belongs_to, claim_blocked, claim_due, claimed, enroll_outcome, enrolled, enrolled_id, has_sole, identity_of, is_account, is_sole,
    lemma_belongs_to, lemma_enrolled, lemma_given_marks, lemma_identity_of, lemma_made_for, lemma_named, lemma_sole_not_shared, made_for,
    named, shared_entries, sole,
};
use crate::db::{sessions_distinct, Account, Claim, DbError, DbView, JournalEntry, Session};
use crate::domain::users::User;
use crate::ids::{Uuid, SHARED_USER};
use crate::tables::lemma_filter_contains;

verus! {

// ---- sessions ----

/// The session with a token lets its reader in up to its end, and nobody after it.
pub proof fn law_a_session_lasts_to_its_end(
    sessions: Seq<Session>,
    token_hash: Seq<char>,
    now: Timestamp,
    i: int,
)
    requires
        sessions_distinct(sessions),
        0 <= i < sessions.len(),
        sessions[i].token_hash@ == token_hash,
    ensures
        session_user(sessions, token_hash, now) == (if sooner(sessions[i].expires_at, now) {
            None::<Uuid>
        } else {
            Some(sessions[i].user_id)
        }),
{
    if !sooner(sessions[i].expires_at, now) {
        assert(is_live(sessions, token_hash, now, i));
        let j = choose|j: int| is_live(sessions, token_hash, now, j);
        assert(sessions[j].token_hash@ == sessions[i].token_hash@);
    } else if exists|j: int| is_live(sessions, token_hash, now, j) {
        let j = choose|j: int| is_live(sessions, token_hash, now, j);
        assert(sessions[j].token_hash@ == sessions[i].token_hash@);
    }
}

/// A token that no session has lets nobody in.
pub proof fn law_unknown_tokens_let_nobody_in(sessions: Seq<Session>, token_hash: Seq<char>, now: Timestamp)
    requires
        forall|i: int| 0 <= i < sessions.len() ==> (#[trigger] sessions[i]).token_hash@ != token_hash,
    ensures
        session_user(sessions, token_hash, now) is None,
{
}

/// Cleaning up leaves the sessions that have not ended, and no others.
pub proof fn law_cleanup_takes_what_ended(sessions: Seq<Session>, now: Timestamp, s: Session)
    ensures
        live_sessions(sessions, now).contains(s) <==> sessions.contains(s) && !sooner(s.expires_at, now),
{
    lemma_filter_contains(sessions, |s: Session| !crate::db::sessions::is_expired(s, now));
}

/// Opening a session succeeds exactly where its token is new and its reader has an account.
/// It then stands beside those that have not ended, with its token, its reader and its end,
/// and lets its reader in until then; else nothing changes.
pub proof fn law_opened_sessions_let_their_reader_in(
    before: DbView,
    token_hash: String,
    user_id: Uuid,
    now: Timestamp,
    expires_at: Timestamp,
    after: DbView,
    r: Result<(), DbError>,
    later: Timestamp,
    s: Session,
)
    requires
        before.wf(),
        session_outcome(before, new_session(token_hash, user_id, now, expires_at), now, after, r),
        !sooner(expires_at, now),
    ensures
        r is Ok <==> (forall|i: int|
            0 <= i < before.sessions.len() ==> (#[trigger] before.sessions[i]).token_hash@
                != token_hash@) && exists|i: int|
            0 <= i < before.users.len() && (#[trigger] before.users[i]).id == user_id,
        r is Err ==> after == before,
        r is Ok ==> session_user(after.sessions, token_hash@, later) == (if sooner(expires_at, later) {
            None::<Uuid>
        } else {
            Some(user_id)
        }),
        r is Ok && s.token_hash@ != token_hash@ ==> (after.sessions.contains(s)
            <==> before.sessions.contains(s) && !sooner(s.expires_at, now)),
        after.users == before.users,
{
    let fresh = new_session(token_hash, user_id, now, expires_at);
    if r is Ok {
        let all = before.sessions.push(fresh);
        let live = |s: Session| !crate::db::sessions::is_expired(s, now);
        lemma_filter_contains(all, live);
        assert(all[before.sessions.len() as int] == fresh);
        assert(all.contains(fresh));
        assert(after.sessions.contains(fresh));
        let i = choose|i: int| 0 <= i < after.sessions.len() && after.sessions[i] == fresh;
        assert forall|j: int|
            0 <= j < after.sessions.len() && (#[trigger] after.sessions[j]).token_hash@ == token_hash@ implies
        after.sessions[j] == fresh by {
            assert(after.sessions.contains(after.sessions[j]));
            assert(all.contains(after.sessions[j]));
            let k = choose|k: int| 0 <= k < all.len() && all[k] == after.sessions[j];
            if k < before.sessions.len() {
                assert(before.sessions[k].token_hash@ == token_hash@);
            }
        }
        if exists|j: int| is_live(after.sessions, token_hash@, later, j) {
            let j = choose|j: int| is_live(after.sessions, token_hash@, later, j);
            assert(after.sessions[j] == fresh);
        }
        if !sooner(expires_at, later) {
            assert(is_live(after.sessions, token_hash@, later, i));
        }
        if s.token_hash@ != token_hash@ {
            if before.sessions.contains(s) {
                let k = choose|k: int| 0 <= k < before.sessions.len() && before.sessions[k] == s;
                assert(all[k] == s);
            }
            if all.contains(s) {
                let k = choose|k: int| 0 <= k < all.len() && all[k] == s;
                assert(before.sessions[k] == s);
            }
        }
    }
}

// ---- accounts ----

/// Signing in leads to the account that the subject is registered for; where it is
/// registered for none, to the one that was made for it; where there is none either, to the
/// one with its name; and else to a new one.
pub proof fn law_signing_in_finds_the_account(
    before: DbView,
    subject: String,
    username: String,
    display_name: String,
    id: Uuid,
    ids: Seq<Uuid>,
    now: Timestamp,
    after: DbView,
    user: User,
    k: int,
)
    requires
        before.wf(),
        enroll_outcome(before, subject, username, display_name, id, ids, now, after, Ok(user)),
    ensures
        0 <= k < before.identities.len() && before.identities[k].subject@ == subject@ ==> user.id
            == before.identities[k].user_id,
        (forall|i: int|
            0 <= i < before.identities.len() ==> (#[trigger] before.identities[i]).subject@ != subject@)
            ==> {
            &&& 0 <= k < before.users.len() && before.users[k].subject is Some
                && before.users[k].subject->0@ == subject@ ==> user.id == before.users[k].id
            &&& (forall|i: int|
                0 <= i < before.users.len() && (#[trigger] before.users[i]).subject is Some
                    ==> before.users[i].subject->0@ != subject@) ==> {
                &&& 0 <= k < before.users.len() && before.users[k].username@ == username@ ==> user.id
                    == before.users[k].id
                &&& (forall|i: int|
                    0 <= i < before.users.len() ==> (#[trigger] before.users[i]).username@ != username@)
                    ==> user.id == id && user.username == username && after.users.len()
                    == before.users.len() + 1
            }
        },
        user.display_name == display_name,
        exists|i: int|
            0 <= i < after.identities.len() && (#[trigger] after.identities[i]).subject@ == subject@
                && after.identities[i].user_id == user.id,
        exists|i: int|
            0 <= i < after.users.len() && (#[trigger] after.users[i]).id == user.id
                && after.users[i].display_name == display_name && after.users[i].username == user.username,
{
    let mid = enrolled(before, subject, username, display_name, id, now);
    let uid = enrolled_id(before, subject@, username@, id);
    lemma_identity_of(before.identities, subject@);
    lemma_made_for(before.users, subject@);
    lemma_named(before.users, username@);
    lemma_belongs_to(before, subject@, username@);
    lemma_enrolled(before, subject, username, display_name, id, now);
    assert(after.users == mid.users && after.identities == mid.identities);
    let at = choose|i: int| 0 <= i < mid.users.len() && (#[trigger] mid.users[i]).id == uid;
    assert(is_account(mid.users, uid, at));
    let a = choose|i: int| is_account(mid.users, uid, i);
    assert(mid.users[a].id == uid);
    assert(user.id == uid);
    if identity_of(before.identities, subject@) is Some {
        let i = choose|i: int|
            0 <= i < before.identities.len() && (#[trigger] before.identities[i]).subject@ == subject@
                && before.identities[i].user_id == identity_of(before.identities, subject@)->0;
        assert(mid.identities[i] == before.identities[i]);
        if 0 <= k < before.identities.len() && before.identities[k].subject@ == subject@ {
            assert(i == k);
        }
    } else {
        let last = mid.identities[before.identities.len() as int];
        assert(last.subject == subject && last.user_id == uid);
        if made_for(before.users, subject@) is Some {
            let i = choose|i: int|
                0 <= i < before.users.len() && (#[trigger] before.users[i]).id == made_for(
                    before.users,
                    subject@,
                )->0 && before.users[i].subject is Some && before.users[i].subject->0@ == subject@;
            if 0 <= k < before.users.len() && before.users[k].subject is Some
                && before.users[k].subject->0@ == subject@ {
                assert(i == k);
            }
        } else if named(before.users, username@) is Some {
            let i = choose|i: int|
                0 <= i < before.users.len() && (#[trigger] before.users[i]).id == named(
                    before.users,
                    username@,
                )->0 && before.users[i].username@ == username@;
            if 0 <= k < before.users.len() && before.users[k].username@ == username@ {
                assert(i == k);
            }
        } else {
            assert(mid.users[before.users.len() as int].id == id);
            assert(a == before.users.len());
        }
    }
    if belongs_to(before, subject@, username@) is Some {
        assert(mid.users[a] == crate::db::users::renamed(before.users[a], uid, display_name));
    }
}

/// Signing in changes nothing of an account but the name under which its reader is shown,
/// and only of the account that it leads to.
pub proof fn law_signing_in_keeps_accounts(
    before: DbView,
    subject: String,
    username: String,
    display_name: String,
    id: Uuid,
    ids: Seq<Uuid>,
    now: Timestamp,
    after: DbView,
    user: User,
    i: int,
)
    requires
        enroll_outcome(before, subject, username, display_name, id, ids, now, after, Ok(user)),
        0 <= i < before.users.len(),
    ensures
        i < after.users.len(),
        after.users[i].id == before.users[i].id,
        after.users[i].subject == before.users[i].subject,
        after.users[i].username == before.users[i].username,
        after.users[i].created_at == before.users[i].created_at,
        after.users[i].display_name == before.users[i].display_name || after.users[i].display_name
            == display_name,
        after.sessions == before.sessions,
        after.units == before.units,
        after.publications == before.publications,
{
}

/// The one account with a subject is found.
proof fn lemma_sole(users: Seq<Account>, i: int)
    requires
        0 <= i < users.len(),
        users[i].subject is Some,
        forall|j: int| 0 <= j < users.len() && j != i ==> (#[trigger] users[j]).subject is None,
    ensures
        has_sole(users),
        sole(users) == users[i],
{
    assert(is_sole(users, i));
    let j = choose|j: int| is_sole(users, j);
    assert(users[i].subject is Some);
}

/// Where nobody has taken the shared account's history and one account alone has a subject,
/// that reader has read what either had, has every place of the shared journal among the own,
/// and nothing is left with the shared account. Other readers keep what they have.
pub proof fn law_the_only_reader_gets_the_history(
    db: DbView,
    ids: Seq<Uuid>,
    now: Timestamp,
    i: int,
    unit_id: Uuid,
    other: Uuid,
    k: int,
)
    requires
        db.wf(),
        db.next_seq + db.journal.len() <= i64::MAX,
        db.claim is None,
        0 <= i < db.users.len(),
        db.users[i].subject is Some,
        forall|j: int| 0 <= j < db.users.len() && j != i ==> (#[trigger] db.users[j]).subject is None,
        !claim_blocked(db, ids),
        other != SHARED_USER && other != db.users[i].id,
        0 <= k < db.journal.len(),
    ensures
        ({
            let to = db.users[i].id;
            let out = claimed(db, ids, now);
            let e = db.journal[k];
            &&& has_read(out.marks, to, unit_id) <==> has_read(db.marks, to, unit_id) || has_read(
                db.marks,
                SHARED_USER,
                unit_id,
            )
            &&& !has_read(out.marks, SHARED_USER, unit_id)
            &&& has_read(out.marks, other, unit_id) <==> has_read(db.marks, other, unit_id)
            &&& forall|j: int| 0 <= j < out.journal.len() ==> (#[trigger] out.journal[j]).user_id != SHARED_USER
            &&& e.user_id != SHARED_USER ==> out.journal.contains(e)
            &&& e.user_id == SHARED_USER ==> exists|j: int|
                {
                    &&& 0 <= j < out.journal.len()
                    &&& (#[trigger] out.journal[j]).user_id == to
                    &&& out.journal[j].event.publication_id == e.event.publication_id
                    &&& out.journal[j].event.unit_id == e.event.unit_id
                    &&& out.journal[j].event.page == e.event.page
                    &&& out.journal[j].event.device == e.event.device
                    &&& out.journal[j].event.at == e.event.at
                    &&& out.journal[j].seq >= db.next_seq
                }
            &&& out.journal.len() == db.journal.len()
            &&& out.claim == Some(Claim { user_id: to, claimed_at: now })
        }),
{
    let to = db.users[i].id;
    let out = claimed(db, ids, now);
    lemma_sole(db.users, i);
    lemma_sole_not_shared(db);
    lemma_given_marks(db.marks, db.units, SHARED_USER, to);
    assert(marked(out.marks, to, unit_id) <==> has_read(out.marks, to, unit_id));
    assert(marked(out.marks, other, unit_id) <==> has_read(out.marks, other, unit_id));
    assert(marked(out.marks, SHARED_USER, unit_id) <==> has_read(out.marks, SHARED_USER, unit_id));
    assert(marked(db.marks, to, unit_id) <==> has_read(db.marks, to, unit_id));
    assert(marked(db.marks, other, unit_id) <==> has_read(db.marks, other, unit_id));
    assert(marked(db.marks, SHARED_USER, unit_id) <==> has_read(db.marks, SHARED_USER, unit_id));
    let p = |e: JournalEntry| e.user_id != SHARED_USER;
    let q = |e: JournalEntry| e.user_id == SHARED_USER;
    let rest = db.journal.filter(p);
    let shared = shared_entries(db.journal);
    lemma_filter_contains(db.journal, p);
    lemma_filter_contains(db.journal, q);
    lemma_split_len(db.journal, p, q);
    let e = db.journal[k];
    assert(db.journal.contains(e));
    assert forall|j: int| 0 <= j < out.journal.len() implies (#[trigger] out.journal[j]).user_id
        != SHARED_USER by {
        if j < rest.len() {
            assert(rest.contains(rest[j]));
            assert(p(rest[j]));
        }
    }
    if e.user_id != SHARED_USER {
        assert(rest.contains(e));
        let j = choose|j: int| 0 <= j < rest.len() && rest[j] == e;
        assert(out.journal[j] == e);
    } else {
        assert(shared.contains(e));
        let j = choose|j: int| 0 <= j < shared.len() && shared[j] == e;
        let c = out.journal[rest.len() + j];
        assert(c.user_id == to && c.event.unit_id == e.event.unit_id);
    }
}

/// Two conditions of which each item meets one split a sequence.
proof fn lemma_split_len<T>(s: Seq<T>, p: spec_fn(T) -> bool, q: spec_fn(T) -> bool)
    requires
        forall|x: T| #[trigger] p(x) == !q(x),
    ensures
        s.filter(p).len() + s.filter(q).len() == s.len(),
    decreases s.len(),
{
    reveal(Seq::filter);
    if s.len() > 0 {
        lemma_split_len(s.drop_last(), p, q);
        assert(p(s.last()) == !q(s.last()));
    }
}

/// The shared account's history stays where it is while somebody has taken it, while no
/// account has a subject, and while two have one.
pub proof fn law_the_history_waits_for_the_only_reader(db: DbView, ids: Seq<Uuid>, now: Timestamp, i: int, j: int)
    requires
        db.claim is Some || (forall|k: int| 0 <= k < db.users.len() ==> (#[trigger] db.users[k]).subject is None)
            || (0 <= i < j < db.users.len() && db.users[i].subject is Some && db.users[j].subject is Some),
    ensures
        claimed(db, ids, now) == db,
{
    if claim_due(db) {
        let k = choose|k: int| is_sole(db.users, k);
        assert(db.users[k].subject is Some);
        if 0 <= i < j < db.users.len() && db.users[i].subject is Some && db.users[j].subject is Some {
            assert(i == k && j == k);
        }
    }
}

// ---- accounts that were made twice ----

/// Unifying gives all that one account has to another and drops it; nothing of a third
/// changes.
pub proof fn law_unifying_gives_all_to_one(db: DbView, from: Uuid, to: Uuid, other: Uuid, unit_id: Uuid)
    requires
        db.wf(),
        from != to,
        other != from && other != to,
    ensures
        ({
            let out = unified(db, from, to);
            &&& has_read(out.marks, to, unit_id) <==> has_read(db.marks, to, unit_id) || has_read(
                db.marks,
                from,
                unit_id,
            )
            &&& has_read(out.marks, other, unit_id) <==> has_read(db.marks, other, unit_id)
            &&& !has_read(out.marks, from, unit_id)
            &&& forall|a: Account| #[trigger] out.users.contains(a) <==> db.users.contains(a) && a.id != from
            &&& out.journal.len() == db.journal.len()
            &&& forall|k: int|
                0 <= k < db.journal.len() ==> {
                    let e = #[trigger] out.journal[k];
                    &&& e.event == db.journal[k].event && e.seq == db.journal[k].seq
                    &&& e.user_id == (if db.journal[k].user_id == from {
                        to
                    } else {
                        db.journal[k].user_id
                    })
                }
            &&& out.sessions.len() == db.sessions.len()
            &&& forall|k: int|
                0 <= k < db.sessions.len() ==> {
                    let s = #[trigger] out.sessions[k];
                    &&& s.token_hash == db.sessions[k].token_hash && s.expires_at
                        == db.sessions[k].expires_at
                    &&& s.user_id == (if db.sessions[k].user_id == from {
                        to
                    } else {
                        db.sessions[k].user_id
                    })
                }
            &&& out.identities.len() == db.identities.len()
            &&& forall|k: int|
                0 <= k < db.identities.len() ==> {
                    let x = #[trigger] out.identities[k];
                    &&& x.subject == db.identities[k].subject
                    &&& x.user_id == (if db.identities[k].user_id == from {
                        to
                    } else {
                        db.identities[k].user_id
                    })
                }
            &&& out.claim is Some <==> db.claim is Some
            &&& db.claim is Some ==> out.claim->0.user_id == (if db.claim->0.user_id == from {
                to
            } else {
                db.claim->0.user_id
            })
            &&& out.units == db.units && out.publications == db.publications
        }),
{
    let out = unified(db, from, to);
    lemma_given_marks(db.marks, db.units, from, to);
    assert(marked(out.marks, to, unit_id) <==> has_read(out.marks, to, unit_id));
    assert(marked(out.marks, other, unit_id) <==> has_read(out.marks, other, unit_id));
    assert(marked(out.marks, from, unit_id) <==> has_read(out.marks, from, unit_id));
    assert(marked(db.marks, to, unit_id) <==> has_read(db.marks, to, unit_id));
    assert(marked(db.marks, other, unit_id) <==> has_read(db.marks, other, unit_id));
    assert(marked(db.marks, from, unit_id) <==> has_read(db.marks, from, unit_id));
    lemma_filter_contains(db.users, |a: Account| a.id != from);
    assert forall|a: Account| #[trigger] out.users.contains(a) <==> db.users.contains(a) && a.id != from by {}
}

/// An account doubles another where both were made for a subject and its name is the other's
/// with a hyphen and its own subject appended.
pub open spec fn doubles_name(dup: Account, main: Account) -> bool {
    &&& dup.subject is Some && main.subject is Some
    &&& dup.id != main.id
    &&& dup.username@ == main.username@ + seq!['-'] + dup.subject->0@
}

/// The accounts that are unified are exactly those that double another, each with one that it
/// doubles.
pub proof fn law_doubled_accounts_are_found(users: Seq<Account>, i: int, pair: (Uuid, Uuid))
    requires
        0 <= i < users.len(),
    ensures
        (exists|j: int| 0 <= j < users.len() && doubles_name(users[i], #[trigger] users[j])) ==> exists|
            n: int,
        |
            0 <= n < duplicates_in(users, users).len() && (#[trigger] duplicates_in(users, users)[n]).0
                == users[i].id,
        duplicates_in(users, users).contains(pair) ==> exists|a: int, b: int|
            0 <= a < users.len() && 0 <= b < users.len() && (#[trigger] users[a]).id == pair.0 && (
            #[trigger] users[b]).id == pair.1 && doubles_name(users[a], users[b]),
{
    reveal_strlit("-");
    assert("-"@ =~= seq!['-']);
    lemma_pairs(users, users, i, pair);
}

/// What is found among the first of the candidates.
proof fn lemma_pairs(candidates: Seq<Account>, users: Seq<Account>, i: int, pair: (Uuid, Uuid))
    requires
        "-"@ == seq!['-'],
    ensures
        0 <= i < candidates.len() && (exists|j: int|
            0 <= j < users.len() && doubles_name(candidates[i], #[trigger] users[j])) ==> exists|n: int|
            0 <= n < duplicates_in(candidates, users).len() && (#[trigger] duplicates_in(
                candidates,
                users,
            )[n]).0 == candidates[i].id,
        duplicates_in(candidates, users).contains(pair) ==> exists|a: int, b: int|
            0 <= a < candidates.len() && 0 <= b < users.len() && (#[trigger] candidates[a]).id == pair.0
                && (#[trigger] users[b]).id == pair.1 && doubles_name(candidates[a], users[b]),
    decreases candidates.len(),
{
    if candidates.len() > 0 {
        let d = candidates.drop_last();
        let c = candidates.last();
        let before = duplicates_in(d, users);
        let all = duplicates_in(candidates, users);
        lemma_pairs(d, users, i, pair);
        lemma_doubled(users, c);
        assert(candidates[candidates.len() - 1] == c);
        if 0 <= i < candidates.len() && (exists|j: int|
            0 <= j < users.len() && doubles_name(candidates[i], #[trigger] users[j])) {
            if i < d.len() {
                assert(d[i] == candidates[i]);
                let n = choose|n: int| 0 <= n < before.len() && (#[trigger] before[n]).0 == d[i].id;
                assert(all[n] == before[n]);
            } else {
                assert(doubled_by(users, c) is Some);
                assert(all[before.len() as int].0 == c.id);
            }
        }
        if all.contains(pair) {
            let n = choose|n: int| 0 <= n < all.len() && all[n] == pair;
            if n < before.len() {
                assert(before[n] == pair);
                assert(before.contains(pair));
                let (a, b) = choose|a: int, b: int|
                    0 <= a < d.len() && 0 <= b < users.len() && (#[trigger] d[a]).id == pair.0 && (
                    #[trigger] users[b]).id == pair.1 && doubles_name(d[a], users[b]);
                assert(candidates[a] == d[a]);
            } else {
                let b = choose|b: int|
                    0 <= b < users.len() && (#[trigger] users[b]).id == doubled_by(users, c)->0
                        && doubles_name(c, users[b]);
                assert(candidates[candidates.len() - 1].id == pair.0 && users[b].id == pair.1);
            }
        }
    }
}

/// An account that doubles one is told.
proof fn lemma_doubled(users: Seq<Account>, dup: Account)
    requires
        "-"@ == seq!['-'],
    ensures
        doubled_by(users, dup) is Some <==> exists|j: int|
            0 <= j < users.len() && doubles_name(dup, #[trigger] users[j]),
        doubled_by(users, dup) matches Some(id) ==> exists|j: int|
            0 <= j < users.len() && (#[trigger] users[j]).id == id && doubles_name(dup, users[j]),
    decreases users.len(),
{
    if users.len() > 0 {
        let d = users.drop_last();
        lemma_doubled(d, dup);
        assert(users[users.len() - 1] == users.last());
        assert(is_duplicate(dup, users.last()) <==> doubles_name(dup, users.last()));
        if doubled_by(d, dup) is Some {
            let j = choose|j: int|
                0 <= j < d.len() && (#[trigger] d[j]).id == doubled_by(d, dup)->0 && doubles_name(dup, d[j]);
            assert(users[j] == d[j]);
        }
        if exists|j: int| 0 <= j < users.len() && doubles_name(dup, #[trigger] users[j]) {
            let j = choose|j: int| 0 <= j < users.len() && doubles_name(dup, #[trigger] users[j]);
            if j < d.len() {
                assert(d[j] == users[j]);
            }
        }
    }
}

}
