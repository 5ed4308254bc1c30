//! Accounts, the identities that lead to them, sessions, and whose history is whose.

use vstd::prelude::*;

use crate::clock::{is_reading, utc_now, Timestamp};
use crate::db::progress::has_event;
use crate::db::units::marked;
use crate::db::{
    has_user, is_taken, marks_distinct, marks_placed, taken, Account, Claim, Db, DbError, DbView, Identity, JournalEntry, ReadMark,
};
use crate::domain::progress::ProgressEvent;
use crate::domain::publication::ReadingUnit;
use crate::domain::users::User;
use crate::ids::{fresh_id, fresh_ids, lemma_timely_is_not_shared, timely_form, timely_forms, Uuid, SHARED_USER};
use crate::tables::{
    any, change_all, kept_places, lemma_filter_contains, lemma_filter_len, lemma_filter_none, lemma_filter_take, lemma_kept_places,
    position, retain,
};
use crate::text::{lower_case, lowered, same, trim, trimmed};

verus! {

/// A name as accounts keep it: without white space around it, in lower case.
pub open spec fn normalized(username: Seq<char>) -> Seq<char> {
    lower_case(trimmed(username))
}

/// The reader behind an account.
pub open spec fn reader_of(a: Account) -> User {
    User { id: a.id, username: a.username, display_name: a.display_name }
}

/// Row `i` is the account with the identifier.
pub open spec fn is_account(users: Seq<Account>, id: Uuid, i: int) -> bool {
    0 <= i < users.len() && users[i].id == id
}

/// The account with the identifier.
pub open spec fn account_of(users: Seq<Account>, id: Uuid) -> Account {
    users[choose|i: int| is_account(users, id, i)]
}

/// The account that a subject is registered for.
pub open spec fn identity_of(identities: Seq<Identity>, subject: Seq<char>) -> Option<Uuid>
    decreases identities.len(),
{
    if identities.len() == 0 {
        None
    } else {
        match identity_of(identities.drop_last(), subject) {
            Some(id) => Some(id),
            None => if identities.last().subject@ == subject {
                Some(identities.last().user_id)
            } else {
                None
            },
        }
    }
}

/// The account that was made for a subject.
pub open spec fn made_for(users: Seq<Account>, subject: Seq<char>) -> Option<Uuid>
    decreases users.len(),
{
    if users.len() == 0 {
        None
    } else {
        match made_for(users.drop_last(), subject) {
            Some(id) => Some(id),
            None => if users.last().subject is Some && users.last().subject->0@ == subject {
                Some(users.last().id)
            } else {
                None
            },
        }
    }
}

/// The account with a name.
pub open spec fn named(users: Seq<Account>, username: Seq<char>) -> Option<Uuid>
    decreases users.len(),
{
    if users.len() == 0 {
        None
    } else {
        match named(users.drop_last(), username) {
            Some(id) => Some(id),
            None => if users.last().username@ == username {
                Some(users.last().id)
            } else {
                None
            },
        }
    }
}

/// The account that a subject with a name belongs to: the one it is registered for,
/// else the one that was made for it, else the one with its name. Within one
/// provider names are unique, and one person may have several subjects.
pub open spec fn belongs_to(db: DbView, subject: Seq<char>, username: Seq<char>) -> Option<Uuid> {
    match identity_of(db.identities, subject) {
        Some(id) => Some(id),
        None => match made_for(db.users, subject) {
            Some(id) => Some(id),
            None => named(db.users, username),
        },
    }
}

/// An account with its display name refreshed, where it has the identifier.
pub open spec fn renamed(a: Account, id: Uuid, display_name: String) -> Account {
    if a.id == id {
        Account { display_name, ..a }
    } else {
        a
    }
}

/// The identities with a subject registered, unless it is.
pub open spec fn registered(
    identities: Seq<Identity>,
    subject: String,
    user_id: Uuid,
    now: Timestamp,
) -> Seq<Identity> {
    if identity_of(identities, subject@) is Some {
        identities
    } else {
        identities.push(Identity { subject, user_id, created_at: now })
    }
}

/// The tables once a subject has signed in: its account refreshed, or made, and the
/// subject registered for it.
pub open spec fn enrolled(
    db: DbView,
    subject: String,
    username: String,
    display_name: String,
    id: Uuid,
    now: Timestamp,
) -> DbView {
    match belongs_to(db, subject@, username@) {
        Some(user_id) => DbView {
            users: db.users.map_values(|a: Account| renamed(a, user_id, display_name)),
            identities: registered(db.identities, subject, user_id, now),
            ..db
        },
        None => DbView {
            users: db.users.push(
                Account { id, subject: Some(subject), username, display_name, created_at: now },
            ),
            identities: registered(db.identities, subject, id, now),
            ..db
        },
    }
}

/// The account that signing in leads to.
pub open spec fn enrolled_id(db: DbView, subject: Seq<char>, username: Seq<char>, id: Uuid) -> Uuid {
    match belongs_to(db, subject, username) {
        Some(user_id) => user_id,
        None => id,
    }
}

/// Account `i` has a subject, and no other has.
pub open spec fn is_sole(users: Seq<Account>, i: int) -> bool {
    &&& 0 <= i < users.len()
    &&& users[i].subject is Some
    &&& forall|j: int| 0 <= j < users.len() && (#[trigger] users[j]).subject is Some ==> j == i
}

/// There is exactly one account with a subject.
pub open spec fn has_sole(users: Seq<Account>) -> bool {
    exists|i: int| is_sole(users, i)
}

/// The one account with a subject.
pub open spec fn sole(users: Seq<Account>) -> Account {
    users[choose|i: int| is_sole(users, i)]
}

/// One reader's marks given to another; where both have marked a unit, the other's
/// mark stays.
pub open spec fn given_marks(marks: Seq<ReadMark>, from: Uuid, to: Uuid) -> Seq<ReadMark> {
    marks.filter(|m: ReadMark| !(m.user_id == from && marked(marks, to, m.unit_id))).map_values(
        |m: ReadMark|
            if m.user_id == from {
                ReadMark { user_id: to, ..m }
            } else {
                m
            },
    )
}

/// The shared account's entries.
pub open spec fn shared_entries(journal: Seq<JournalEntry>) -> Seq<JournalEntry> {
    journal.filter(|e: JournalEntry| e.user_id == SHARED_USER)
}

/// Entries copied for a reader, under new identifiers and new numbers.
pub open spec fn copied(
    entries: Seq<JournalEntry>,
    to: Uuid,
    ids: Seq<Uuid>,
    next_seq: int,
) -> Seq<JournalEntry> {
    Seq::new(
        entries.len(),
        |i: int|
            JournalEntry {
                seq: (next_seq + i) as i64,
                user_id: to,
                event: ProgressEvent { id: ids[i], ..entries[i].event },
            },
    )
}

/// Identifiers are at hand for `n` events, all different, and none of them taken.
pub open spec fn event_ids_usable(ids: Seq<Uuid>, n: nat, journal: Seq<JournalEntry>) -> bool {
    &&& n <= ids.len()
    &&& forall|i: int, j: int| 0 <= i < j < n ==> #[trigger] ids[i] != #[trigger] ids[j]
    &&& forall|i: int| 0 <= i < n ==> !has_event(journal, #[trigger] ids[i])
}

/// The shared account's history is up for the taking: nobody has taken it, and there
/// is exactly one reader it can belong to.
pub open spec fn claim_due(db: DbView) -> bool {
    db.claim is None && has_sole(db.users)
}

/// The tables once the shared account's history has gone to its one reader.
pub open spec fn claimed(db: DbView, ids: Seq<Uuid>, now: Timestamp) -> DbView {
    if claim_due(db) {
        let to = sole(db.users).id;
        let shared = shared_entries(db.journal);
        DbView {
            marks: given_marks(db.marks, SHARED_USER, to),
            journal: db.journal.filter(|e: JournalEntry| e.user_id != SHARED_USER) + copied(
                shared,
                to,
                ids,
                db.next_seq,
            ),
            next_seq: db.next_seq + shared.len(),
            claim: Some(Claim { user_id: to, claimed_at: now }),
            ..db
        }
    } else {
        db
    }
}

/// The history cannot be copied: it is due, and the identifiers cannot be used.
pub open spec fn claim_blocked(db: DbView, ids: Seq<Uuid>) -> bool {
    claim_due(db) && !event_ids_usable(ids, shared_entries(db.journal).len(), db.journal)
}

/// What signing in does.
pub open spec fn enroll_outcome(
    before: DbView,
    subject: String,
    username: String,
    display_name: String,
    id: Uuid,
    ids: Seq<Uuid>,
    now: Timestamp,
    after: DbView,
    r: Result<User, DbError>,
) -> bool {
    let mid = enrolled(before, subject, username, display_name, id, now);
    if belongs_to(before, subject@, username@) is None && has_user(before.users, id) {
        &&& after == before
        &&& r matches Err(e) && is_taken(e)
    } else if claim_blocked(mid, ids) {
        &&& after == mid
        &&& r matches Err(e) && is_taken(e)
    } else {
        &&& after == claimed(mid, ids, now)
        &&& r == Ok::<User, DbError>(
            reader_of(account_of(mid.users, enrolled_id(before, subject@, username@, id))),
        )
    }
}

// ---- what these keep ----

/// A registered subject's account is there.
pub(crate) proof fn lemma_identity_of(identities: Seq<Identity>, subject: Seq<char>)
    ensures
        identity_of(identities, subject) matches Some(id) ==> exists|i: int|
            0 <= i < identities.len() && (#[trigger] identities[i]).subject@ == subject
                && identities[i].user_id == id,
        identity_of(identities, subject) is None ==> forall|i: int|
            0 <= i < identities.len() ==> (#[trigger] identities[i]).subject@ != subject,
    decreases identities.len(),
{
    if identities.len() > 0 {
        let d = identities.drop_last();
        lemma_identity_of(d, subject);
        assert(forall|i: int| 0 <= i < d.len() ==> d[i] == identities[i]);
        if identity_of(d, subject) is Some {
            let i = choose|i: int|
                0 <= i < d.len() && (#[trigger] d[i]).subject@ == subject && d[i].user_id
                    == identity_of(d, subject)->0;
            assert(identities[i].subject@ == subject);
        } else if identities.last().subject@ == subject {
            assert(identities[identities.len() - 1].subject@ == subject);
        }
    }
}

/// An account made for a subject is there.
pub proof fn lemma_made_for(users: Seq<Account>, subject: Seq<char>)
    ensures
        made_for(users, subject) matches Some(id) ==> exists|i: int|
            0 <= i < users.len() && (#[trigger] users[i]).id == id && users[i].subject is Some
                && users[i].subject->0@ == subject,
        made_for(users, subject) is None ==> forall|i: int|
            0 <= i < users.len() && (#[trigger] users[i]).subject is Some ==> users[i].subject->0@
                != subject,
    decreases users.len(),
{
    if users.len() > 0 {
        let d = users.drop_last();
        lemma_made_for(d, subject);
        assert(forall|i: int| 0 <= i < d.len() ==> d[i] == users[i]);
        if made_for(d, subject) is Some {
            let i = choose|i: int|
                0 <= i < d.len() && (#[trigger] d[i]).id == made_for(d, subject)->0
                    && d[i].subject is Some && d[i].subject->0@ == subject;
            assert(users[i].subject is Some);
        } else if users.last().subject is Some && users.last().subject->0@ == subject {
            assert(users[users.len() - 1].subject is Some);
        }
    }
}

/// A named account is there.
pub proof fn lemma_named(users: Seq<Account>, username: Seq<char>)
    ensures
        named(users, username) matches Some(id) ==> exists|i: int|
            0 <= i < users.len() && (#[trigger] users[i]).id == id && users[i].username@ == username,
        named(users, username) is None ==> forall|i: int|
            0 <= i < users.len() ==> (#[trigger] users[i]).username@ != username,
    decreases users.len(),
{
    if users.len() > 0 {
        let d = users.drop_last();
        lemma_named(d, username);
        assert(forall|i: int| 0 <= i < d.len() ==> d[i] == users[i]);
        if named(d, username) is Some {
            let i = choose|i: int|
                0 <= i < d.len() && (#[trigger] d[i]).id == named(d, username)->0 && d[i].username@
                    == username;
            assert(users[i].username@ == username);
        } else if users.last().username@ == username {
            assert(users[users.len() - 1].username@ == username);
        }
    }
}

/// Whoever a subject belongs to has an account.
pub(crate) proof fn lemma_belongs_to(db: DbView, subject: Seq<char>, username: Seq<char>)
    requires
        db.wf(),
    ensures
        belongs_to(db, subject, username) matches Some(id) ==> has_user(db.users, id),
{
    lemma_identity_of(db.identities, subject);
    lemma_made_for(db.users, subject);
    lemma_named(db.users, username);
    if identity_of(db.identities, subject) is Some {
        let i = choose|i: int|
            0 <= i < db.identities.len() && (#[trigger] db.identities[i]).subject@ == subject
                && db.identities[i].user_id == identity_of(db.identities, subject)->0;
        assert(has_user(db.users, db.identities[i].user_id));
    }
}

/// Signing in keeps the tables' promises.
pub(crate) proof fn lemma_enrolled(
    db: DbView,
    subject: String,
    username: String,
    display_name: String,
    id: Uuid,
    now: Timestamp,
)
    requires
        db.wf(),
        belongs_to(db, subject@, username@) is None ==> !has_user(db.users, id),
    ensures
        enrolled(db, subject, username, display_name, id, now).wf(),
        has_user(
            enrolled(db, subject, username, display_name, id, now).users,
            enrolled_id(db, subject@, username@, id),
        ),
{
    let out = enrolled(db, subject, username, display_name, id, now);
    let uid = enrolled_id(db, subject@, username@, id);
    lemma_belongs_to(db, subject@, username@);
    lemma_identity_of(db.identities, subject@);
    lemma_made_for(db.users, subject@);
    lemma_named(db.users, username@);
    let s = choose|i: int|
        0 <= i < db.users.len() && (#[trigger] db.users[i]).id == SHARED_USER && db.users[i].subject is None;
    assert(out.users[s].id == SHARED_USER && out.users[s].subject is None);
    assert forall|x: Uuid| has_user(db.users, x) implies #[trigger] has_user(out.users, x) by {
        let i = choose|i: int| 0 <= i < db.users.len() && (#[trigger] db.users[i]).id == x;
        assert(out.users[i].id == x);
    }
    if belongs_to(db, subject@, username@) is Some {
        assert forall|i: int| 0 <= i < out.users.len() implies (#[trigger] out.users[i]).id
            == db.users[i].id && out.users[i].username == db.users[i].username && out.users[i].subject
            == db.users[i].subject by {}
    } else {
        assert(out.users[out.users.len() - 1].id == id);
        assert forall|i: int, j: int|
            0 <= i < out.users.len() && 0 <= j < out.users.len() && (#[trigger] out.users[i]).id == (
            #[trigger] out.users[j]).id implies i == j by {
            if i < db.users.len() && j < db.users.len() {
                assert(db.users[i].id == db.users[j].id);
            } else if i < db.users.len() {
                assert(db.users[i].id == id);
            } else if j < db.users.len() {
                assert(db.users[j].id == id);
            }
        }
        assert forall|i: int, j: int|
            0 <= i < out.users.len() && 0 <= j < out.users.len() && (#[trigger] out.users[i]).username@ == (
            #[trigger] out.users[j]).username@ implies i == j by {
            if i < db.users.len() && j < db.users.len() {
                assert(db.users[i].username@ == db.users[j].username@);
            } else if i < db.users.len() {
                assert(db.users[i].username@ == username@);
            } else if j < db.users.len() {
                assert(db.users[j].username@ == username@);
            }
        }
        assert forall|i: int, j: int|
            0 <= i < out.users.len() && 0 <= j < out.users.len() && (#[trigger] out.users[i]).subject is Some && (
            #[trigger] out.users[j]).subject is Some && out.users[i].subject->0@
                == out.users[j].subject->0@ implies i == j by {
            if i < db.users.len() && j < db.users.len() {
                assert(db.users[i].subject is Some && db.users[j].subject is Some);
            } else if i < db.users.len() {
                assert(db.users[i].subject is Some);
            } else if j < db.users.len() {
                assert(db.users[j].subject is Some);
            }
        }
    }
    assert(has_user(out.users, uid));
    assert forall|i: int| 0 <= i < out.identities.len() implies has_user(
        out.users,
        (#[trigger] out.identities[i]).user_id,
    ) by {
        if i < db.identities.len() {
            assert(has_user(db.users, db.identities[i].user_id));
        }
    }
    assert forall|i: int| 0 <= i < out.sessions.len() implies has_user(
        out.users,
        (#[trigger] out.sessions[i]).user_id,
    ) by {
        assert(has_user(db.users, db.sessions[i].user_id));
    }
}

/// Where one reader's marks go to another, no unit ends up marked twice; the other
/// has marked what either had, and every third reader's marks stay.
pub proof fn lemma_given_marks(
    marks: Seq<ReadMark>,
    units: Seq<ReadingUnit>,
    from: Uuid,
    to: Uuid,
)
    requires
        marks_distinct(marks),
        marks_placed(marks, units),
        from != to,
    ensures
        marks_distinct(given_marks(marks, from, to)),
        marks_placed(given_marks(marks, from, to), units),
        forall|x: Uuid|
            #[trigger] marked(given_marks(marks, from, to), to, x) <==> marked(marks, to, x) || marked(
                marks,
                from,
                x,
            ),
        forall|x: Uuid| !#[trigger] marked(given_marks(marks, from, to), from, x),
        forall|u: Uuid, x: Uuid|
            u != from && u != to ==> (#[trigger] marked(given_marks(marks, from, to), u, x) <==> marked(
                marks,
                u,
                x,
            )),
{
    let keep = |m: ReadMark| !(m.user_id == from && marked(marks, to, m.unit_id));
    let kept = marks.filter(keep);
    let out = given_marks(marks, from, to);
    lemma_kept_places(marks, keep);
    lemma_filter_contains(marks, keep);
    let at = kept_places(marks, keep);
    assert forall|i: int| 0 <= i < out.len() implies #[trigger] out[i] == (if kept[i].user_id == from {
        ReadMark { user_id: to, ..kept[i] }
    } else {
        kept[i]
    }) && kept[i] == marks[at[i]] && 0 <= at[i] < marks.len() && keep(kept[i]) by {}
    assert forall|i: int, j: int|
        0 <= i < out.len() && 0 <= j < out.len() && (#[trigger] out[i]).user_id == (
        #[trigger] out[j]).user_id && out[i].unit_id == out[j].unit_id implies i == j by {
        assert(at[i] < at[j] || at[j] < at[i] || i == j);
        if kept[i].user_id == kept[j].user_id {
            assert(marks[at[i]].user_id == marks[at[j]].user_id);
            assert(at[i] == at[j]);
        } else if kept[i].user_id == from {
            assert(marks[at[j]].user_id == to);
            assert(marked(marks, to, kept[i].unit_id));
        } else {
            assert(marks[at[i]].user_id == to);
            assert(marked(marks, to, kept[j].unit_id));
        }
    }
    assert forall|i: int| 0 <= i < out.len() implies crate::db::has_unit(units, (#[trigger] out[i]).unit_id) by {
        assert(crate::db::has_unit(units, marks[at[i]].unit_id));
    }
    assert forall|x: Uuid|
        #[trigger] marked(out, to, x) <==> marked(marks, to, x) || marked(marks, from, x) by {
        if marked(out, to, x) {
            let k = choose|k: int|
                0 <= k < out.len() && (#[trigger] out[k]).user_id == to && out[k].unit_id == x;
            assert(marks[at[k]].unit_id == x);
            assert(marks[at[k]].user_id == to || marks[at[k]].user_id == from);
        }
        if marked(marks, to, x) {
            let k = choose|k: int|
                0 <= k < marks.len() && (#[trigger] marks[k]).user_id == to && marks[k].unit_id == x;
            assert(marks.contains(marks[k]));
            assert(kept.contains(marks[k]));
            let m = choose|m: int| 0 <= m < kept.len() && kept[m] == marks[k];
            assert(out[m].user_id == to && out[m].unit_id == x);
        } else if marked(marks, from, x) {
            let k = choose|k: int|
                0 <= k < marks.len() && (#[trigger] marks[k]).user_id == from && marks[k].unit_id == x;
            assert(marks.contains(marks[k]));
            assert(kept.contains(marks[k]));
            let m = choose|m: int| 0 <= m < kept.len() && kept[m] == marks[k];
            assert(out[m].user_id == to && out[m].unit_id == x);
        }
    }
    assert forall|u: Uuid, x: Uuid| u != from && u != to implies (#[trigger] marked(out, u, x) <==> marked(
        marks,
        u,
        x,
    )) by {
        if marked(out, u, x) {
            let k = choose|k: int|
                0 <= k < out.len() && (#[trigger] out[k]).user_id == u && out[k].unit_id == x;
            assert(marks[at[k]].user_id == u);
        }
        if marked(marks, u, x) {
            let k = choose|k: int|
                0 <= k < marks.len() && (#[trigger] marks[k]).user_id == u && marks[k].unit_id == x;
            assert(marks.contains(marks[k]));
            assert(kept.contains(marks[k]));
            let m = choose|m: int| 0 <= m < kept.len() && kept[m] == marks[k];
            assert(out[m].user_id == u && out[m].unit_id == x);
        }
    }
}

/// The one account with a subject is not the shared one.
pub(crate) proof fn lemma_sole_not_shared(db: DbView)
    requires
        db.wf(),
        has_sole(db.users),
    ensures
        sole(db.users).id != SHARED_USER,
        has_user(db.users, sole(db.users).id),
{
    let i = choose|i: int| is_sole(db.users, i);
    let s = choose|s: int|
        0 <= s < db.users.len() && (#[trigger] db.users[s]).id == SHARED_USER && db.users[s].subject is None;
    assert(db.users[i].id != SHARED_USER) by {
        if db.users[i].id == SHARED_USER {
            assert(db.users[i].id == db.users[s].id);
            assert(i == s);
        }
    }
}

/// Handing over the shared history keeps the tables' promises.
proof fn lemma_claimed(db: DbView, ids: Seq<Uuid>, now: Timestamp)
    requires
        db.wf(),
        !claim_blocked(db, ids),
        db.next_seq + db.journal.len() <= i64::MAX,
    ensures
        claimed(db, ids, now).wf(),
{
    if claim_due(db) {
        lemma_sole_not_shared(db);
        let to = sole(db.users).id;
        let p = |e: JournalEntry| e.user_id != SHARED_USER;
        let q = |e: JournalEntry| e.user_id == SHARED_USER;
        let rest = db.journal.filter(p);
        let shared = shared_entries(db.journal);
        let out = claimed(db, ids, now);
        lemma_given_marks(db.marks, db.units, SHARED_USER, to);
        lemma_kept_places(db.journal, p);
        lemma_kept_places(db.journal, q);
        lemma_filter_len(db.journal, q);
        let ra = kept_places(db.journal, p);
        let sa = kept_places(db.journal, q);
        let n = rest.len() as int;
        assert forall|i: int| 0 <= i < n implies #[trigger] out.journal[i] == db.journal[ra[i]] && 0
            <= ra[i] < db.journal.len() by {}
        assert forall|i: int| n <= i < out.journal.len() implies (#[trigger] out.journal[i]).event.id
            == ids[i - n] && out.journal[i].seq == db.next_seq + (i - n)
            && out.journal[i].event.publication_id == db.journal[sa[i - n]].event.publication_id && 0
            <= sa[i - n] < db.journal.len() by {
            assert(shared[i - n] == db.journal[sa[i - n]]);
        }
        assert forall|i: int, j: int|
            0 <= i < out.journal.len() && 0 <= j < out.journal.len() && (#[trigger] out.journal[i]).event.id
                == (#[trigger] out.journal[j]).event.id implies i == j by {
            if i < n && j < n {
                assert(db.journal[ra[i]].event.id == db.journal[ra[j]].event.id);
                assert(ra[i] == ra[j]);
                assert(ra[i] < ra[j] || ra[j] < ra[i] || i == j);
            } else if i >= n && j >= n {
                assert(ids[i - n] == ids[j - n]);
                assert(i - n < j - n || j - n < i - n || i == j);
            } else if i < n {
                assert(!has_event(db.journal, ids[j - n]));
                assert(db.journal[ra[i]].event.id == ids[j - n]);
            } else {
                assert(!has_event(db.journal, ids[i - n]));
                assert(db.journal[ra[j]].event.id == ids[i - n]);
            }
        }
        assert forall|i: int, j: int| 0 <= i < j < out.journal.len() implies (
        #[trigger] out.journal[i]).seq < (#[trigger] out.journal[j]).seq by {
            if j < n {
                assert(ra[i] < ra[j]);
                assert(db.journal[ra[i]].seq < db.journal[ra[j]].seq);
            } else if i < n {
                assert(db.journal[ra[i]].seq < db.next_seq);
            }
        }
        assert forall|i: int| 0 <= i < out.journal.len() implies 0 < (#[trigger] out.journal[i]).seq
            < out.next_seq by {
            if i < n {
                assert(db.journal[ra[i]].seq < db.next_seq);
            }
        }
        assert forall|i: int| 0 <= i < out.journal.len() implies crate::db::has_publication(
            out.publications,
            (#[trigger] out.journal[i]).event.publication_id,
        ) by {
            if i < n {
                assert(crate::db::has_publication(
                    db.publications,
                    db.journal[ra[i]].event.publication_id,
                ));
            } else {
                assert(crate::db::has_publication(
                    db.publications,
                    db.journal[sa[i - n]].event.publication_id,
                ));
            }
        }
    }
}

/// The shared history is handed over once: whoever signs in afterwards, nothing more
/// moves.
pub proof fn law_history_is_claimed_once(
    db: DbView,
    ids: Seq<Uuid>,
    now: Timestamp,
    later_ids: Seq<Uuid>,
    later: Timestamp,
)
    requires
        claim_due(db),
    ensures
        claimed(claimed(db, ids, now), later_ids, later) == claimed(db, ids, now),
{
}

/// Handing over the shared history loses nothing: the reader has read what either
/// had, has all of the shared journal behind the own, page for page, and nothing is
/// left with the shared account.
pub proof fn law_claim_loses_nothing(db: DbView, ids: Seq<Uuid>, now: Timestamp)
    requires
        db.wf(),
        claim_due(db),
        !claim_blocked(db, ids),
        db.next_seq + db.journal.len() <= i64::MAX,
    ensures
        ({
            let to = sole(db.users).id;
            let out = claimed(db, ids, now);
            let shared = shared_entries(db.journal);
            let n = db.journal.filter(|e: JournalEntry| e.user_id != SHARED_USER).len();
            &&& forall|x: Uuid|
                #[trigger] marked(out.marks, to, x) <==> marked(db.marks, to, x) || marked(
                    db.marks,
                    SHARED_USER,
                    x,
                )
            &&& forall|x: Uuid| !#[trigger] marked(out.marks, SHARED_USER, x)
            &&& shared_entries(out.journal).len() == 0
            &&& out.journal.len() == n + shared.len()
            &&& forall|i: int|
                0 <= i < shared.len() ==> {
                    let e = #[trigger] shared[i];
                    let c = out.journal[n + i];
                    &&& c.user_id == to
                    &&& c.event.publication_id == e.event.publication_id
                    &&& c.event.unit_id == e.event.unit_id
                    &&& c.event.page == e.event.page
                    &&& c.event.device == e.event.device
                    &&& c.event.at == e.event.at
                }
        }),
{
    let to = sole(db.users).id;
    let out = claimed(db, ids, now);
    let p = |e: JournalEntry| e.user_id != SHARED_USER;
    let q = |e: JournalEntry| e.user_id == SHARED_USER;
    lemma_sole_not_shared(db);
    lemma_given_marks(db.marks, db.units, SHARED_USER, to);
    lemma_kept_places(db.journal, p);
    assert forall|i: int| 0 <= i < out.journal.len() implies !q(#[trigger] out.journal[i]) by {
        if i < db.journal.filter(p).len() {
            let _ = kept_places(db.journal, p)[i];
        }
    }
    lemma_filter_none(out.journal, q);
}

/// Signing in again leads to the same account, whatever name the provider sends.
pub proof fn law_subject_keeps_its_account(
    db: DbView,
    subject: String,
    username: String,
    display_name: String,
    id: Uuid,
    now: Timestamp,
    other_name: Seq<char>,
)
    ensures
        belongs_to(
            enrolled(db, subject, username, display_name, id, now),
            subject@,
            other_name,
        ) == Some(enrolled_id(db, subject@, username@, id)),
{
    let out = enrolled(db, subject, username, display_name, id, now);
    let uid = enrolled_id(db, subject@, username@, id);
    if identity_of(db.identities, subject@) is None {
        assert(out.identities.drop_last() =~= db.identities);
    }
}

/// Whoever signs in is shown under the name that came with it, in the account that the
/// subject belongs to.
pub proof fn law_signing_in_shows_the_new_name(
    db: DbView,
    subject: String,
    username: String,
    display_name: String,
    id: Uuid,
    ids: Seq<Uuid>,
    now: Timestamp,
    after: DbView,
    r: Result<User, DbError>,
)
    requires
        db.wf(),
        enroll_outcome(db, subject, username, display_name, id, ids, now, after, r),
        r is Ok,
    ensures
        r->Ok_0.id == enrolled_id(db, subject@, username@, id),
        r->Ok_0.display_name == display_name,
{
    let mid = enrolled(db, subject, username, display_name, id, now);
    let to = enrolled_id(db, subject@, username@, id);
    lemma_belongs_to(db, subject@, username@);
    if belongs_to(db, subject@, username@) is Some {
        let i = choose|i: int| 0 <= i < db.users.len() && (#[trigger] db.users[i]).id == to;
        assert(mid.users[i].id == to);
        assert(is_account(mid.users, to, i));
        let k = choose|k: int| is_account(mid.users, to, k);
        assert(mid.users[k] == renamed(db.users[k], to, display_name));
    } else {
        let n = db.users.len() as int;
        assert(mid.users[n].id == id);
        assert(is_account(mid.users, to, n));
        let k = choose|k: int| is_account(mid.users, to, k);
        assert(k == n || db.users[k].id == id);
    }
}

/// The first sign-in into a new store succeeds: nobody but the shared account is there,
/// and the subject gets an account of its own under its name, unless its name is the
/// shared account's. Signing in again leads to that account.
pub proof fn law_first_sign_in_succeeds(
    db: DbView,
    subject: String,
    username: String,
    display_name: String,
    id: Uuid,
    ids: Seq<Uuid>,
    now: Timestamp,
    after: DbView,
    r: Result<User, DbError>,
)
    requires
        db.wf(),
        db.users.len() == 1,
        db.identities.len() == 0,
        db.journal.len() == 0,
        timely_form(id),
        enroll_outcome(db, subject, username, display_name, id, ids, now, after, r),
    ensures
        r is Ok,
        r->Ok_0.display_name == display_name,
        username@ != db.users[0].username@ ==> r->Ok_0.id == id && r->Ok_0.username == username,
        forall|name: Seq<char>| #[trigger] belongs_to(after, subject@, name) == Some(r->Ok_0.id),
{
    let mid = enrolled(db, subject, username, display_name, id, now);
    let to = enrolled_id(db, subject@, username@, id);
    lemma_timely_is_not_shared(id);
    assert(db.users[0].id == SHARED_USER && db.users[0].subject is None);
    assert(db.users.drop_last() =~= Seq::<Account>::empty());
    assert(db.identities =~= Seq::<Identity>::empty());
    lemma_made_for(db.users, subject@);
    lemma_named(db.users, username@);
    assert(made_for(db.users, subject@) is None);
    assert(!has_user(db.users, id));
    assert(shared_entries(mid.journal) =~= Seq::<JournalEntry>::empty());
    assert(!claim_blocked(mid, ids));
    if belongs_to(db, subject@, username@) is Some {
        assert(to == SHARED_USER);
        assert(is_account(mid.users, to, 0));
    } else {
        assert(mid.users[1].id == id);
        assert(is_account(mid.users, to, 1));
    }
    let k = choose|k: int| is_account(mid.users, to, k);
    assert(k == 0 || k == 1);
    assert(mid.users[0].id == SHARED_USER);
    assert forall|name: Seq<char>| #[trigger] belongs_to(after, subject@, name) == Some(to) by {
        law_subject_keeps_its_account(db, subject, username, display_name, id, now, name);
        assert(after.users == mid.users && after.identities == mid.identities);
    }
}

// ---- signing in ----

/// Whether identifiers are at hand for `n` events, all different, none taken.
fn check_event_ids(ids: &Vec<Uuid>, n: usize, journal: &Vec<JournalEntry>) -> (r: bool)
    ensures
        r == event_ids_usable(ids@, n as nat, journal@),
{
    if ids.len() < n {
        return false;
    }
    let mut i: usize = 0;
    while i < n
        invariant
            i <= n <= ids@.len(),
            forall|a: int, b: int| 0 <= a < b < i ==> #[trigger] ids@[a] != #[trigger] ids@[b],
            forall|a: int| 0 <= a < i ==> !has_event(journal@, #[trigger] ids@[a]),
        decreases n - i,
    {
        let id = ids[i];
        let mut j: usize = 0;
        while j < i
            invariant
                j <= i < n <= ids@.len(),
                id == ids@[i as int],
                forall|a: int| 0 <= a < j ==> #[trigger] ids@[a] != id,
            decreases i - j,
        {
            if ids[j] == id {
                assert(ids@[j as int] == ids@[i as int]);
                return false;
            }
            j += 1;
        }
        let hit = |e: &JournalEntry| -> (b: bool)
            ensures b == (e.event.id == id)
        { e.event.id == id };
        if any(journal, hit, Ghost(|e: JournalEntry| e.event.id == id)) {
            assert(has_event(journal@, ids@[i as int]));
            return false;
        }
        i += 1;
    }
    true
}

/// Gives one reader's marks to another.
pub(crate) fn give_marks(marks: &mut Vec<ReadMark>, from: Uuid, to: Uuid)
    ensures
        final(marks)@ == given_marks(old(marks)@, from, to),
{
    let ghost all = marks@;
    let had = marks.clone();
    proof {
        assert(had@ =~= all);
    }
    let held = &had;
    let keep = |m: &ReadMark| -> (b: bool)
        ensures b == !(m.user_id == from && marked(held@, to, m.unit_id))
    {
        let unit_id = m.unit_id;
        let hit = |x: &ReadMark| -> (b: bool)
            ensures b == (x.user_id == to && x.unit_id == unit_id)
        { x.user_id == to && x.unit_id == unit_id };
        !(m.user_id == from && any(
            held,
            hit,
            Ghost(|x: ReadMark| x.user_id == to && x.unit_id == unit_id),
        ))
    };
    retain(
        marks,
        keep,
        Ghost(|m: ReadMark| !(m.user_id == from && marked(all, to, m.unit_id))),
    );
    let give = |m: &ReadMark| -> (n: ReadMark)
        ensures n == (if m.user_id == from { (ReadMark { user_id: to, ..*m }) } else { *m })
    {
        if m.user_id == from {
            ReadMark { user_id: to, unit_id: m.unit_id, at: m.at }
        } else {
            *m
        }
    };
    change_all(
        marks,
        give,
        Ghost(
            |m: ReadMark|
                if m.user_id == from {
                    ReadMark { user_id: to, ..m }
                } else {
                    m
                },
        ),
    );
}

/// The one account with a subject.
fn find_sole(users: &Vec<Account>) -> (r: Option<Uuid>)
    ensures
        match r {
            Some(id) => has_sole(users@) && sole(users@).id == id,
            None => !has_sole(users@),
        },
{
    let mut found: Option<usize> = None;
    let mut i: usize = 0;
    while i < users.len()
        invariant
            i <= users@.len(),
            match found {
                Some(t) => t < i && users@[t as int].subject is Some && forall|j: int|
                    0 <= j < i && (#[trigger] users@[j]).subject is Some ==> j == t,
                None => forall|j: int| 0 <= j < i ==> (#[trigger] users@[j]).subject is None,
            },
        decreases users@.len() - i,
    {
        if users[i].subject.is_some() {
            match found {
                Some(t) => {
                    proof {
                        assert forall|k: int| !is_sole(users@, k) by {
                            assert(users@[i as int].subject is Some);
                            assert(users@[t as int].subject is Some);
                        }
                    }
                    return None;
                },
                None => {
                    found = Some(i);
                },
            }
        }
        i += 1;
    }
    match found {
        Some(t) => {
            proof {
                assert(is_sole(users@, t as int));
                let k = choose|k: int| is_sole(users@, k);
                assert(k == t);
            }
            Some(users[t].id)
        },
        None => None,
    }
}

impl Db {
    /// The account that a subject is registered for.
    fn identity_user_id(&self, subject: &str) -> (r: Option<Uuid>)
        ensures
            r == identity_of(self@.identities, subject@),
    {
        let mut i: usize = 0;
        assert(self.identities@.take(0) =~= Seq::empty());
        while i < self.identities.len()
            invariant
                i <= self.identities@.len(),
                identity_of(self.identities@.take(i as int), subject@) is None,
                self@.identities == self.identities@,
            decreases self.identities@.len() - i,
        {
            assert(self.identities@.take(i + 1).drop_last() =~= self.identities@.take(i as int));
            if same(self.identities[i].subject.as_str(), subject) {
                let found = self.identities[i].user_id;
                proof {
                    lemma_identity_prefix(self.identities@, subject@, i + 1);
                }
                return Some(found);
            }
            i += 1;
        }
        assert(self.identities@.take(self.identities@.len() as int) =~= self.identities@);
        None
    }

    /// The account that was made for a subject.
    pub(crate) fn account_made_for(&self, subject: &str) -> (r: Option<Uuid>)
        ensures
            r == made_for(self@.users, subject@),
    {
        let mut i: usize = 0;
        assert(self.users@.take(0) =~= Seq::empty());
        while i < self.users.len()
            invariant
                i <= self.users@.len(),
                made_for(self.users@.take(i as int), subject@) is None,
                self@.users == self.users@,
            decreases self.users@.len() - i,
        {
            assert(self.users@.take(i + 1).drop_last() =~= self.users@.take(i as int));
            let hit = match &self.users[i].subject {
                Some(s) => same(s.as_str(), subject),
                None => false,
            };
            if hit {
                let found = self.users[i].id;
                proof {
                    lemma_made_for_prefix(self.users@, subject@, i + 1);
                }
                return Some(found);
            }
            i += 1;
        }
        assert(self.users@.take(self.users@.len() as int) =~= self.users@);
        None
    }

    /// The account with a name.
    pub(crate) fn account_named(&self, username: &str) -> (r: Option<Uuid>)
        ensures
            r == named(self@.users, username@),
    {
        let mut i: usize = 0;
        assert(self.users@.take(0) =~= Seq::empty());
        while i < self.users.len()
            invariant
                i <= self.users@.len(),
                named(self.users@.take(i as int), username@) is None,
                self@.users == self.users@,
            decreases self.users@.len() - i,
        {
            assert(self.users@.take(i + 1).drop_last() =~= self.users@.take(i as int));
            if same(self.users[i].username.as_str(), username) {
                let found = self.users[i].id;
                proof {
                    lemma_named_prefix(self.users@, username@, i + 1);
                }
                return Some(found);
            }
            i += 1;
        }
        assert(self.users@.take(self.users@.len() as int) =~= self.users@);
        None
    }

    /// The reader with an identifier.
    pub fn user_by_id(&self, id: Uuid) -> (r: Result<User, DbError>)
        requires
            self.wf(),
        ensures
            r == if has_user(self@.users, id) {
                Ok::<User, DbError>(reader_of(account_of(self@.users, id)))
            } else {
                Err::<User, DbError>(DbError::NotFound)
            },
    {
        let is_it = |a: &Account| -> (b: bool)
            ensures b == (a.id == id)
        { a.id == id };
        match position(&self.users, is_it, Ghost(|a: Account| a.id == id)) {
            Some(i) => {
                proof {
                    assert(is_account(self@.users, id, i as int));
                    let k = choose|k: int| is_account(self@.users, id, k);
                    assert(self@.users[k].id == self@.users[i as int].id);
                    assert(k == i);
                    assert(self@.users[i as int].id == id);
                }
                let a = &self.users[i];
                Ok(
                    User {
                        id: a.id,
                        username: a.username.clone(),
                        display_name: a.display_name.clone(),
                    },
                )
            },
            None => Err(DbError::NotFound),
        }
    }

    /// Registers a subject for an account, unless it is registered.
    fn register_identity(&mut self, subject: &String, user_id: Uuid, now: Timestamp)
        ensures
            final(self)@ == (DbView {
                identities: registered(old(self)@.identities, *subject, user_id, now),
                ..old(self)@
            }),
    {
        if self.identity_user_id(subject.as_str()).is_none() {
            self.identities.push(Identity { subject: subject.clone(), user_id, created_at: now });
        }
    }

    /// Hands the shared account's history to the one reader it can belong to, once.
    pub fn claim_shared_history_at(&mut self, ids: &Vec<Uuid>, now: Timestamp) -> (r: Result<
        (),
        DbError,
    >)
        requires
            old(self).wf(),
            old(self)@.next_seq + old(self)@.journal.len() <= i64::MAX,
        ensures
            final(self).wf(),
            match r {
                Ok(_) => !claim_blocked(old(self)@, ids@) && final(self)@ == claimed(
                    old(self)@,
                    ids@,
                    now,
                ),
                Err(e) => claim_blocked(old(self)@, ids@) && final(self)@ == old(self)@ && is_taken(e),
            },
    {
        let ghost before = self@;
        let to = match find_sole(&self.users) {
            Some(id) => id,
            None => {
                return Ok(());
            },
        };
        if self.claim.is_some() {
            return Ok(());
        }
        let of_shared = |e: &JournalEntry| -> (b: bool)
            ensures b == (e.user_id == SHARED_USER)
        { e.user_id == SHARED_USER };
        let shared = pick_journal(
            &self.journal,
            of_shared,
            Ghost(|e: JournalEntry| e.user_id == SHARED_USER),
        );
        if !check_event_ids(ids, shared.len(), &self.journal) {
            return Err(taken());
        }
        proof {
            lemma_claimed(before, ids@, now);
            lemma_filter_len(before.journal, |e: JournalEntry| e.user_id == SHARED_USER);
        }
        give_marks(&mut self.marks, SHARED_USER, to);
        let of_others = |e: &JournalEntry| -> (b: bool)
            ensures b == (e.user_id != SHARED_USER)
        { e.user_id != SHARED_USER };
        retain(&mut self.journal, of_others, Ghost(|e: JournalEntry| e.user_id != SHARED_USER));
        let ghost rest = self.journal@;
        let ghost copies = copied(shared@, to, ids@, before.next_seq);
        let mut k: usize = 0;
        let ghost mid = self@;
        while k < shared.len()
            invariant
                k <= shared@.len() <= ids@.len(),
                self@ == (DbView { journal: self.journal@, next_seq: self.next_seq as int, ..mid }),
                self.next_seq == before.next_seq + k,
                before.next_seq + shared@.len() <= i64::MAX,
                copies == copied(shared@, to, ids@, before.next_seq),
                self.journal@ == rest + copies.take(k as int),
            decreases shared@.len() - k,
        {
            let mut event = shared[k].event.clone();
            event.id = ids[k];
            let seq: i64 = self.next_seq;
            self.journal.push(JournalEntry { seq, user_id: to, event });
            self.next_seq = seq + 1;
            assert(self.journal@ =~= rest + copies.take(k + 1));
            k += 1;
        }
        assert(copies.take(copies.len() as int) =~= copies);
        self.claim = Some(Claim { user_id: to, claimed_at: now });
        assert(self@ =~= claimed(before, ids@, now));
        Ok(())
    }

    /// Signs a subject in, its name normalized, with identifiers and a time at hand.
    fn enroll(
        &mut self,
        subject: &String,
        username: &String,
        display_name: &String,
        id: Uuid,
        ids: &Vec<Uuid>,
        now: Timestamp,
    ) -> (r: Result<User, DbError>)
        requires
            old(self).wf(),
            old(self)@.next_seq + old(self)@.journal.len() <= i64::MAX,
        ensures
            final(self).wf(),
            enroll_outcome(
                old(self)@,
                *subject,
                *username,
                *display_name,
                id,
                ids@,
                now,
                final(self)@,
                r,
            ),
    {
        let ghost before = self@;
        let found = match self.identity_user_id(subject.as_str()) {
            Some(x) => Some(x),
            None => match self.account_made_for(subject.as_str()) {
                Some(x) => Some(x),
                None => self.account_named(username.as_str()),
            },
        };
        assert(found == belongs_to(before, subject@, username@));
        let user_id = match found {
            Some(x) => {
                let rename = |a: &Account| -> (b: Account)
                    ensures b == renamed(*a, x, *display_name)
                {
                    let mut b = a.clone();
                    if a.id == x {
                        b.display_name = display_name.clone();
                    }
                    b
                };
                change_all(
                    &mut self.users,
                    rename,
                    Ghost(|a: Account| renamed(a, x, *display_name)),
                );
                x
            },
            None => {
                if self.knows_user(id) {
                    return Err(taken());
                }
                self.users.push(
                    Account {
                        id,
                        subject: Some(subject.clone()),
                        username: username.clone(),
                        display_name: display_name.clone(),
                        created_at: now,
                    },
                );
                id
            },
        };
        self.register_identity(subject, user_id, now);
        let ghost mid = enrolled(before, *subject, *username, *display_name, id, now);
        proof {
            assert(self@ =~= mid);
            lemma_enrolled(before, *subject, *username, *display_name, id, now);
        }
        let user = match self.user_by_id(user_id) {
            Ok(u) => u,
            Err(e) => {
                return Err(e);
            },
        };
        match self.claim_shared_history_at(ids, now) {
            Ok(_) => Ok(user),
            Err(e) => Err(e),
        }
    }

    /// Whether there is an account with this identifier.
    pub(crate) fn knows_user(&self, id: Uuid) -> (r: bool)
        ensures
            r == has_user(self@.users, id),
    {
        let is_it = |a: &Account| -> (b: bool)
            ensures b == (a.id == id)
        { a.id == id };
        any(&self.users, is_it, Ghost(|a: Account| a.id == id))
    }

    /// Signs in a subject of the identity provider, with identifiers and a time at
    /// hand: its account is found, or made, and gets the display name. Where this
    /// leaves exactly one reader, the shared account's history becomes theirs.
    pub fn upsert_oidc_user_at(
        &mut self,
        subject: &str,
        username: &str,
        display_name: &str,
        id: Uuid,
        ids: &Vec<Uuid>,
        now: Timestamp,
    ) -> (r: Result<User, DbError>)
        requires
            old(self).wf(),
            old(self)@.next_seq + old(self)@.journal.len() <= i64::MAX,
        ensures
            final(self).wf(),
            exists|s: String, u: String, d: String|
                s@ == subject@ && u@ == normalized(username@) && d@ == display_name@
                    && #[trigger] enroll_outcome(
                    old(self)@,
                    s,
                    u,
                    d,
                    id,
                    ids@,
                    now,
                    final(self)@,
                    r,
                ),
    {
        let name = lowered(trim(username).as_str());
        self.enroll(&subject.to_owned(), &name, &display_name.to_owned(), id, ids, now)
    }

    /// Signs in a subject of the identity provider, as of now.
    pub fn upsert_oidc_user(&mut self, subject: &str, username: &str, display_name: &str) -> (r: Result<
        User,
        DbError,
    >)
        requires
            old(self).wf(),
            old(self)@.next_seq + old(self)@.journal.len() <= i64::MAX,
        ensures
            final(self).wf(),
            exists|s: String, u: String, d: String, id: Uuid, ids: Seq<Uuid>, now: Timestamp|
                s@ == subject@ && u@ == normalized(username@) && d@ == display_name@ && timely_form(id)
                    && timely_forms(ids, old(self)@.journal.len()) && is_reading(now) && #[trigger] enroll_outcome(
                    old(self)@,
                    s,
                    u,
                    d,
                    id,
                    ids,
                    now,
                    final(self)@,
                    r,
                ),
    {
        let id = fresh_id();
        let ids = fresh_ids(self.journal.len());
        let now = utc_now();
        self.upsert_oidc_user_at(subject, username, display_name, id, &ids, now)
    }
}

/// Entries of a journal that pass a test.
fn pick_journal<F: Fn(&JournalEntry) -> bool>(
    rows: &Vec<JournalEntry>,
    test: F,
    Ghost(p): Ghost<spec_fn(JournalEntry) -> bool>,
) -> (r: Vec<JournalEntry>)
    requires
        crate::tables::decides(test, p),
    ensures
        r@ == rows@.filter(p),
{
    let mut out: Vec<JournalEntry> = Vec::new();
    let mut i: usize = 0;
    proof {
        lemma_filter_none(rows@.take(0), p);
        assert(rows@.take(0).filter(p) =~= Seq::empty());
    }
    while i < rows.len()
        invariant
            crate::tables::decides(test, p),
            i <= rows@.len(),
            out@ == rows@.take(i as int).filter(p),
        decreases rows@.len() - i,
    {
        proof {
            lemma_filter_take(rows@, i as int, p);
        }
        if test(&rows[i]) {
            out.push(rows[i].clone());
        }
        i += 1;
    }
    assert(rows@.take(rows@.len() as int) =~= rows@);
    out
}

/// What was found in a prefix is found in the whole.
proof fn lemma_identity_prefix(s: Seq<Identity>, subject: Seq<char>, n: int)
    requires
        0 <= n <= s.len(),
        identity_of(s.take(n), subject) is Some,
    ensures
        identity_of(s, subject) == identity_of(s.take(n), subject),
    decreases s.len(),
{
    if n < s.len() {
        assert(s.drop_last().take(n) =~= s.take(n));
        lemma_identity_prefix(s.drop_last(), subject, n);
    } else {
        assert(s.take(n) =~= s);
    }
}

/// What was found in a prefix is found in the whole.
proof fn lemma_made_for_prefix(s: Seq<Account>, subject: Seq<char>, n: int)
    requires
        0 <= n <= s.len(),
        made_for(s.take(n), subject) is Some,
    ensures
        made_for(s, subject) == made_for(s.take(n), subject),
    decreases s.len(),
{
    if n < s.len() {
        assert(s.drop_last().take(n) =~= s.take(n));
        lemma_made_for_prefix(s.drop_last(), subject, n);
    } else {
        assert(s.take(n) =~= s);
    }
}

/// What was found in a prefix is found in the whole.
proof fn lemma_named_prefix(s: Seq<Account>, username: Seq<char>, n: int)
    requires
        0 <= n <= s.len(),
        named(s.take(n), username) is Some,
    ensures
        named(s, username) == named(s.take(n), username),
    decreases s.len(),
{
    if n < s.len() {
        assert(s.drop_last().take(n) =~= s.take(n));
        lemma_named_prefix(s.drop_last(), username, n);
    } else {
        assert(s.take(n) =~= s);
    }
}

}
