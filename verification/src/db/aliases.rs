//! Accounts that were made twice for one person, and how they become one again.
//!
//! Before a subject could join an account by its name, a name that was taken got
//! the subject appended. That suffix is an exact record of what happened, so such
//! accounts can be told without guessing.

use vstd::prelude::*;

use crate::clock::Timestamp;
use crate::db::users::{account_of, give_marks, given_marks, lemma_given_marks, made_for, named, normalized, reader_of, renamed};
use crate::db::{
    dangling, has_shared, has_user, identities_placed, is_dangling, is_taken, sessions_placed, taken, users_distinct, Account, Claim, Db,
    DbError, DbView, Identity, JournalEntry, ReadMark, Session,
};
use crate::domain::users::User;
use crate::ids::{Uuid, SHARED_USER};
use crate::tables::{any, change_all, kept_places, lemma_filter_contains, lemma_kept_places, retain};
use crate::text::{join3, lowered, same, trim};

verus! {

/// A name with a subject appended.
pub open spec fn qualified(username: Seq<char>, subject: Seq<char>) -> Seq<char> {
    username + "-"@ + subject
}

/// `dup` was made for a person who has the account `main`: its name is that of
/// `main`, with its own subject appended.
pub open spec fn is_duplicate(dup: Account, main: Account) -> bool {
    &&& dup.subject is Some
    &&& main.subject is Some
    &&& dup.id != main.id
    &&& dup.username@ == qualified(main.username@, dup.subject->0@)
}

/// The account that `dup` doubles, among the first of the accounts.
pub open spec fn doubled_by(users: Seq<Account>, dup: Account) -> Option<Uuid>
    decreases users.len(),
{
    if users.len() == 0 {
        None
    } else {
        match doubled_by(users.drop_last(), dup) {
            Some(id) => Some(id),
            None => if is_duplicate(dup, users.last()) {
                Some(users.last().id)
            } else {
                None
            },
        }
    }
}

/// The doubled accounts among `candidates`, each with the one it doubles.
pub open spec fn duplicates_in(candidates: Seq<Account>, users: Seq<Account>) -> Seq<(Uuid, Uuid)>
    decreases candidates.len(),
{
    if candidates.len() == 0 {
        Seq::empty()
    } else {
        let before = duplicates_in(candidates.drop_last(), users);
        match doubled_by(users, candidates.last()) {
            Some(id) => before.push((candidates.last().id, id)),
            None => before,
        }
    }
}

/// A reader's identifier replaced.
pub open spec fn replaced(id: Uuid, from: Uuid, to: Uuid) -> Uuid {
    if id == from {
        to
    } else {
        id
    }
}

/// The tables with one account's marks, journal, sessions, identities and claim given
/// to another, and the account gone.
pub open spec fn unified(db: DbView, from: Uuid, to: Uuid) -> DbView {
    DbView {
        marks: given_marks(db.marks, from, to),
        journal: db.journal.map_values(
            |e: JournalEntry| JournalEntry { user_id: replaced(e.user_id, from, to), ..e },
        ),
        sessions: db.sessions.map_values(
            |s: Session| Session { user_id: replaced(s.user_id, from, to), ..s },
        ),
        identities: db.identities.map_values(
            |i: Identity| Identity { user_id: replaced(i.user_id, from, to), ..i },
        ),
        claim: match db.claim {
            Some(c) => Some(Claim { user_id: replaced(c.user_id, from, to), ..c }),
            None => None,
        },
        users: db.users.filter(|a: Account| a.id != from),
        ..db
    }
}

/// Something in the tables is an account's own: a mark, a journal entry, a session, an
/// identity, or the claim on the shared history.
pub open spec fn owns_rows(db: DbView, id: Uuid) -> bool {
    ||| exists|i: int| 0 <= i < db.marks.len() && (#[trigger] db.marks[i]).user_id == id
    ||| exists|i: int| 0 <= i < db.journal.len() && (#[trigger] db.journal[i]).user_id == id
    ||| exists|i: int| 0 <= i < db.sessions.len() && (#[trigger] db.sessions[i]).user_id == id
    ||| exists|i: int| 0 <= i < db.identities.len() && (#[trigger] db.identities[i]).user_id == id
    ||| db.claim matches Some(c) && c.user_id == id
}

/// One account can be unified with another: the other is there, or nothing has to move.
pub open spec fn can_unify(db: DbView, from: Uuid, to: Uuid) -> bool {
    has_user(db.users, to) || !owns_rows(db, from)
}

/// How far unifying has come.
pub struct Unifying {
    pub db: DbView,
    /// Every doubled account so far has found the one it doubles.
    pub through: bool,
}

/// Doubled accounts unified one after the other, as far as what they own can move: the
/// accounts they double are still there when their turn comes.
pub open spec fn all_unified(db: DbView, pairs: Seq<(Uuid, Uuid)>) -> Unifying
    decreases pairs.len(),
{
    if pairs.len() == 0 {
        Unifying { db, through: true }
    } else {
        let before = all_unified(db, pairs.drop_last());
        if before.through && can_unify(before.db, pairs.last().0, pairs.last().1) {
            Unifying { db: unified(before.db, pairs.last().0, pairs.last().1), through: true }
        } else {
            Unifying { db: before.db, through: false }
        }
    }
}

/// Unifying two accounts keeps the tables' promises.
proof fn lemma_unified(db: DbView, from: Uuid, to: Uuid)
    requires
        db.wf(),
        from != to,
        from != SHARED_USER,
        can_unify(db, from, to),
    ensures
        unified(db, from, to).wf(),
{
    let out = unified(db, from, to);
    let p = |a: Account| a.id != from;
    lemma_given_marks(db.marks, db.units, from, to);
    lemma_kept_places(db.users, p);
    lemma_filter_contains(db.users, p);
    let at = kept_places(db.users, p);
    assert forall|x: Uuid| x != from && has_user(db.users, x) implies #[trigger] has_user(out.users, x) by {
        let i = choose|i: int| 0 <= i < db.users.len() && (#[trigger] db.users[i]).id == x;
        assert(db.users.contains(db.users[i]));
        assert(out.users.contains(db.users[i]));
        let k = choose|k: int| 0 <= k < out.users.len() && out.users[k] == db.users[i];
        assert(out.users[k].id == x);
    }
    let s = choose|i: int|
        0 <= i < db.users.len() && (#[trigger] db.users[i]).id == SHARED_USER && db.users[i].subject is None;
    assert(db.users.contains(db.users[s]));
    assert(out.users.contains(db.users[s]));
    let k = choose|k: int| 0 <= k < out.users.len() && out.users[k] == db.users[s];
    assert(out.users[k].id == SHARED_USER && out.users[k].subject is None);
    assert forall|i: int| 0 <= i < out.users.len() implies #[trigger] out.users[i] == db.users[at[i]] && 0
        <= at[i] < db.users.len() by {}
    assert forall|i: int, j: int|
        0 <= i < out.users.len() && 0 <= j < out.users.len() && (#[trigger] out.users[i]).id == (
        #[trigger] out.users[j]).id implies i == j by {
        assert(at[i] == at[j]);
        assert(at[i] < at[j] || at[j] < at[i] || i == j);
    }
    assert forall|i: int, j: int|
        0 <= i < out.users.len() && 0 <= j < out.users.len() && (#[trigger] out.users[i]).username@ == (
        #[trigger] out.users[j]).username@ implies i == j by {
        assert(at[i] == at[j]);
        assert(at[i] < at[j] || at[j] < at[i] || i == j);
    }
    assert forall|i: int, j: int|
        0 <= i < out.users.len() && 0 <= j < out.users.len() && (#[trigger] out.users[i]).subject is Some && (
        #[trigger] out.users[j]).subject is Some && out.users[i].subject->0@ == out.users[j].subject->0@ implies i
        == j by {
        assert(at[i] == at[j]);
        assert(at[i] < at[j] || at[j] < at[i] || i == j);
    }
    assert forall|i: int| 0 <= i < out.journal.len() implies (#[trigger] out.journal[i]).event
        == db.journal[i].event && out.journal[i].seq == db.journal[i].seq by {}
    assert forall|i: int| 0 <= i < out.sessions.len() implies has_user(
        out.users,
        (#[trigger] out.sessions[i]).user_id,
    ) by {
        assert(has_user(db.users, db.sessions[i].user_id));
        if db.sessions[i].user_id == from {
            assert(owns_rows(db, from));
            assert(has_user(out.users, to));
        }
    }
    assert forall|i: int| 0 <= i < out.identities.len() implies has_user(
        out.users,
        (#[trigger] out.identities[i]).user_id,
    ) by {
        assert(has_user(db.users, db.identities[i].user_id));
        if db.identities[i].user_id == from {
            assert(owns_rows(db, from));
            assert(has_user(out.users, to));
        }
    }
    assert forall|i: int| 0 <= i < out.sessions.len() implies (#[trigger] out.sessions[i]).token_hash
        == db.sessions[i].token_hash by {}
    assert forall|i: int| 0 <= i < out.identities.len() implies (#[trigger] out.identities[i]).subject
        == db.identities[i].subject by {}
}

/// The account that a doubled one doubles is there, is another, and the doubled one
/// is not the shared account.
proof fn lemma_doubled_by(users: Seq<Account>, dup: Account)
    ensures
        doubled_by(users, dup) matches Some(id) ==> exists|i: int|
            0 <= i < users.len() && (#[trigger] users[i]).id == id && is_duplicate(dup, users[i]),
    decreases users.len(),
{
    if users.len() > 0 {
        let d = users.drop_last();
        lemma_doubled_by(d, dup);
        if doubled_by(d, dup) is Some {
            let i = choose|i: int|
                0 <= i < d.len() && (#[trigger] d[i]).id == doubled_by(d, dup)->0 && is_duplicate(
                    dup,
                    d[i],
                );
            assert(users[i] == d[i]);
        } else if is_duplicate(dup, users.last()) {
            assert(users[users.len() - 1] == users.last());
        }
    }
}

/// The pairs that are found are of two accounts each, and none is the shared one that
/// would go.
proof fn lemma_duplicates(candidates: Seq<Account>, users: Seq<Account>)
    requires
        users_distinct(users),
        has_shared(users),
        forall|i: int| 0 <= i < candidates.len() ==> users.contains(#[trigger] candidates[i]),
    ensures
        forall|k: int|
            0 <= k < duplicates_in(candidates, users).len() ==> {
                let p = #[trigger] duplicates_in(candidates, users)[k];
                p.0 != p.1 && p.0 != SHARED_USER
            },
    decreases candidates.len(),
{
    if candidates.len() > 0 {
        let d = candidates.drop_last();
        assert forall|i: int| 0 <= i < d.len() implies users.contains(#[trigger] d[i]) by {
            assert(d[i] == candidates[i]);
        }
        lemma_duplicates(d, users);
        let c = candidates.last();
        lemma_doubled_by(users, c);
        assert(users.contains(candidates[candidates.len() - 1]));
        if doubled_by(users, c) is Some {
            let s = choose|s: int|
                0 <= s < users.len() && (#[trigger] users[s]).id == SHARED_USER && users[s].subject is None;
            let m = choose|m: int| 0 <= m < users.len() && users[m] == c;
            if c.id == SHARED_USER {
                assert(users[m].id == users[s].id);
                assert(m == s);
            }
            let before = duplicates_in(d, users);
            let all = duplicates_in(candidates, users);
            assert forall|k: int| 0 <= k < all.len() implies {
                let p = #[trigger] all[k];
                p.0 != p.1 && p.0 != SHARED_USER
            } by {
                if k < before.len() {
                    assert(all[k] == before[k]);
                }
            }
        }
    }
}

/// Unifying loses nothing of the reader's history: what either account had read, the
/// one that stays has read, and the whole journal is its own.
pub proof fn law_unifying_loses_nothing(db: DbView, from: Uuid, to: Uuid)
    requires
        db.wf(),
        from != to,
    ensures
        forall|x: Uuid|
            #[trigger] crate::db::units::marked(unified(db, from, to).marks, to, x)
                <==> crate::db::units::marked(db.marks, to, x) || crate::db::units::marked(db.marks, from, x),
        unified(db, from, to).journal.len() == db.journal.len(),
        forall|i: int|
            0 <= i < db.journal.len() ==> (#[trigger] unified(db, from, to).journal[i]).event
                == db.journal[i].event && unified(db, from, to).journal[i].user_id == replaced(
                db.journal[i].user_id,
                from,
                to,
            ),
        forall|i: int|
            0 <= i < db.sessions.len() ==> (#[trigger] unified(db, from, to).sessions[i]).token_hash
                == db.sessions[i].token_hash && unified(db, from, to).sessions[i].user_id == replaced(
                db.sessions[i].user_id,
                from,
                to,
            ),
{
    lemma_given_marks(db.marks, db.units, from, to);
}

/// Whether one account doubles another.
fn doubles(dup: &Account, main: &Account) -> (r: bool)
    ensures
        r == is_duplicate(*dup, *main),
{
    match &dup.subject {
        Some(s) => main.subject.is_some() && dup.id != main.id && {
            let expected = join3(main.username.as_str(), "-", s.as_str());
            same(dup.username.as_str(), expected.as_str())
        },
        None => false,
    }
}

impl Db {
    /// The account that one doubles.
    fn find_doubled(&self, dup: &Account) -> (r: Option<Uuid>)
        ensures
            r == doubled_by(self@.users, *dup),
    {
        let mut i: usize = 0;
        let mut found: Option<Uuid> = None;
        assert(self.users@.take(0) =~= Seq::empty());
        while i < self.users.len()
            invariant
                i <= self.users@.len(),
                found == doubled_by(self.users@.take(i as int), *dup),
                self@.users == self.users@,
            decreases self.users@.len() - i,
        {
            assert(self.users@.take(i + 1).drop_last() =~= self.users@.take(i as int));
            if found.is_none() && doubles(dup, &self.users[i]) {
                found = Some(self.users[i].id);
            }
            i += 1;
        }
        assert(self.users@.take(self.users@.len() as int) =~= self.users@);
        found
    }

    /// The doubled accounts, each with the one it doubles.
    fn find_duplicates(&self) -> (r: Vec<(Uuid, Uuid)>)
        ensures
            r@ == duplicates_in(self@.users, self@.users),
    {
        let mut out: Vec<(Uuid, Uuid)> = Vec::new();
        let mut i: usize = 0;
        assert(self.users@.take(0) =~= Seq::empty());
        while i < self.users.len()
            invariant
                i <= self.users@.len(),
                self@.users == self.users@,
                out@ == duplicates_in(self.users@.take(i as int), self@.users),
            decreases self.users@.len() - i,
        {
            assert(self.users@.take(i + 1).drop_last() =~= self.users@.take(i as int));
            let dup = &self.users[i];
            match self.find_doubled(dup) {
                Some(id) => {
                    out.push((dup.id, id));
                },
                None => {},
            }
            i += 1;
        }
        assert(self.users@.take(self.users@.len() as int) =~= self.users@);
        out
    }

    /// Whether something in the tables is an account's own.
    fn has_rows_of(&self, id: Uuid) -> (r: bool)
        ensures
            r == owns_rows(self@, id),
    {
        let mark = |m: &ReadMark| -> (b: bool)
            ensures b == (m.user_id == id)
        {
            m.user_id == id
        };
        let entry = |e: &JournalEntry| -> (b: bool)
            ensures b == (e.user_id == id)
        {
            e.user_id == id
        };
        let session = |s: &Session| -> (b: bool)
            ensures b == (s.user_id == id)
        {
            s.user_id == id
        };
        let identity = |i: &Identity| -> (b: bool)
            ensures b == (i.user_id == id)
        {
            i.user_id == id
        };
        let claimed = match self.claim {
            Some(c) => c.user_id == id,
            None => false,
        };
        let marks = any(&self.marks, mark, Ghost(|m: ReadMark| m.user_id == id));
        let journal = any(&self.journal, entry, Ghost(|e: JournalEntry| e.user_id == id));
        let sessions = any(&self.sessions, session, Ghost(|s: Session| s.user_id == id));
        let identities = any(&self.identities, identity, Ghost(|i: Identity| i.user_id == id));
        assert(marks == exists|i: int|
            0 <= i < self@.marks.len() && (#[trigger] self@.marks[i]).user_id == id);
        assert(journal == exists|i: int|
            0 <= i < self@.journal.len() && (#[trigger] self@.journal[i]).user_id == id);
        assert(sessions == exists|i: int|
            0 <= i < self@.sessions.len() && (#[trigger] self@.sessions[i]).user_id == id);
        assert(identities == exists|i: int|
            0 <= i < self@.identities.len() && (#[trigger] self@.identities[i]).user_id == id);
        marks || journal || sessions || identities || claimed
    }

    /// Gives all of one account to another, and drops it.
    fn unify(&mut self, from: Uuid, to: Uuid)
        ensures
            final(self)@ == unified(old(self)@, from, to),
    {
        let ghost before = self@;
        give_marks(&mut self.marks, from, to);
        let entry = |e: &JournalEntry| -> (n: JournalEntry)
            ensures n == (JournalEntry { user_id: replaced(e.user_id, from, to), ..*e })
        {
            let mut n = e.clone();
            if e.user_id == from {
                n.user_id = to;
            }
            n
        };
        change_all(
            &mut self.journal,
            entry,
            Ghost(|e: JournalEntry| JournalEntry { user_id: replaced(e.user_id, from, to), ..e }),
        );
        let session = |s: &Session| -> (n: Session)
            ensures n == (Session { user_id: replaced(s.user_id, from, to), ..*s })
        {
            let mut n = s.clone();
            if s.user_id == from {
                n.user_id = to;
            }
            n
        };
        change_all(
            &mut self.sessions,
            session,
            Ghost(|s: Session| Session { user_id: replaced(s.user_id, from, to), ..s }),
        );
        let identity = |i: &Identity| -> (n: Identity)
            ensures n == (Identity { user_id: replaced(i.user_id, from, to), ..*i })
        {
            let mut n = i.clone();
            if i.user_id == from {
                n.user_id = to;
            }
            n
        };
        change_all(
            &mut self.identities,
            identity,
            Ghost(|i: Identity| Identity { user_id: replaced(i.user_id, from, to), ..i }),
        );
        match self.claim {
            Some(c) => {
                if c.user_id == from {
                    self.claim = Some(Claim { user_id: to, claimed_at: c.claimed_at });
                }
            },
            None => {},
        }
        let stays = |a: &Account| -> (b: bool)
            ensures b == (a.id != from)
        { a.id != from };
        retain(&mut self.users, stays, Ghost(|a: Account| a.id != from));
        assert(self@ =~= unified(before, from, to));
    }

    /// Unifies accounts that were made twice for one person, one pair after the other.
    /// Where an account is doubled that was itself unified away before, and something has
    /// to move to it, the rest is left as it is.
    pub fn reconcile_qualified_users(&mut self) -> (r: Result<(), DbError>)
        requires
            old(self).wf(),
        ensures
            final(self).wf(),
            ({
                let out = all_unified(
                    old(self)@,
                    duplicates_in(old(self)@.users, old(self)@.users),
                );
                &&& final(self)@ == out.db
                &&& match r {
                    Ok(_) => out.through,
                    Err(e) => !out.through && is_dangling(e),
                }
            }),
    {
        let ghost before = self@;
        let pairs = self.find_duplicates();
        proof {
            assert forall|i: int| 0 <= i < before.users.len() implies before.users.contains(
                #[trigger] before.users[i],
            ) by {}
            lemma_duplicates(before.users, before.users);
            assert(pairs@.take(0) =~= Seq::empty());
        }
        let mut k: usize = 0;
        while k < pairs.len()
            invariant
                k <= pairs@.len(),
                before == old(self)@,
                self.wf(),
                self@ == all_unified(before, pairs@.take(k as int)).db,
                all_unified(before, pairs@.take(k as int)).through,
                pairs@ == duplicates_in(before.users, before.users),
                forall|j: int|
                    0 <= j < pairs@.len() ==> (#[trigger] pairs@[j]).0 != pairs@[j].1 && pairs@[j].0
                        != SHARED_USER,
            decreases pairs@.len() - k,
        {
            let (from, to) = pairs[k];
            assert(pairs@[k as int] == (from, to));
            assert(pairs@.take(k + 1).drop_last() =~= pairs@.take(k as int));
            if !self.knows_user(to) && self.has_rows_of(from) {
                proof {
                    lemma_stuck(before, pairs@, k + 1);
                }
                return Err(dangling());
            }
            proof {
                lemma_unified(self@, from, to);
            }
            self.unify(from, to);
            k += 1;
        }
        assert(pairs@.take(pairs@.len() as int) =~= pairs@);
        Ok(())
    }
}

/// Once a pair cannot be unified, none behind it is.
proof fn lemma_stuck(db: DbView, pairs: Seq<(Uuid, Uuid)>, n: int)
    requires
        0 <= n <= pairs.len(),
        !all_unified(db, pairs.take(n)).through,
    ensures
        all_unified(db, pairs) == all_unified(db, pairs.take(n)),
    decreases pairs.len(),
{
    if n < pairs.len() {
        assert(pairs.drop_last().take(n) =~= pairs.take(n));
        lemma_stuck(db, pairs.drop_last(), n);
    } else {
        assert(pairs.take(n) =~= pairs);
    }
}

/// What signing in did before subjects could join an account by name: the account
/// made for the subject is refreshed; else one is made under the name, or under the
/// name with the subject appended where the name is taken.
pub open spec fn qualified_outcome(
    before: DbView,
    subject: String,
    username: Seq<char>,
    display_name: String,
    id: Uuid,
    now: Timestamp,
    after: DbView,
    r: Result<User, DbError>,
) -> bool {
    match made_for(before.users, subject@) {
        Some(user_id) => {
            &&& after == DbView {
                users: before.users.map_values(|a: Account| renamed(a, user_id, display_name)),
                ..before
            }
            &&& r == Ok::<User, DbError>(reader_of(account_of(after.users, user_id)))
        },
        None => {
            let name = if named(before.users, username) is Some {
                qualified(username, subject@)
            } else {
                username
            };
            if has_user(before.users, id) || named(before.users, name) is Some {
                after == before && (r matches Err(e) && is_taken(e))
            } else {
                &&& after.users.len() == before.users.len() + 1
                &&& after == DbView { users: before.users.push(after.users.last()), ..before }
                &&& after.users.last().id == id
                &&& after.users.last().subject == Some(subject)
                &&& after.users.last().username@ == name
                &&& after.users.last().display_name == display_name
                &&& after.users.last().created_at == now
                &&& r == Ok::<User, DbError>(reader_of(after.users.last()))
            }
        },
    }
}

impl Db {
    /// Signs in a subject without joining an account by its name: a name that is taken
    /// gets the subject appended. `reconcile_qualified_users` undoes the doubling.
    pub fn upsert_qualified_user_at(
        &mut self,
        subject: &str,
        username: &str,
        display_name: &str,
        id: Uuid,
        now: Timestamp,
    ) -> (r: Result<User, DbError>)
        requires
            old(self).wf(),
        ensures
            final(self).wf(),
            exists|s: String, d: String|
                s@ == subject@ && d@ == display_name@ && #[trigger] qualified_outcome(
                    old(self)@,
                    s,
                    normalized(username@),
                    d,
                    id,
                    now,
                    final(self)@,
                    r,
                ),
    {
        let ghost before = self@;
        let s = subject.to_owned();
        let d = display_name.to_owned();
        let plain = lowered(trim(username).as_str());
        assert(plain@ == normalized(username@));
        proof {
            crate::db::users::lemma_made_for(before.users, subject@);
        }
        match self.account_made_for(subject) {
            Some(x) => {
                let shown = &d;
                let rename = |a: &Account| -> (b: Account)
                    ensures b == renamed(*a, x, *shown)
                {
                    let mut b = a.clone();
                    if a.id == x {
                        b.display_name = shown.clone();
                    }
                    b
                };
                change_all(&mut self.users, rename, Ghost(|a: Account| renamed(a, x, d)));
                proof {
                    lemma_renamed(before, x, d);
                }
                let r = self.user_by_id(x);
                assert(qualified_outcome(before, s, normalized(username@), d, id, now, self@, r));
                return r;
            },
            None => {},
        }
        let name = if self.account_named(plain.as_str()).is_some() {
            join3(plain.as_str(), "-", subject)
        } else {
            plain.clone()
        };
        let clash = self.account_named(name.as_str()).is_some();
        if self.knows_user(id) || clash {
            let r = Err(taken());
            assert(qualified_outcome(before, s, normalized(username@), d, id, now, self@, r));
            return r;
        }
        let user = User { id, username: name.clone(), display_name: d.clone() };
        let subject_row = s.clone();
        let d_row = d.clone();
        self.users.push(
            Account { id, subject: Some(subject_row), username: name, display_name: d_row, created_at: now },
        );
        proof {
            lemma_account_added(before, self@.users.last());
            assert(self@ =~= (DbView { users: before.users.push(self@.users.last()), ..before }));
        }
        let r: Result<User, DbError> = Ok(user);
        assert(qualified_outcome(before, s, normalized(username@), d, id, now, self@, r));
        r
    }
}

/// Refreshing a display name keeps the tables' promises.
proof fn lemma_renamed(db: DbView, id: Uuid, display_name: String)
    requires
        db.wf(),
        has_user(db.users, id),
    ensures
        (DbView { users: db.users.map_values(|a: Account| renamed(a, id, display_name)), ..db }).wf(),
        has_user(db.users.map_values(|a: Account| renamed(a, id, display_name)), id),
{
    let out = db.users.map_values(|a: Account| renamed(a, id, display_name));
    assert forall|i: int| 0 <= i < out.len() implies (#[trigger] out[i]).id == db.users[i].id
        && out[i].username == db.users[i].username && out[i].subject == db.users[i].subject by {}
    lemma_users_extended(db, out);
}

/// Adding an account with a free identifier, name and subject keeps the tables' promises.
proof fn lemma_account_added(db: DbView, a: Account)
    requires
        db.wf(),
        !has_user(db.users, a.id),
        named(db.users, a.username@) is None,
        a.subject is Some,
        made_for(db.users, a.subject->0@) is None,
    ensures
        (DbView { users: db.users.push(a), ..db }).wf(),
{
    let out = db.users.push(a);
    crate::db::users::lemma_named(db.users, a.username@);
    crate::db::users::lemma_made_for(db.users, a.subject->0@);
    lemma_users_extended(db, out);
    assert forall|i: int, j: int|
        0 <= i < out.len() && 0 <= j < out.len() && (#[trigger] out[i]).id == (#[trigger] out[j]).id implies i
        == j by {
        if i < db.users.len() && j < db.users.len() {
            assert(db.users[i].id == db.users[j].id);
        } else if i < db.users.len() {
            assert(db.users[i].id == a.id);
        } else if j < db.users.len() {
            assert(db.users[j].id == a.id);
        }
    }
    assert forall|i: int, j: int|
        0 <= i < out.len() && 0 <= j < out.len() && (#[trigger] out[i]).username@ == (
        #[trigger] out[j]).username@ implies i == j by {
        if i < db.users.len() && j < db.users.len() {
            assert(db.users[i].username@ == db.users[j].username@);
        } else if i < db.users.len() {
            assert(db.users[i].username@ == a.username@);
        } else if j < db.users.len() {
            assert(db.users[j].username@ == a.username@);
        }
    }
    assert forall|i: int, j: int|
        0 <= i < out.len() && 0 <= j < out.len() && (#[trigger] out[i]).subject is Some && (
        #[trigger] out[j]).subject is Some && out[i].subject->0@ == out[j].subject->0@ implies i == j by {
        if i < db.users.len() && j < db.users.len() {
            assert(db.users[i].subject is Some && db.users[j].subject is Some);
        } else if i < db.users.len() {
            assert(db.users[i].subject is Some);
        } else if j < db.users.len() {
            assert(db.users[j].subject is Some);
        }
    }
}

/// Accounts that keep their place keep every reference to them.
proof fn lemma_users_extended(db: DbView, out: Seq<Account>)
    requires
        db.wf(),
        out.len() >= db.users.len(),
        forall|i: int|
            0 <= i < db.users.len() ==> (#[trigger] out[i]).id == db.users[i].id && out[i].subject
                == db.users[i].subject,
    ensures
        forall|x: Uuid| has_user(db.users, x) ==> #[trigger] has_user(out, x),
        has_shared(out),
        identities_placed(db.identities, out),
        sessions_placed(db.sessions, out),
{
    assert forall|x: Uuid| has_user(db.users, x) implies #[trigger] has_user(out, x) by {
        let i = choose|i: int| 0 <= i < db.users.len() && (#[trigger] db.users[i]).id == x;
        assert(out[i].id == x);
    }
    let s = choose|i: int|
        0 <= i < db.users.len() && (#[trigger] db.users[i]).id == SHARED_USER && db.users[i].subject is None;
    assert(out[s].id == SHARED_USER && out[s].subject is None);
    assert forall|i: int| 0 <= i < db.identities.len() implies has_user(
        out,
        (#[trigger] db.identities[i]).user_id,
    ) by {
        assert(has_user(db.users, db.identities[i].user_id));
    }
    assert forall|i: int| 0 <= i < db.sessions.len() implies has_user(
        out,
        (#[trigger] db.sessions[i]).user_id,
    ) by {
        assert(has_user(db.users, db.sessions[i].user_id));
    }
}

}
