//! Sessions: who is signed in, and until when.

use vstd::prelude::*;

use crate::clock::{utc_now, Timestamp};
use crate::db::users::{account_of, reader_of};
use crate::db::{dangling, has_user, is_dangling, is_taken, sessions_distinct, sessions_placed, taken, Account, Db, DbError, DbView, Session};
use crate::domain::users::User;
use crate::ids::Uuid;
use crate::tables::{any, kept_places, lemma_filter_contains, lemma_filter_len, lemma_kept_places, position, retain};
use crate::text::same;

verus! {

/// There is a session with this token.
pub open spec fn has_session(sessions: Seq<Session>, token_hash: Seq<char>) -> bool {
    exists|i: int| 0 <= i < sessions.len() && (#[trigger] sessions[i]).token_hash@ == token_hash
}

/// The session is over.
pub open spec fn is_expired(s: Session, now: Timestamp) -> bool {
    s.expires_at.lt(now)
}

/// The sessions that are not over.
pub open spec fn live_sessions(sessions: Seq<Session>, now: Timestamp) -> Seq<Session> {
    sessions.filter(|s: Session| !is_expired(s, now))
}

/// Row `i` is the session with the token, and it is not over.
pub open spec fn is_live(sessions: Seq<Session>, token_hash: Seq<char>, now: Timestamp, i: int) -> bool {
    0 <= i < sessions.len() && sessions[i].token_hash@ == token_hash && !is_expired(sessions[i], now)
}

/// The account of the session with the token, where that is not over.
pub open spec fn session_user(sessions: Seq<Session>, token_hash: Seq<char>, now: Timestamp) -> Option<Uuid> {
    if exists|i: int| is_live(sessions, token_hash, now, i) {
        Some(sessions[choose|i: int| is_live(sessions, token_hash, now, i)].user_id)
    } else {
        None
    }
}

/// What opening a session does.
pub open spec fn session_outcome(
    before: DbView,
    session: Session,
    now: Timestamp,
    after: DbView,
    r: Result<(), DbError>,
) -> bool {
    if has_session(before.sessions, session.token_hash@) {
        after == before && (r matches Err(e) && is_taken(e))
    } else if !has_user(before.users, session.user_id) {
        after == before && (r matches Err(e) && is_dangling(e))
    } else {
        &&& after == DbView { sessions: live_sessions(before.sessions.push(session), now), ..before }
        &&& r is Ok
    }
}

/// Dropping sessions keeps the rest distinct and in place.
proof fn lemma_sessions_filtered(sessions: Seq<Session>, users: Seq<Account>, p: spec_fn(Session) -> bool)
    requires
        sessions_distinct(sessions),
        sessions_placed(sessions, users),
    ensures
        sessions_distinct(sessions.filter(p)),
        sessions_placed(sessions.filter(p), users),
{
    lemma_kept_places(sessions, p);
    let at = kept_places(sessions, p);
    let out = sessions.filter(p);
    assert forall|i: int, j: int|
        0 <= i < out.len() && 0 <= j < out.len() && (#[trigger] out[i]).token_hash@ == (
        #[trigger] out[j]).token_hash@ implies i == j by {
        assert(sessions[at[i]] == out[i] && sessions[at[j]] == out[j]);
        assert(at[i] == at[j]);
        assert(at[i] < at[j] || at[j] < at[i] || i == j);
    }
    assert forall|i: int| 0 <= i < out.len() implies has_user(users, (#[trigger] out[i]).user_id) by {
        assert(sessions[at[i]] == out[i]);
    }
}

/// A session that is over lets nobody in, whether or not it was cleaned up.
pub proof fn law_expired_sessions_let_nobody_in(
    sessions: Seq<Session>,
    token_hash: Seq<char>,
    now: Timestamp,
)
    requires
        forall|i: int|
            0 <= i < sessions.len() && (#[trigger] sessions[i]).token_hash@ == token_hash ==> is_expired(
                sessions[i],
                now,
            ),
    ensures
        session_user(sessions, token_hash, now) is None,
{
}

/// Cleaning up takes nobody's session away before its time.
pub proof fn law_cleanup_spares_the_living(
    sessions: Seq<Session>,
    token_hash: Seq<char>,
    now: Timestamp,
)
    requires
        sessions_distinct(sessions),
    ensures
        session_user(live_sessions(sessions, now), token_hash, now) == session_user(
            sessions,
            token_hash,
            now,
        ),
{
    let p = |s: Session| !is_expired(s, now);
    let out = live_sessions(sessions, now);
    lemma_filter_contains(sessions, p);
    lemma_kept_places(sessions, p);
    let at = kept_places(sessions, p);
    if exists|i: int| is_live(sessions, token_hash, now, i) {
        let i = choose|i: int| is_live(sessions, token_hash, now, i);
        assert(sessions.contains(sessions[i]));
        assert(out.contains(sessions[i]));
        let k = choose|k: int| 0 <= k < out.len() && out[k] == sessions[i];
        assert(is_live(out, token_hash, now, k));
        let m = choose|m: int| is_live(out, token_hash, now, m);
        assert(sessions[at[m]] == out[m]);
        assert(sessions[at[m]].token_hash@ == sessions[i].token_hash@);
        assert(at[m] == i);
    } else if exists|m: int| is_live(out, token_hash, now, m) {
        let m = choose|m: int| is_live(out, token_hash, now, m);
        assert(is_live(sessions, token_hash, now, at[m]));
    }
}

impl Db {
    /// Opens a session, with a time at hand; sessions that are over go.
    pub fn create_session_at(
        &mut self,
        token_hash: &str,
        user_id: Uuid,
        expires_at: Timestamp,
        now: Timestamp,
    ) -> (r: Result<(), DbError>)
        requires
            old(self).wf(),
        ensures
            final(self).wf(),
            exists|t: String|
                t@ == token_hash@ && session_outcome(
                    old(self)@,
                    #[trigger] new_session(t, user_id, now, expires_at),
                    now,
                    final(self)@,
                    r,
                ),
    {
        let hash = token_hash.to_owned();
        let session = Session { token_hash: hash, user_id, created_at: now, expires_at };
        let ghost fresh = new_session(hash, user_id, now, expires_at);
        assert(session == fresh);
        let hit = |s: &Session| -> (b: bool)
            ensures b == (s.token_hash@ == token_hash@)
        { same(s.token_hash.as_str(), token_hash) };
        if any(&self.sessions, hit, Ghost(|s: Session| s.token_hash@ == token_hash@)) {
            return Err(taken());
        }
        let is_it = |a: &Account| -> (b: bool)
            ensures b == (a.id == user_id)
        { a.id == user_id };
        if !any(&self.users, is_it, Ghost(|a: Account| a.id == user_id)) {
            return Err(dangling());
        }
        let ghost all = self@.sessions.push(session);
        proof {
            assert forall|i: int, j: int|
                0 <= i < all.len() && 0 <= j < all.len() && (#[trigger] all[i]).token_hash@ == (
                #[trigger] all[j]).token_hash@ implies i == j by {
                if i < self@.sessions.len() && j < self@.sessions.len() {
                    assert(self@.sessions[i].token_hash@ == self@.sessions[j].token_hash@);
                } else if i < self@.sessions.len() {
                    assert(self@.sessions[i].token_hash@ == token_hash@);
                } else if j < self@.sessions.len() {
                    assert(self@.sessions[j].token_hash@ == token_hash@);
                }
            }
            assert forall|i: int| 0 <= i < all.len() implies has_user(
                self@.users,
                (#[trigger] all[i]).user_id,
            ) by {
                if i < self@.sessions.len() {
                    assert(has_user(self@.users, self@.sessions[i].user_id));
                }
            }
            lemma_sessions_filtered(all, self@.users, |s: Session| !is_expired(s, now));
        }
        self.sessions.push(session);
        let live = |s: &Session| -> (b: bool)
            ensures b == !is_expired(*s, now)
        { !s.expires_at.before(&now) };
        retain(&mut self.sessions, live, Ghost(|s: Session| !is_expired(s, now)));
        Ok(())
    }

    /// Opens a session, as of now.
    pub fn create_session(&mut self, token_hash: &str, user_id: Uuid, expires_at: Timestamp) -> (r: Result<
        (),
        DbError,
    >)
        requires
            old(self).wf(),
        ensures
            final(self).wf(),
            exists|t: String, now: Timestamp|
                t@ == token_hash@ && crate::clock::is_reading(now) && session_outcome(
                    old(self)@,
                    #[trigger] new_session(t, user_id, now, expires_at),
                    now,
                    final(self)@,
                    r,
                ),
    {
        let now = utc_now();
        self.create_session_at(token_hash, user_id, expires_at, now)
    }

    /// The reader of the session with a token, where that is not over.
    pub fn user_by_session_at(&self, token_hash: &str, now: Timestamp) -> (r: Result<User, DbError>)
        requires
            self.wf(),
        ensures
            r == match session_user(self@.sessions, token_hash@, now) {
                Some(id) => Ok::<User, DbError>(reader_of(account_of(self@.users, id))),
                None => Err::<User, DbError>(DbError::NotFound),
            },
    {
        let hit = |s: &Session| -> (b: bool)
            ensures b == (s.token_hash@ == token_hash@ && !is_expired(*s, now))
        { same(s.token_hash.as_str(), token_hash) && !s.expires_at.before(&now) };
        match position(
            &self.sessions,
            hit,
            Ghost(|s: Session| s.token_hash@ == token_hash@ && !is_expired(s, now)),
        ) {
            Some(i) => {
                proof {
                    assert(is_live(self@.sessions, token_hash@, now, i as int));
                    let k = choose|k: int| is_live(self@.sessions, token_hash@, now, k);
                    assert(self@.sessions[k].token_hash@ == self@.sessions[i as int].token_hash@);
                    assert(k == i);
                    assert(has_user(self@.users, self@.sessions[i as int].user_id));
                }
                self.user_by_id(self.sessions[i].user_id)
            },
            None => {
                assert forall|i: int| !is_live(self@.sessions, token_hash@, now, i) by {}
                Err(DbError::NotFound)
            },
        }
    }

    /// The reader of the session with a token, as of now.
    pub fn user_by_session(&self, token_hash: &str) -> (r: Result<User, DbError>)
        requires
            self.wf(),
        ensures
            exists|now: Timestamp|
                crate::clock::is_reading(now) && r == match #[trigger] session_user(self@.sessions, token_hash@, now) {
                    Some(id) => Ok::<User, DbError>(reader_of(account_of(self@.users, id))),
                    None => Err::<User, DbError>(DbError::NotFound),
                },
    {
        let now = utc_now();
        let r = self.user_by_session_at(token_hash, now);
        let ghost _who = session_user(self@.sessions, token_hash@, now);
        r
    }

    /// Closes the session with a token.
    pub fn delete_session(&mut self, token_hash: &str)
        requires
            old(self).wf(),
        ensures
            final(self).wf(),
            final(self)@ == (DbView {
                sessions: old(self)@.sessions.filter(|s: Session| s.token_hash@ != token_hash@),
                ..old(self)@
            }),
            !has_session(final(self)@.sessions, token_hash@),
            forall|s: Session|
                #[trigger] final(self)@.sessions.contains(s) <==> old(self)@.sessions.contains(s)
                    && s.token_hash@ != token_hash@,
    {
        let other = |s: &Session| -> (b: bool)
            ensures b == (s.token_hash@ != token_hash@)
        { !same(s.token_hash.as_str(), token_hash) };
        let ghost p = |s: Session| s.token_hash@ != token_hash@;
        proof {
            lemma_sessions_filtered(self@.sessions, self@.users, p);
            lemma_kept_places(self@.sessions, p);
            lemma_filter_contains(self@.sessions, p);
        }
        retain(&mut self.sessions, other, Ghost(p));
    }

    /// Drops the sessions that are over now; says how many there were.
    pub fn cleanup_expired_sessions(&mut self) -> (r: u64)
        requires
            old(self).wf(),
        ensures
            final(self).wf(),
            exists|now: Timestamp|
                crate::clock::is_reading(now) && final(self)@ == (DbView {
                    sessions: #[trigger] live_sessions(old(self)@.sessions, now),
                    ..old(self)@
                }),
            r == old(self)@.sessions.len() - final(self)@.sessions.len(),
    {
        let now = utc_now();
        self.cleanup_expired_sessions_at(now)
    }

    /// Drops the sessions that are over; says how many there were.
    pub fn cleanup_expired_sessions_at(&mut self, now: Timestamp) -> (r: u64)
        requires
            old(self).wf(),
        ensures
            final(self).wf(),
            final(self)@ == (DbView { sessions: live_sessions(old(self)@.sessions, now), ..old(self)@ }),
            r == old(self)@.sessions.len() - final(self)@.sessions.len(),
    {
        let had: usize = self.sessions.len();
        let live = |s: &Session| -> (b: bool)
            ensures b == !is_expired(*s, now)
        { !s.expires_at.before(&now) };
        let ghost p = |s: Session| !is_expired(s, now);
        proof {
            lemma_sessions_filtered(self@.sessions, self@.users, p);
            lemma_filter_len(self@.sessions, p);
        }
        retain(&mut self.sessions, live, Ghost(p));
        (had - self.sessions.len()) as u64
    }
}

/// A session as it is opened.
pub open spec fn new_session(
    token_hash: String,
    user_id: Uuid,
    created_at: Timestamp,
    expires_at: Timestamp,
) -> Session {
    Session { token_hash, user_id, created_at, expires_at }
}

}
