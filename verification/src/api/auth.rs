//! Sign-in and sign-out in the API.

use vstd::prelude::*;

use crate::api::error::{store_refusal, ApiError};
use crate::auth::{hash_of, token_hash, DEFAULT_SESSION_DAYS, SESSION_COOKIE};
use crate::clock::{days_from, shifted_days, Timestamp, LAST_SECOND};
use crate::config::AuthConfig;
use crate::db::sessions::{new_session, session_outcome};
use crate::db::users::{enroll_outcome, normalized};
use crate::db::{Db, DbError, DbView, Session};
use crate::domain::users::{AuthMode, MeResponse, User};
use crate::ids::Uuid;
use crate::links::{read_url, url_parsed};
use crate::numerals::{decimal, decimal_text};
use crate::oidc::{account_names, names_of, UserInfo};
use crate::text::{join2, join3, same, str_opt, trim_end_matches, without_suffixes};

verus! {

/// What the provider sends a browser back with.
#[derive(Debug, PartialEq, Eq)]
pub struct CallbackQuery {
    pub code: String,
    pub state: String,
}

/// Says who is asking, and whether readers are told apart.
pub fn me(config: &AuthConfig, user: Option<User>) -> (r: MeResponse)
    ensures
        r == (MeResponse {
            mode: if config.issuer is Some {
                AuthMode::Oidc
            } else {
                AuthMode::Single
            },
            user,
        }),
{
    let mode = if config.oidc_enabled() {
        AuthMode::Oidc
    } else {
        AuthMode::Single
    };
    MeResponse { mode, user }
}

/// The address that the provider sends browsers back to: under the server's public
/// address where it is configured, and otherwise under what the request says of itself.
pub open spec fn callback_text(
    public_url: Option<Seq<char>>,
    forwarded_proto: Option<Seq<char>>,
    forwarded_host: Option<Seq<char>>,
    host: Option<Seq<char>>,
    listen: Seq<char>,
) -> Seq<char> {
    let origin = match public_url {
        Some(url) => without_suffixes(url, "/"@),
        None => {
            let scheme = match forwarded_proto {
                Some(s) => s,
                None => "http"@,
            };
            let place = match (forwarded_host, host) {
                (Some(h), _) => h,
                (None, Some(h)) => h,
                (None, None) => listen,
            };
            scheme + "://"@ + place
        },
    };
    origin + "/api/v1/auth/callback"@
}

/// Gives the address that the provider sends browsers back to.
pub fn callback_uri(
    public_url: Option<&str>,
    forwarded_proto: Option<&str>,
    forwarded_host: Option<&str>,
    host: Option<&str>,
    listen: &str,
) -> (r: String)
    ensures
        r@ == callback_text(
            str_opt(public_url),
            str_opt(forwarded_proto),
            str_opt(forwarded_host),
            str_opt(host),
            listen@,
        ),
{
    let origin = match public_url {
        Some(url) => trim_end_matches(url, "/"),
        None => {
            let scheme = match forwarded_proto {
                Some(s) => s,
                None => "http",
            };
            let place = match forwarded_host {
                Some(h) => h,
                None => match host {
                    Some(h) => h,
                    None => listen,
                },
            };
            join3(scheme, "://", place)
        },
    };
    join2(origin.as_str(), "/api/v1/auth/callback")
}

/// The days that a session lasts.
pub open spec fn days_of(session_days: u32) -> int {
    if session_days == 0 {
        DEFAULT_SESSION_DAYS as int
    } else {
        session_days as int
    }
}

/// Gives the days that a session lasts.
pub fn lasting_days(session_days: u32) -> (r: i64)
    ensures
        r == days_of(session_days),
{
    if session_days == 0 {
        DEFAULT_SESSION_DAYS as i64
    } else {
        session_days as i64
    }
}

/// The server is reached over an encrypted connection, by its public address.
pub open spec fn is_secure(public_url: Option<Seq<char>>) -> bool {
    match public_url {
        Some(url) => url_parsed(url) matches Some(u) && u.scheme == "https"@,
        None => false,
    }
}

/// The session's cookie.
pub open spec fn cookie_text(token: Seq<char>, max_age_secs: nat, secure: bool) -> Seq<char> {
    SESSION_COOKIE@ + "="@ + token + "; Path=/; HttpOnly; SameSite=Lax; Max-Age="@ + decimal(
        max_age_secs,
    ) + (if secure {
        "; Secure"@
    } else {
        Seq::empty()
    })
}

/// Writes the session's cookie: for that server alone, out of reach of scripts, and over
/// encrypted connections only where the server has one.
pub fn session_cookie(public_url: Option<&str>, token: &str, max_age_secs: u64) -> (r: String)
    ensures
        r@ == cookie_text(token@, max_age_secs as nat, is_secure(str_opt(public_url))),
{
    let secure = match public_url {
        Some(url) => match read_url(url) {
            Some(u) => same(u.scheme.as_str(), "https"),
            None => false,
        },
        None => false,
    };
    write_cookie(token, max_age_secs, secure)
}

/// Writes the session's cookie.
pub fn write_cookie(token: &str, max_age_secs: u64, secure: bool) -> (r: String)
    ensures
        r@ == cookie_text(token@, max_age_secs as nat, secure),
{
    let named = join3(SESSION_COOKIE, "=", token);
    let age = decimal_text(max_age_secs);
    let cookie = join3(
        named.as_str(),
        "; Path=/; HttpOnly; SameSite=Lax; Max-Age=",
        age.as_str(),
    );
    if secure {
        join2(cookie.as_str(), "; Secure")
    } else {
        assert(cookie@ + Seq::<char>::empty() =~= cookie@);
        cookie
    }
}

/// What signing in does with what the provider told: the account is found or made, and a
/// session under the token's hash opened for it.
pub open spec fn sign_in_outcome(
    before: DbView,
    claims: UserInfo,
    token: Seq<char>,
    expires_at: Timestamp,
    id: Uuid,
    ids: Seq<Uuid>,
    now: Timestamp,
    after: DbView,
    r: Result<User, ApiError>,
) -> bool {
    exists|s: String, u: String, d: String, mid: DbView, enrolled: Result<User, DbError>|
        {
            &&& s@ == claims.sub@
            &&& u@ == normalized(names_of(claims).0)
            &&& d@ == names_of(claims).1
            &&& #[trigger] enroll_outcome(before, s, u, d, id, ids, now, mid, enrolled)
            &&& match enrolled {
                Err(e) => after == mid && (r matches Err(a) && store_refusal(e, a)),
                Ok(user) => session_opened(mid, token, user, expires_at, now, after, r),
            }
        }
}

/// What opening a session does.
pub open spec fn session_opened(
    before: DbView,
    token: Seq<char>,
    user: User,
    expires_at: Timestamp,
    now: Timestamp,
    after: DbView,
    r: Result<User, ApiError>,
) -> bool {
    exists|t: String, opened: Result<(), DbError>|
        {
            &&& t@ == hash_of(token)
            &&& #[trigger] session_outcome(
                before,
                new_session(t, user.id, now, expires_at),
                now,
                after,
                opened,
            )
            &&& match opened {
                Ok(_) => r == Ok::<User, ApiError>(user),
                Err(e) => r matches Err(a) && store_refusal(e, a),
            }
        }
}

/// Signs in whom the provider told of, with a token, identifiers and a time at hand. The
/// session lasts so many days.
pub fn sign_in_at(
    db: &mut Db,
    claims: &UserInfo,
    token: &str,
    days: i64,
    id: Uuid,
    ids: &Vec<Uuid>,
    now: Timestamp,
) -> (r: Result<User, ApiError>)
    requires
        old(db).wf(),
        old(db)@.next_seq + old(db)@.journal.len() <= i64::MAX,
        now.valid(),
        now.nanos < 1_000_000_000,
        0 <= days,
        now.secs + days * 86_400 <= LAST_SECOND,
    ensures
        final(db).wf(),
        sign_in_outcome(
            old(db)@,
            *claims,
            token@,
            days_from(now, days as int),
            id,
            ids@,
            now,
            final(db)@,
            r,
        ),
{
    let (username, shown) = account_names(claims);
    let enrolled = db.upsert_oidc_user_at(
        claims.sub.as_str(),
        username.as_str(),
        shown.as_str(),
        id,
        ids,
        now,
    );
    let ghost mid = db@;
    let ghost answer = enrolled;
    let ghost found = choose|s: String, u: String, d: String|
        s@ == claims.sub@ && u@ == normalized(username@) && d@ == shown@ && #[trigger] enroll_outcome(
            old(db)@,
            s,
            u,
            d,
            id,
            ids@,
            now,
            mid,
            answer,
        );
    let ghost expiry = days_from(now, days as int);
    assert(enroll_outcome(old(db)@, found.0, found.1, found.2, id, ids@, now, mid, answer));
    match enrolled {
        Err(e) => Err(ApiError::from_db(e)),
        Ok(user) => {
            let expires_at = shifted_days(now, days);
            let hash = token_hash(token);
            let opened = db.create_session_at(hash.as_str(), user.id, expires_at, now);
            let ghost ended = opened;
            let ghost t = choose|t: String|
                t@ == hash@ && session_outcome(
                    mid,
                    #[trigger] new_session(t, user.id, now, expires_at),
                    now,
                    db@,
                    ended,
                );
            assert(t@ == hash_of(token@));
            assert(session_outcome(mid, new_session(t, user.id, now, expiry), now, db@, ended));
            match opened {
                Ok(()) => {
                    let r = Ok(user);
                    assert(session_opened(mid, token@, user, expiry, now, db@, r));
                    r
                },
                Err(e) => {
                    let a = ApiError::from_db(e);
                    assert(store_refusal(e, a));
                    let r = Err(a);
                    assert(session_opened(mid, token@, user, expiry, now, db@, r));
                    r
                },
            }
        },
    }
}

/// Signs out: the session of a token, where a request has one, is over.
pub fn logout(db: &mut Db, token: Option<&str>)
    requires
        old(db).wf(),
    ensures
        final(db).wf(),
        final(db)@ == (match token {
            Some(t) => DbView {
                sessions: old(db)@.sessions.filter(|s: Session| s.token_hash@ != hash_of(t@)),
                ..old(db)@
            },
            None => old(db)@,
        }),
{
    match token {
        Some(t) => {
            let hash = token_hash(t);
            db.delete_session(hash.as_str());
            assert((|s: Session| s.token_hash@ != hash@) =~= (|s: Session|
                s.token_hash@ != hash_of(t@)));
        },
        None => {},
    }
}

}
