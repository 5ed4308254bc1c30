//! Who is asking: sessions, the routes that need none, and the decision at the door.

use vstd::prelude::*;

use crate::clock::Timestamp;
use crate::db::sessions::session_user;
use crate::db::users::{account_of, enroll_outcome, normalized, reader_of};
use crate::db::{has_user, Db, DbError, DbView};
use crate::digest::{hex_encode, hex_text, lemma_hex_text, sha256, sha256_of};
use crate::domain::users::User;
use crate::ids::{plain_uuid, random_form, random_uuid, simple_text, Uuid, SHARED_USER};
use crate::media_token::{clock_shows, reader_of_token, Key};
use crate::numerals::lemma_hex_digits;
use crate::proxy_identity::{identify_headers, identity};
use crate::text::{
    begins_with, chars_of, find_char, first_index, is_hex, join2, pieces, same, split_on, starts_with, texts, trim, trimmed,
};
use vstd::utf8::encode_utf8;

verus! {

/// The cookie that holds a browser's session token.
pub const SESSION_COOKIE: &'static str = "yomu_session";

/// How many days a session lasts where the configuration names no number.
pub const DEFAULT_SESSION_DAYS: u32 = 90;

/// The shape of a session token: sixty-four hexadecimal digits, those of two random UUIDs.
pub open spec fn is_token(s: Seq<char>) -> bool {
    exists|a: Uuid, b: Uuid|
        random_form(a) && random_form(b) && s == #[trigger] simple_text(a) + #[trigger] simple_text(b)
}

/// A new session token, out of two random UUIDs.
pub fn new_token() -> (r: String)
    ensures
        is_token(r@),
        r@.len() == 64,
        forall|i: int| 0 <= i < 64 ==> is_hex(#[trigger] r@[i]),
{
    let a = random_uuid();
    let b = random_uuid();
    proof {
        lemma_hex_digits(a as nat, 32);
        lemma_hex_digits(b as nat, 32);
        assert forall|i: int| 0 <= i < 64 implies is_hex(
            #[trigger] (simple_text(a) + simple_text(b))[i],
        ) by {
            if i < 32 {
                assert(is_hex(simple_text(a)[i]));
            } else {
                assert(is_hex(simple_text(b)[i - 32]));
            }
        }
    }
    join2(plain_uuid(a).as_str(), plain_uuid(b).as_str())
}

/// What is stored of a token: the hexadecimal SHA-256 of its bytes.
pub open spec fn hash_of(token: Seq<char>) -> Seq<char> {
    hex_text(sha256(encode_utf8(token)))
}

/// What is stored of a token; the token itself never is.
pub fn token_hash(token: &str) -> (r: String)
    ensures
        r@ == hash_of(token@),
        r@.len() == 64,
{
    let digest = sha256_of(token.as_bytes());
    proof {
        lemma_hex_text(digest@);
    }
    hex_encode(&digest)
}

// ---- what a request presents ----

/// The value of a `name=value` pair with the name.
pub open spec fn pair_value(pair: Seq<char>, name: Seq<char>) -> Option<Seq<char>> {
    match first_index(pair, '=') {
        Some(i) => if pair.take(i) == name {
            Some(pair.skip(i + 1))
        } else {
            None
        },
        None => None,
    }
}

/// The value of the first pair with the name.
pub open spec fn first_value(pairs: Seq<Seq<char>>, name: Seq<char>) -> Option<Seq<char>>
    decreases pairs.len(),
{
    if pairs.len() == 0 {
        None
    } else {
        match first_value(pairs.drop_last(), name) {
            Some(v) => Some(v),
            None => pair_value(pairs.last(), name),
        }
    }
}

/// The pieces of a cookie header, without the white space around them.
pub open spec fn cookie_pairs(cookie: Seq<char>) -> Seq<Seq<char>> {
    pieces(cookie, ';').map_values(|p: Seq<char>| trimmed(p))
}

/// The token of an `Authorization: Bearer` header.
pub open spec fn bearer_token(authorization: Seq<char>) -> Option<Seq<char>> {
    if begins_with(authorization, "Bearer "@) {
        Some(trimmed(authorization.skip(7)))
    } else {
        None
    }
}

/// The session token that a request presents: a bearer token, else the session cookie.
pub open spec fn presented_token(authorization: Option<Seq<char>>, cookie: Option<Seq<char>>) -> Option<
    Seq<char>,
> {
    let bearer = match authorization {
        Some(a) => bearer_token(a),
        None => None,
    };
    match bearer {
        Some(t) => Some(t),
        None => match cookie {
            Some(c) => first_value(cookie_pairs(c), SESSION_COOKIE@),
            None => None,
        },
    }
}

/// The value of a pair with a name.
fn value_of(pair: &str, name: &str) -> (r: Option<String>)
    ensures
        match r {
            Some(v) => pair_value(pair@, name@) == Some(v@),
            None => pair_value(pair@, name@) is None,
        },
{
    let chars = chars_of(pair);
    let n: usize = chars.len();
    match find_char(&chars, '=') {
        Some(i) => {
            let key = pair.substring_char(0, i);
            assert(pair@.subrange(0, i as int) =~= pair@.take(i as int));
            if same(key, name) {
                let value = pair.substring_char(i + 1, n);
                assert(pair@.subrange(i + 1, n as int) =~= pair@.skip(i + 1));
                Some(value.to_owned())
            } else {
                None
            }
        },
        None => None,
    }
}

/// The value of the first pair with a name.
fn find_value(pairs: &Vec<String>, name: &str) -> (r: Option<String>)
    ensures
        match r {
            Some(v) => first_value(texts(pairs@), name@) == Some(v@),
            None => first_value(texts(pairs@), name@) is None,
        },
{
    let ghost all = texts(pairs@);
    let mut found: Option<String> = None;
    let mut i: usize = 0;
    assert(all.take(0) =~= Seq::empty());
    while i < pairs.len()
        invariant
            i <= pairs@.len(),
            all == texts(pairs@),
            match found {
                Some(v) => first_value(all.take(i as int), name@) == Some(v@),
                None => first_value(all.take(i as int), name@) is None,
            },
        decreases pairs@.len() - i,
    {
        assert(all.take(i + 1).drop_last() =~= all.take(i as int));
        assert(all.take(i + 1).last() == pairs@[i as int]@);
        if found.is_none() {
            found = value_of(pairs[i].as_str(), name);
        }
        i += 1;
    }
    assert(all.take(all.len() as int) =~= all);
    found
}

/// The session token that a request presents, given what its authorization and cookie
/// headers say.
pub fn request_token(authorization: Option<&str>, cookie: Option<&str>) -> (r: Option<String>)
    ensures
        match r {
            Some(t) => presented_token(
                crate::text::str_opt(authorization),
                crate::text::str_opt(cookie),
            ) == Some(t@),
            None => presented_token(
                crate::text::str_opt(authorization),
                crate::text::str_opt(cookie),
            ) is None,
        },
{
    match authorization {
        Some(a) => {
            proof {
                reveal_strlit("Bearer ");
            }
            if starts_with(a, "Bearer ") {
                let n: usize = a.unicode_len();
                let rest = a.substring_char(7, n);
                assert(a@.subrange(7, n as int) =~= a@.skip(7));
                return Some(trim(rest));
            }
        },
        None => {},
    }
    match cookie {
        Some(c) => {
            let raw = split_on(c, ';');
            let mut pairs: Vec<String> = Vec::new();
            let mut i: usize = 0;
            let ghost want = cookie_pairs(c@);
            assert(texts(pairs@) =~= want.take(0));
            while i < raw.len()
                invariant
                    i <= raw@.len(),
                    texts(raw@) == pieces(c@, ';'),
                    want == cookie_pairs(c@),
                    texts(pairs@) == want.take(i as int),
                decreases raw@.len() - i,
            {
                let ghost had = texts(pairs@);
                let t = trim(raw[i].as_str());
                assert(texts(raw@)[i as int] == raw@[i as int]@);
                let ghost tv = t@;
                pairs.push(t);
                assert(texts(pairs@) =~= had.push(tv));
                assert(texts(pairs@) =~= want.take(i + 1));
                i += 1;
            }
            assert(want.take(want.len() as int) =~= want);
            find_value(&pairs, SESSION_COOKIE)
        },
        None => None,
    }
}

/// The media token in a query.
pub open spec fn query_token(query: Option<Seq<char>>) -> Option<Seq<char>> {
    match query {
        Some(q) => first_value(pieces(q, '&'), "mt"@),
        None => None,
    }
}

/// The media token in a query.
pub fn media_token_param(query: Option<&str>) -> (r: Option<String>)
    ensures
        match r {
            Some(t) => query_token(crate::text::str_opt(query)) == Some(t@),
            None => query_token(crate::text::str_opt(query)) is None,
        },
{
    match query {
        Some(q) => find_value(&split_on(q, '&'), "mt"),
        None => None,
    }
}

// ---- routes ----

/// The routes that need no session: exactly these.
pub open spec fn public_route(path: Seq<char>) -> bool {
    ||| path == "/health"@
    ||| path == "/auth/me"@
    ||| path == "/auth/login"@
    ||| path == "/auth/callback"@
    ||| path == "/auth/exchange"@
    ||| path == "/auth/logout"@
}

/// Whether a path is reachable with no session. Matches are exact: a route is open
/// because it is named here, and not because it begins like one that is.
pub fn is_public(path: &str) -> (r: bool)
    ensures
        r == public_route(path@),
{
    same(path, "/health") || same(path, "/auth/me") || same(path, "/auth/login") || same(
        path,
        "/auth/callback",
    ) || same(path, "/auth/exchange") || same(path, "/auth/logout")
}

/// The routes that an image element loads: `/publications/{id}/cover`, and
/// `/units/{id}/pages/{n}` with a page.
pub open spec fn media_route(path: Seq<char>) -> bool {
    let s = pieces(path, '/');
    ||| (s.len() == 4 && s[1] == "publications"@ && s[3] == "cover"@)
    ||| (s.len() == 5 && s[1] == "units"@ && s[3] == "pages"@ && s[4].len() > 0)
}

/// Whether a path may present a media token instead of a session.
pub fn takes_media_token(path: &str) -> (r: bool)
    ensures
        r == media_route(path@),
{
    let s = split_on(path, '/');
    let ghost v = texts(s@);
    if s.len() == 4 {
        assert(v[1] == s@[1]@ && v[3] == s@[3]@);
        same(s[1].as_str(), "publications") && same(s[3].as_str(), "cover")
    } else if s.len() == 5 {
        assert(v[1] == s@[1]@ && v[3] == s@[3]@ && v[4] == s@[4]@);
        same(s[1].as_str(), "units") && same(s[3].as_str(), "pages") && !s[4].as_str().is_empty()
    } else {
        false
    }
}

/// How often a character occurs.
pub open spec fn occurrences(s: Seq<char>, c: char) -> nat
    decreases s.len(),
{
    if s.len() == 0 {
        0
    } else {
        occurrences(s.drop_last(), c) + if s.last() == c {
            1nat
        } else {
            0nat
        }
    }
}

/// There is one piece more than separators.
pub proof fn lemma_piece_count(s: Seq<char>, sep: char)
    ensures
        pieces(s, sep).len() == occurrences(s, sep) + 1,
    decreases s.len(),
{
    if s.len() > 0 {
        lemma_piece_count(s.drop_last(), sep);
    }
}

/// No route is both open to all and fed by media tokens: without a token, an image
/// route is closed like any other.
pub proof fn law_media_routes_are_not_public(path: Seq<char>)
    requires
        media_route(path),
    ensures
        !public_route(path),
{
    reveal_strlit("/health");
    reveal_strlit("/auth/me");
    reveal_strlit("/auth/login");
    reveal_strlit("/auth/callback");
    reveal_strlit("/auth/exchange");
    reveal_strlit("/auth/logout");
    lemma_piece_count(path, '/');
    if path == "/health"@ {
        lemma_slashes(path, 1);
    } else if path == "/auth/me"@ || path == "/auth/login"@ || path == "/auth/callback"@ || path
        == "/auth/exchange"@ || path == "/auth/logout"@ {
        assert(path[5] == '/');
        lemma_slashes(path, 6);
    }
}

/// A path without slashes from position `n` on has at most as many as `n`.
proof fn lemma_slashes(path: Seq<char>, n: int)
    requires
        1 <= n <= path.len(),
        forall|i: int| n <= i < path.len() ==> path[i] != '/',
        forall|i: int| 1 <= i < n - 1 ==> path[i] != '/',
    ensures
        occurrences(path, '/') <= 2,
    decreases path.len(),
{
    let d = path.drop_last();
    if path.len() > n {
        assert(forall|i: int| 0 <= i < d.len() ==> d[i] == path[i]);
        lemma_slashes(d, n);
        assert(path[path.len() - 1] != '/');
    } else {
        assert forall|i: int| 1 <= i < d.len() implies d[i] != '/' by {
            assert(d[i] == path[i]);
        }
        lemma_at_most_first(d);
    }
}

/// A path with no slash behind its first character has at most one.
proof fn lemma_at_most_first(s: Seq<char>)
    requires
        forall|i: int| 1 <= i < s.len() ==> s[i] != '/',
    ensures
        occurrences(s, '/') <= 1,
    decreases s.len(),
{
    if s.len() > 1 {
        let d = s.drop_last();
        assert forall|i: int| 1 <= i < d.len() implies d[i] != '/' by {
            assert(d[i] == s[i]);
        }
        lemma_at_most_first(d);
        assert(s[s.len() - 1] != '/');
    } else if s.len() == 1 {
        assert(s.drop_last() =~= Seq::<char>::empty());
        assert(occurrences(Seq::<char>::empty(), '/') == 0);
    }
}

// ---- the door ----

/// What a request presents at the door.
#[derive(Debug, PartialEq, Eq)]
pub struct Credentials {
    pub authorization: Option<String>,
    pub cookie: Option<String>,
    pub proxy_secret: Option<String>,
    pub proxy_username: Option<String>,
    pub proxy_uid: Option<String>,
    pub proxy_name: Option<String>,
}

/// The session token that credentials hold.
pub open spec fn session_token(c: Credentials) -> Option<Seq<char>> {
    presented_token(crate::text::text_opt(c.authorization), crate::text::text_opt(c.cookie))
}

/// The reader of the session that credentials hold.
pub open spec fn session_reader(db: DbView, c: Credentials, now: Timestamp) -> Option<Uuid> {
    match session_token(c) {
        Some(t) => session_user(db.sessions, hash_of(t), now),
        None => None,
    }
}

/// What resolving a request's reader does. Where readers are not told apart, it is the
/// shared account; else the reader of the session; else whoever the proxy vouches for,
/// signed in on the spot; else nobody.
pub open spec fn resolve_outcome(
    before: DbView,
    oidc: bool,
    expected_secret: Option<Seq<char>>,
    c: Credentials,
    id: Uuid,
    ids: Seq<Uuid>,
    now: Timestamp,
    after: DbView,
    r: Option<User>,
) -> bool {
    if !oidc {
        &&& after == before
        &&& r == Some(reader_of(account_of(before.users, SHARED_USER)))
    } else if session_reader(before, c, now) is Some {
        &&& after == before
        &&& r == Some(reader_of(account_of(before.users, session_reader(before, c, now)->0)))
    } else {
        match identity(expected_secret, c.proxy_secret, c.proxy_username, c.proxy_uid, c.proxy_name) {
            None => after == before && r is None,
            Some(p) => exists|s: String, u: String, d: String, e: Result<User, DbError>|
                s@ == p.sub@ && u@ == normalized(p.username@) && d@ == p.display_name@
                    && #[trigger] enroll_outcome(before, s, u, d, id, ids, now, after, e) && r == (
                match e {
                    Ok(user) => Some(user),
                    Err(_) => None,
                }),
        }
    }
}

/// The reader behind a request, with identifiers and a time at hand for one whom the
/// proxy has just signed in.
pub fn resolve_at(
    db: &mut Db,
    oidc: bool,
    expected_secret: Option<&str>,
    c: Credentials,
    id: Uuid,
    ids: &Vec<Uuid>,
    now: Timestamp,
) -> (r: Option<User>)
    requires
        old(db).wf(),
        old(db)@.next_seq + old(db)@.journal.len() <= i64::MAX,
    ensures
        final(db).wf(),
        resolve_outcome(
            old(db)@,
            oidc,
            crate::text::str_opt(expected_secret),
            c,
            id,
            ids@,
            now,
            final(db)@,
            r,
        ),
{
    if !oidc {
        proof {
            let s = choose|i: int|
                0 <= i < db@.users.len() && (#[trigger] db@.users[i]).id == SHARED_USER
                    && db@.users[i].subject is None;
            assert(has_user(db@.users, SHARED_USER));
        }
        return match db.user_by_id(SHARED_USER) {
            Ok(user) => Some(user),
            Err(_) => None,
        };
    }
    let authorization = match &c.authorization {
        Some(a) => Some(a.as_str()),
        None => None,
    };
    let cookie = match &c.cookie {
        Some(x) => Some(x.as_str()),
        None => None,
    };
    match request_token(authorization, cookie) {
        Some(token) => {
            let hash = token_hash(token.as_str());
            match db.user_by_session_at(hash.as_str(), now) {
                Ok(user) => {
                    return Some(user);
                },
                Err(_) => {},
            }
        },
        None => {},
    }
    let ghost before = db@;
    let Credentials { authorization: _, cookie: _, proxy_secret, proxy_username, proxy_uid, proxy_name } =
        c;
    match identify_headers(expected_secret, proxy_secret, proxy_username, proxy_uid, proxy_name) {
        None => None,
        Some(p) => {
            let e = db.upsert_oidc_user_at(
                p.sub.as_str(),
                p.username.as_str(),
                p.display_name.as_str(),
                id,
                ids,
                now,
            );
            match e {
                Ok(user) => Some(user),
                Err(_) => None,
            }
        },
    }
}

/// What happens at the door.
#[derive(Debug, PartialEq, Eq)]
pub enum Admission {
    /// The request goes through, for a reader or for nobody in particular.
    Enter(Option<User>),
    /// The request is turned away.
    Refused,
}

/// The token with which a request may enter an image route.
pub open spec fn ticket(path: Seq<char>, query: Option<Seq<char>>) -> Option<Seq<char>> {
    if media_route(path) {
        query_token(query)
    } else {
        None
    }
}

/// The reader that a request's media token lets in.
pub open spec fn ticket_reader(db: DbView, key: Seq<u8>, path: Seq<char>, query: Option<Seq<char>>, now: u64) -> Option<
    Uuid,
> {
    match ticket(path, query) {
        Some(t) => match reader_of_token(key, t, now, 0) {
            Some(id) => if has_user(db.users, id) {
                Some(id)
            } else {
                None
            },
            None => None,
        },
        None => None,
    }
}

/// Whom the door lets through: a known reader anywhere; nobody in particular on an open
/// route; on an image route, the reader that a valid media token names. All else is
/// turned away.
pub open spec fn admitted(
    db: DbView,
    key: Seq<u8>,
    reader: Option<User>,
    path: Seq<char>,
    query: Option<Seq<char>>,
    now: u64,
) -> Admission {
    match reader {
        Some(u) => Admission::Enter(Some(u)),
        None => if public_route(path) {
            Admission::Enter(None)
        } else {
            match ticket_reader(db, key, path, query, now) {
                Some(id) => Admission::Enter(Some(reader_of(account_of(db.users, id)))),
                None => Admission::Refused,
            }
        },
    }
}

/// A request without a reader and without a media token gets nowhere but to the open
/// routes: whatever route is added is closed until it is named as open.
pub proof fn law_closed_unless_named(
    db: DbView,
    key: Seq<u8>,
    path: Seq<char>,
    query: Option<Seq<char>>,
    now: u64,
)
    requires
        !public_route(path),
        query_token(query) is None || !media_route(path),
    ensures
        admitted(db, key, None, path, query, now) == Admission::Refused,
{
}

/// Decides at the door, at a time in seconds since the Unix epoch.
pub fn require_auth_at(
    db: &Db,
    key: &Key,
    reader: Option<User>,
    path: &str,
    query: Option<&str>,
    now: u64,
) -> (r: Admission)
    requires
        db.wf(),
    ensures
        r == admitted(db@, key@, reader, path@, crate::text::str_opt(query), now),
{
    if reader.is_some() {
        return Admission::Enter(reader);
    }
    if is_public(path) {
        return Admission::Enter(None);
    }
    if !takes_media_token(path) {
        return Admission::Refused;
    }
    match media_token_param(query) {
        Some(token) => match key.verify_at(token.as_str(), now, 0) {
            Some(id) => match db.user_by_id(id) {
                Ok(user) => Admission::Enter(Some(user)),
                Err(_) => Admission::Refused,
            },
            None => Admission::Refused,
        },
        None => Admission::Refused,
    }
}

/// Decides at the door, as of now.
pub fn require_auth(db: &Db, key: &Key, reader: Option<User>, path: &str, query: Option<&str>) -> (r: Admission)
    requires
        db.wf(),
    ensures
        exists|now: u64|
            clock_shows(now) && r == #[trigger] admitted(db@, key@, reader, path@, crate::text::str_opt(query), now),
{
    let now = crate::media_token::unix_seconds();
    require_auth_at(db, key, reader, path, query, now)
}

}
