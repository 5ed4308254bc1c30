//! Who is let in, and as whom.

use vstd::prelude::*;

use crate::auth::{
    admitted, bearer_token, cookie_pairs, first_value, media_route, pair_value, presented_token, public_route, query_token,
    resolve_outcome, session_reader, Admission, Credentials, SESSION_COOKIE,
};
use crate::clock::Timestamp;
use crate::db::users::is_account;
use crate::db::{has_user, DbView};
use crate::domain::users::User;
use crate::ids::{Uuid, SHARED_USER};
use crate::media_token::{capped_sum, reader_of_token};
use crate::proxy_identity::{identity, secret_text};
use crate::text::{begins_with, first_index, lemma_first_index, lemma_first_index_is, pieces, trimmed};

verus! {

// ---- what a request presents ----

/// A pair gives its value under its name, and under no other.
pub proof fn law_pairs_give_their_value(name: Seq<char>, value: Seq<char>, other: Seq<char>)
    requires
        forall|i: int| 0 <= i < name.len() ==> #[trigger] name[i] != '=',
    ensures
        pair_value(name + seq!['='] + value, name) == Some(value),
        other != name ==> pair_value(name + seq!['='] + value, other) is None,
        pair_value(name, name) is None,
{
    let pair = name + seq!['='] + value;
    let at = name.len() as int;
    assert(pair[at] == '=');
    assert forall|j: int| 0 <= j < at implies pair[j] != '=' by {
        assert(pair[j] == name[j]);
    }
    lemma_first_index_is(pair, '=', at);
    assert(pair.take(at) =~= name);
    assert(pair.skip(at + 1) =~= value);
    lemma_first_index(name, '=');
    if first_index(name, '=') is Some {
        let i = first_index(name, '=')->0;
        assert(name[i] == '=');
    }
}

/// Of several pairs with a name the first one counts.
pub proof fn law_the_first_pair_counts(pairs: Seq<Seq<char>>, name: Seq<char>, k: int)
    requires
        0 <= k < pairs.len(),
        pair_value(pairs[k], name) is Some,
        forall|j: int| 0 <= j < k ==> pair_value(#[trigger] pairs[j], name) is None,
    ensures
        first_value(pairs, name) == pair_value(pairs[k], name),
    decreases pairs.len(),
{
    let d = pairs.drop_last();
    if k < d.len() {
        assert(d[k] == pairs[k]);
        assert forall|j: int| 0 <= j < k implies pair_value(#[trigger] d[j], name) is None by {
            assert(d[j] == pairs[j]);
        }
        law_the_first_pair_counts(d, name, k);
    } else {
        assert forall|j: int| 0 <= j < d.len() implies pair_value(#[trigger] d[j], name) is None by {
            assert(d[j] == pairs[j]);
        }
        law_pairs_without_the_name_give_nothing(d, name);
    }
}

/// Pairs of which none has the name give no value.
pub proof fn law_pairs_without_the_name_give_nothing(pairs: Seq<Seq<char>>, name: Seq<char>)
    requires
        forall|j: int| 0 <= j < pairs.len() ==> pair_value(#[trigger] pairs[j], name) is None,
    ensures
        first_value(pairs, name) is None,
    decreases pairs.len(),
{
    if pairs.len() > 0 {
        let d = pairs.drop_last();
        assert(pairs[pairs.len() - 1] == pairs.last());
        assert forall|j: int| 0 <= j < d.len() implies pair_value(#[trigger] d[j], name) is None by {
            assert(d[j] == pairs[j]);
        }
        law_pairs_without_the_name_give_nothing(d, name);
    }
}

/// A bearer token is the one that counts, whatever cookie comes with it; without one the
/// session's cookie counts, and without that there is none.
pub proof fn law_bearer_tokens_come_before_cookies(
    token: Seq<char>,
    authorization: Option<Seq<char>>,
    cookie: Option<Seq<char>>,
)
    ensures
        presented_token(
            Some(seq!['B', 'e', 'a', 'r', 'e', 'r', ' '] + token),
            cookie,
        ) == Some(trimmed(token)),
        authorization is None || bearer_token(authorization->0) is None ==> presented_token(
            authorization,
            cookie,
        ) == (match cookie {
            Some(c) => first_value(cookie_pairs(c), SESSION_COOKIE@),
            None => None,
        }),
        presented_token(None, None) is None,
{
    reveal_strlit("Bearer ");
    let header = seq!['B', 'e', 'a', 'r', 'e', 'r', ' '] + token;
    assert("Bearer "@ =~= seq!['B', 'e', 'a', 'r', 'e', 'r', ' ']);
    assert(header.take(7) =~= "Bearer "@);
    assert(header.skip(7) =~= token);
}

// ---- routes ----

/// What stands behind the last separator is the last piece.
pub(crate) proof fn lemma_pieces_append(s: Seq<char>, sep: char, rest: Seq<char>)
    requires
        forall|i: int| 0 <= i < rest.len() ==> #[trigger] rest[i] != sep,
    ensures
        pieces(s + seq![sep] + rest, sep) == pieces(s, sep).push(rest),
    decreases rest.len(),
{
    let t = s + seq![sep] + rest;
    if rest.len() == 0 {
        assert(t.drop_last() =~= s);
        assert(t.last() == sep);
        assert(rest =~= Seq::empty());
        assert(pieces(t, sep) =~= pieces(s, sep).push(rest));
    } else {
        let d = rest.drop_last();
        assert forall|i: int| 0 <= i < d.len() implies #[trigger] d[i] != sep by {
            assert(d[i] == rest[i]);
        }
        lemma_pieces_append(s, sep, d);
        assert(t.drop_last() =~= s + seq![sep] + d);
        assert(t.last() == rest.last());
        assert(rest[rest.len() - 1] == rest.last());
        assert(d.push(rest.last()) =~= rest);
        assert(t.last() != sep);
        let done = pieces(t.drop_last(), sep);
        assert(done == pieces(s, sep).push(d));
        assert(pieces(t, sep) == done.update(done.len() - 1, done.last().push(t.last())));
        assert(pieces(t, sep) =~= pieces(s, sep).push(rest));
    }
}

/// A text without the separator is one piece.
pub(crate) proof fn lemma_one_piece(s: Seq<char>, sep: char)
    requires
        forall|i: int| 0 <= i < s.len() ==> #[trigger] s[i] != sep,
    ensures
        pieces(s, sep) == seq![s],
    decreases s.len(),
{
    if s.len() > 0 {
        let d = s.drop_last();
        assert forall|i: int| 0 <= i < d.len() implies #[trigger] d[i] != sep by {
            assert(d[i] == s[i]);
        }
        lemma_one_piece(d, sep);
        assert(s[s.len() - 1] == s.last());
        assert(d.push(s.last()) =~= s);
        assert(s.last() != sep);
        let done = pieces(d, sep);
        assert(done.len() == 1 && done.last() == d);
        assert(pieces(s, sep) == done.update(done.len() - 1, done.last().push(s.last())));
        assert(pieces(s, sep) =~= seq![s]);
    } else {
        assert(s =~= Seq::empty());
        assert(pieces(s, sep) =~= seq![s]);
    }
}

/// The route of a publication's cover takes a media token, and so does that of a unit's page;
/// what lies above and below them does not.
pub proof fn law_covers_and_pages_take_tokens(id: Seq<char>, n: Seq<char>)
    requires
        forall|i: int| 0 <= i < id.len() ==> #[trigger] id[i] != '/',
        forall|i: int| 0 <= i < n.len() ==> #[trigger] n[i] != '/',
    ensures
        media_route(seq!['/'] + "publications"@ + seq!['/'] + id + seq!['/'] + "cover"@),
        n.len() > 0 ==> media_route(
            seq!['/'] + "units"@ + seq!['/'] + id + seq!['/'] + "pages"@ + seq!['/'] + n,
        ),
        !media_route(seq!['/'] + "publications"@ + seq!['/'] + id),
        !media_route(seq!['/'] + "units"@ + seq!['/'] + id + seq!['/'] + "pages"@),
{
    reveal_strlit("publications");
    reveal_strlit("cover");
    reveal_strlit("units");
    reveal_strlit("pages");
    let none = Seq::<char>::empty();
    lemma_one_piece(none, '/');
    let p = none + seq!['/'] + "publications"@;
    lemma_pieces_append(none, '/', "publications"@);
    let pi = p + seq!['/'] + id;
    lemma_pieces_append(p, '/', id);
    lemma_pieces_append(pi, '/', "cover"@);
    assert(seq!['/'] + "publications"@ + seq!['/'] + id + seq!['/'] + "cover"@ =~= pi + seq!['/']
        + "cover"@);
    assert(seq!['/'] + "publications"@ + seq!['/'] + id =~= pi);
    let u = none + seq!['/'] + "units"@;
    lemma_pieces_append(none, '/', "units"@);
    let ui = u + seq!['/'] + id;
    lemma_pieces_append(u, '/', id);
    let up = ui + seq!['/'] + "pages"@;
    lemma_pieces_append(ui, '/', "pages"@);
    lemma_pieces_append(up, '/', n);
    assert(seq!['/'] + "units"@ + seq!['/'] + id + seq!['/'] + "pages"@ + seq!['/'] + n =~= up + seq!['/']
        + n);
    assert(seq!['/'] + "units"@ + seq!['/'] + id + seq!['/'] + "pages"@ =~= up);
    let s = pieces(up, '/');
    assert(s.len() == 4 && s[1] == "units"@);
    assert("units"@.len() != "publications"@.len());
}

// ---- the door ----

/// A known reader enters anywhere, as that reader. Nobody in particular enters where a route is
/// open, as nobody. Elsewhere only a media token opens an image route, and only for the reader
/// that it speaks for, who has to have an account.
pub proof fn law_the_door_lets_in_whom_it_knows(
    db: DbView,
    key: Seq<u8>,
    user: User,
    path: Seq<char>,
    query: Option<Seq<char>>,
    now: u64,
    k: int,
)
    requires
        db.wf(),
        0 <= k < db.users.len(),
    ensures
        admitted(db, key, Some(user), path, query, now) == Admission::Enter(Some(user)),
        public_route(path) ==> admitted(db, key, None, path, query, now) == Admission::Enter(None),
        !public_route(path) && media_route(path) && query_token(query) is Some && reader_of_token(
            key,
            query_token(query)->0,
            now,
            0,
        ) == Some(db.users[k].id) ==> admitted(db, key, None, path, query, now) == Admission::Enter(
            Some(
                User {
                    id: db.users[k].id,
                    username: db.users[k].username,
                    display_name: db.users[k].display_name,
                },
            ),
        ),
        !public_route(path) && (!media_route(path) || query_token(query) is None || reader_of_token(
            key,
            query_token(query)->0,
            now,
            0,
        ) is None || (forall|i: int|
            0 <= i < db.users.len() ==> Some((#[trigger] db.users[i]).id) != reader_of_token(
                key,
                query_token(query)->0,
                now,
                0,
            ))) ==> admitted(db, key, None, path, query, now) == Admission::Refused,
{
    if !public_route(path) && media_route(path) && query_token(query) is Some && reader_of_token(
        key,
        query_token(query)->0,
        now,
        0,
    ) == Some(db.users[k].id) {
        assert(has_user(db.users, db.users[k].id));
        assert(is_account(db.users, db.users[k].id, k));
        let i = choose|i: int| is_account(db.users, db.users[k].id, i);
        assert(db.users[i].id == db.users[k].id);
        assert(i == k);
    }
}

/// Where readers are not told apart everyone is the shared account. Else the reader of a
/// session is who is asking, before anything that a proxy says; and without a session and
/// without an identity that the proxy vouches for, nobody is. In all of these the tables stay.
pub proof fn law_sessions_come_before_the_proxy(
    before: DbView,
    oidc: bool,
    expected_secret: Option<Seq<char>>,
    c: Credentials,
    id: Uuid,
    ids: Seq<Uuid>,
    now: Timestamp,
    after: DbView,
    r: Option<User>,
    k: int,
)
    requires
        before.wf(),
        resolve_outcome(before, oidc, expected_secret, c, id, ids, now, after, r),
        0 <= k < before.users.len(),
    ensures
        !oidc ==> after == before && r is Some && (before.users[k].id == SHARED_USER ==> r->0.id
            == SHARED_USER && r->0.username == before.users[k].username),
        oidc && session_reader(before, c, now) == Some(before.users[k].id) ==> after == before && r == Some(
            User {
                id: before.users[k].id,
                username: before.users[k].username,
                display_name: before.users[k].display_name,
            },
        ),
        oidc && session_reader(before, c, now) is None && identity(
            expected_secret,
            c.proxy_secret,
            c.proxy_username,
            c.proxy_uid,
            c.proxy_name,
        ) is None ==> after == before && r is None,
{
    let uid = before.users[k].id;
    assert(is_account(before.users, uid, k));
    let i = choose|i: int| is_account(before.users, uid, i);
    assert(before.users[i].id == before.users[k].id);
    assert(i == k);
}

/// A proxy vouches for the reader whom it names, where it presents the expected secret: under
/// the identifier that it gives, or else the name; and shown under the name to show, or else the
/// name.
pub proof fn law_the_proxy_vouches_for_whom_it_names(
    secret: Seq<char>,
    presented: String,
    username: String,
    uid: Option<String>,
    name: Option<String>,
)
    requires
        presented@ == secret,
        username@.len() > 0,
    ensures
        ({
            let p = identity(Some(secret), Some(presented), Some(username), uid, name);
            &&& p is Some
            &&& p->0.username == username
            &&& uid is Some && uid->0@.len() > 0 ==> p->0.sub == uid->0
            &&& uid is None || uid->0@.len() == 0 ==> p->0.sub == username
            &&& name is Some && name->0@.len() > 0 ==> p->0.display_name == name->0
            &&& name is None || name->0@.len() == 0 ==> p->0.display_name == username
        }),
{
}

/// A request that names no reader is nobody's, even with the secret.
pub proof fn law_the_proxy_has_to_name_a_reader(
    secret: Seq<char>,
    presented: Option<String>,
    username: Option<String>,
    uid: Option<String>,
    name: Option<String>,
)
    requires
        username is None || username->0@.len() == 0,
    ensures
        identity(Some(secret), presented, username, uid, name) is None,
{
}

/// The inline secret counts before the one in the file; white space around either does not
/// count, and one that is nothing else is none.
pub proof fn law_the_inline_secret_comes_first(inline: Seq<char>, file: Seq<char>)
    ensures
        trimmed(inline).len() > 0 ==> secret_text(inline, Some(file)) == Some(trimmed(inline))
            && secret_text(inline, None) == Some(trimmed(inline)),
        trimmed(inline).len() == 0 && trimmed(file).len() > 0 ==> secret_text(inline, Some(file)) == Some(
            trimmed(file),
        ),
        trimmed(inline).len() == 0 && trimmed(file).len() == 0 ==> secret_text(inline, Some(file)) is None,
        trimmed(inline).len() == 0 ==> secret_text(inline, None) is None,
{
}

/// A token is valid for as long as it was asked for, as far as time can be counted.
pub proof fn law_tokens_end_when_they_were_meant_to(now: u64, ttl_secs: u64)
    ensures
        now + ttl_secs <= u64::MAX ==> capped_sum(now, ttl_secs) == now + ttl_secs,
        now + ttl_secs > u64::MAX ==> capped_sum(now, ttl_secs) == u64::MAX,
{
}

/// Nothing is open but what says how the server fares and what serves to sign in or out.
pub proof fn law_only_signing_in_is_open(path: Seq<char>)
    requires
        public_route(path),
    ensures
        path == "/health"@ || begins_with(path, "/auth/"@),
{
    reveal_strlit("/auth/");
    reveal_strlit("/auth/me");
    reveal_strlit("/auth/login");
    reveal_strlit("/auth/callback");
    reveal_strlit("/auth/exchange");
    reveal_strlit("/auth/logout");
    if path != "/health"@ {
        assert(path.take(6) =~= "/auth/"@);
    }
}

}
