//! What the answers of the library say.

use vstd::prelude::*;

use crate::api::auth::{callback_text, cookie_text, days_of, is_secure, session_opened, sign_in_outcome};
use crate::api::chapters::stored_files;
use crate::api::downloads::{progress_of, queue_entry_is};
use crate::api::error::{store_refusal, ApiError};
use crate::api::fingerprints::{fingerprint_is, readable, PageEnds, UnitFingerprint};
use crate::api::library::{add_outcome, for_reader, listed_is, switched, Added};
use crate::auth::hash_of;
use crate::clock::{days_from, Timestamp};
use crate::db::downloads::{moved, queueable};
use crate::db::listing::units_of;
use crate::db::plain::{has_read, sooner, unit_there};
use crate::db::progress::position_in;
use crate::db::publications::{insert_outcome, unit_title};
use crate::db::reader_laws::law_signing_in_finds_the_account;
use crate::db::rollup_laws::{law_downloads_are_counted, law_nothing_to_sum, law_the_latest_unit_is_the_latest, law_unread_units_are_counted};
use crate::db::sessions::{new_session, session_outcome, session_user};
use crate::db::shelf_laws::law_units_are_listed_in_reading_order;
use crate::db::units::{fresh_units, lemma_fresh_units, marked};
use crate::db::users::{enroll_outcome, normalized};
use crate::db::{has_publication, has_unit, DbError, DbView, Session};
use crate::digest::{base64_url, hex_text, sha256};
use crate::domain::api::{DownloadProgress, DownloadQueueEntry, PublicationWithLocator};
use crate::domain::publication::{DownloadState, Origin, Publication, PublicationView, ReadingUnit};
use crate::domain::source::MangaDetails;
use crate::domain::users::User;
use crate::downloader::ActiveDownload;
use crate::ids::Uuid;
use crate::links::url_parsed;
use crate::numerals::decimal;
use crate::oidc::{authorization_pairs, names_of, UserInfo};
use crate::order::{is_ranking, lemma_lexical_total, lemma_lexical_transitive, lemma_sorted, lexical};
use crate::sync::ids_of;
use crate::text::without_suffixes;
use vstd::utf8::encode_utf8;

verus! {

// ---- the library's list ----

/// A publication in the list shows as many downloads as it has units exactly where all of
/// them are downloaded, and none where none is; as many unread units as it has units where the
/// reader has read none, and none where the reader has read all; and when the newest of them
/// was first seen.
pub proof fn law_the_list_tells_what_is_there(
    x: PublicationWithLocator,
    db: DbView,
    reader: Uuid,
    p: PublicationView,
)
    requires
        db.units.len() < 0x1_0000_0000,
        listed_is(x, db, Some(reader), p),
    ensures
        x.publication@ == p,
        x.downloaded_count == x.unit_count <==> forall|i: int|
            0 <= i < db.units.len() && (#[trigger] db.units[i]).publication_id == p.id
                ==> db.units[i].download is Downloaded,
        x.downloaded_count == 0 <==> forall|i: int|
            0 <= i < db.units.len() && (#[trigger] db.units[i]).publication_id == p.id ==> !(
            db.units[i].download is Downloaded),
        x.unread_count == 0 <==> forall|i: int|
            0 <= i < db.units.len() && (#[trigger] db.units[i]).publication_id == p.id ==> has_read(
                db.marks,
                reader,
                db.units[i].id,
            ),
        x.unread_count == x.unit_count <==> forall|i: int|
            0 <= i < db.units.len() && (#[trigger] db.units[i]).publication_id == p.id ==> !has_read(
                db.marks,
                reader,
                db.units[i].id,
            ),
        x.latest_unit_at is None <==> forall|i: int|
            0 <= i < db.units.len() ==> (#[trigger] db.units[i]).publication_id != p.id,
        forall|i: int|
            0 <= i < db.units.len() && (#[trigger] db.units[i]).publication_id == p.id
                ==> x.latest_unit_at is Some && !sooner(x.latest_unit_at->0, db.units[i].fetched_at),
{
    law_downloads_are_counted(db, Some(reader), p.id);
    law_unread_units_are_counted(db, reader, p.id);
    assert forall|i: int|
        0 <= i < db.units.len() && (#[trigger] db.units[i]).publication_id == p.id implies x.latest_unit_at is Some
        && !sooner(x.latest_unit_at->0, db.units[i].fetched_at) by {
        law_the_latest_unit_is_the_latest(db, Some(reader), p.id, i);
    }
    if forall|i: int| 0 <= i < db.units.len() ==> (#[trigger] db.units[i]).publication_id != p.id {
        law_nothing_to_sum(db, Some(reader), p.id);
    }
}

/// Nobody in particular has no place in any publication, and has read nothing of it.
pub proof fn law_nobody_has_read_anything(x: PublicationWithLocator, db: DbView, p: PublicationView)
    requires
        db.units.len() < 0x1_0000_0000,
        listed_is(x, db, None, p),
    ensures
        x.locator is None,
        x.locator_unit_title is None,
        x.unread_count == x.unit_count,
{
    law_unread_units_are_counted(db, 0, p.id);
}

/// A reader's place in the list is the reader's place in that publication, under the title of
/// the unit that it is in.
pub proof fn law_the_list_tells_the_place(
    x: PublicationWithLocator,
    db: DbView,
    reader: Uuid,
    p: PublicationView,
    k: int,
)
    requires
        db.wf(),
        listed_is(x, db, Some(reader), p),
        0 <= k < db.units.len(),
    ensures
        x.locator == position_in(db.journal, reader, p.id),
        x.locator matches Some(l) && l.unit_id == db.units[k].id ==> x.locator_unit_title == Some(
            db.units[k].title,
        ),
        x.locator matches Some(l) && !unit_there(db.units, l.unit_id) ==> x.locator_unit_title is None,
{
    if let Some(l) = x.locator {
        if l.unit_id == db.units[k].id {
            assert(has_unit(db.units, l.unit_id));
            let i = choose|i: int| 0 <= i < db.units.len() && (#[trigger] db.units[i]).id == l.unit_id;
            assert(i == k);
        }
    }
}

/// A unit is shown to a reader as it is, and as read exactly where the reader has read it.
pub proof fn law_units_are_shown_as_read(db: DbView, reader: Uuid, u: ReadingUnit)
    ensures
        ({
            let v = for_reader(db, Some(reader), u);
            &&& v.read <==> has_read(db.marks, reader, u.id)
            &&& v == ReadingUnit { read: v.read, ..u }
        }),
        for_reader(db, None, u) == u,
{
    assert(marked(db.marks, reader, u.id) <==> has_read(db.marks, reader, u.id));
}

// ---- adding a title ----

/// A title that was added with its downloads wanted has all its units in the queue, and the
/// worker is woken; one that was not has none of them downloaded or queued. Other units stay
/// as they are.
pub proof fn law_added_titles_are_queued_where_wanted(
    before: DbView,
    origin: Origin,
    details: MangaDetails,
    auto_download: bool,
    id: Uuid,
    ids: Seq<Uuid>,
    now: Timestamp,
    after: DbView,
    x: Added,
    n: int,
)
    requires
        before.wf(),
        add_outcome(before, origin, details, auto_download, id, ids, now, after, Ok(x)),
        0 <= n < after.units.len(),
    ensures
        x.wake == auto_download,
        x.publication.id == id,
        after.units[n].publication_id == id ==> if auto_download {
            after.units[n].download is Pending
        } else {
            after.units[n].download is Absent
        },
        n < before.units.len() ==> after.units[n] == before.units[n],
        n >= before.units.len() ==> after.units[n].publication_id == id,
{
    let (mid, inserted) = choose|mid: DbView, inserted: Result<Publication, DbError>|
        {
            &&& #[trigger] insert_outcome(
                before,
                origin,
                details,
                auto_download,
                id,
                ids,
                now,
                "publication already in library"@,
                mid,
                inserted,
            )
            &&& match inserted {
                Err(_) => false,
                Ok(p) => {
                    &&& x.publication == p && x.wake == auto_download
                    &&& after == (if auto_download {
                        DbView {
                            units: crate::db::downloads::all_moved(
                                mid.units,
                                ids_of(units_of(mid.units, p.id)),
                                |d: DownloadState| queueable(d, true),
                                DownloadState::Pending,
                            ),
                            ..mid
                        }
                    } else {
                        mid
                    })
                },
            }
        };
    let fresh = fresh_units(before.units, id, details.chapters@, ids, now);
    lemma_fresh_units(before.units, id, details.chapters@, ids, now);
    assert(mid.units == before.units + fresh);
    let u = mid.units[n];
    if n < before.units.len() {
        assert(u == before.units[n]);
        assert(has_publication(before.publications, u.publication_id));
    } else {
        assert(u == fresh[n - before.units.len()]);
    }
    let own = units_of(mid.units, id);
    law_units_are_listed_in_reading_order(mid.units, id);
    if auto_download {
        let queue = ids_of(own);
        let p = |d: DownloadState| queueable(d, true);
        assert(after.units[n] == moved(u, queue, p, DownloadState::Pending));
        if u.publication_id == id {
            assert(mid.units.contains(u));
            assert(own.contains(u));
            let k = choose|k: int| 0 <= k < own.len() && own[k] == u;
            assert(queue[k] == u.id);
        } else if queue.contains(u.id) {
            let k = choose|k: int| 0 <= k < queue.len() && queue[k] == u.id;
            assert(own.contains(own[k]));
            assert(mid.units.contains(own[k]));
            let m = choose|m: int| 0 <= m < mid.units.len() && mid.units[m] == own[k];
            if m < before.units.len() {
                assert(mid.units[m] == before.units[m]);
                assert(has_publication(before.publications, before.units[m].publication_id));
            } else {
                let f = fresh[m - before.units.len()];
                assert(mid.units[m] == f);
                let j = choose|j: int| 0 <= j < details.chapters@.len() && f.id == #[trigger] ids[j];
                assert(!has_unit(before.units, ids[j]));
                assert(before.units[n].id == ids[j]);
            }
        }
    }
}

/// The identifiers of a publication's units, whose pages go with it, are those of all its
/// units and of no others.
pub proof fn law_all_units_go_with_their_publication(units: Seq<ReadingUnit>, publication_id: Uuid, id: Uuid)
    ensures
        ids_of(units_of(units, publication_id)).contains(id) <==> exists|k: int|
            0 <= k < units.len() && (#[trigger] units[k]).id == id && units[k].publication_id
                == publication_id,
{
    let own = units_of(units, publication_id);
    law_units_are_listed_in_reading_order(units, publication_id);
    if ids_of(own).contains(id) {
        let n = choose|n: int| 0 <= n < own.len() && ids_of(own)[n] == id;
        assert(own.contains(own[n]));
        assert(units.contains(own[n]));
        let k = choose|k: int| 0 <= k < units.len() && units[k] == own[n];
        assert(units[k].id == id);
    }
    if exists|k: int|
        0 <= k < units.len() && (#[trigger] units[k]).id == id && units[k].publication_id == publication_id {
        let k = choose|k: int|
            0 <= k < units.len() && (#[trigger] units[k]).id == id && units[k].publication_id
                == publication_id;
        assert(units.contains(units[k]));
        assert(own.contains(units[k]));
        let n = choose|n: int| 0 <= n < own.len() && own[n] == units[k];
        assert(ids_of(own)[n] == id);
    }
}

// ---- the queue ----

/// The queue shows how far a unit has come exactly where it is the one being fetched.
pub proof fn law_progress_is_that_of_the_unit_being_fetched(active: Option<ActiveDownload>, unit_id: Uuid)
    ensures
        progress_of(active, unit_id) is Some <==> active is Some && active->0.unit_id == unit_id,
        active is Some && active->0.unit_id == unit_id ==> progress_of(active, unit_id) == Some(
            DownloadProgress { page: active->0.page, total: active->0.total },
        ),
{
}

/// An entry of the queue names its unit, and its publication by its title.
pub proof fn law_queue_entries_name_their_unit(
    x: DownloadQueueEntry,
    db: DbView,
    active: Option<ActiveDownload>,
    u: ReadingUnit,
    k: int,
)
    requires
        db.wf(),
        queue_entry_is(x, db, active, u),
        0 <= k < db.publications.len(),
        db.publications[k].id == u.publication_id,
    ensures
        x.unit_id == u.id,
        x.unit_title == u.title,
        x.publication_id == u.publication_id,
        x.publication_title == db.publications[k].title,
        x.state == u.download,
{
    let s = db.publications;
    let i = choose|i: int| 0 <= i < s.len() && (#[trigger] s[i]).id == u.publication_id;
    assert(i == k);
}

// ---- pages ----

/// A unit is read from disk exactly where it is downloaded and its directory holds files; it
/// is then read from all of them, in dictionary order.
pub proof fn law_downloaded_units_are_read_from_disk(
    unit: ReadingUnit,
    files: Option<Seq<String>>,
    name: String,
    i: int,
    j: int,
)
    ensures
        stored_files(unit, files) is Some <==> unit.download is Downloaded && files is Some && files->0.len()
            > 0,
        stored_files(unit, files) matches Some(names) ==> {
            &&& names.contains(name) <==> files->0.contains(name)
            &&& 0 <= i < j < names.len() ==> lexical(names[i]@, names[j]@)
        },
{
    if let Some(f) = files {
        let le = |a: String, b: String| lexical(a@, b@);
        assert(is_ranking(le)) by {
            assert forall|a: String, b: String| #[trigger] le(a, b) || le(b, a) by {
                lemma_lexical_total(a@, b@);
            }
            assert forall|a: String, b: String, c: String| #[trigger] le(a, b) && #[trigger] le(b, c) implies le(
                a,
                c,
            ) by {
                lemma_lexical_transitive(a@, b@, c@);
            }
        }
        lemma_sorted(f, le);
        if let Some(names) = stored_files(unit, files) {
            if 0 <= i < j < names.len() {
                assert(le(names[i], names[j]));
            }
        }
    }
}

/// What was read of directories is told of each that could be read, in their order.
pub proof fn law_readable_directories_are_told(ends: Seq<Option<PageEnds>>, e: PageEnds)
    ensures
        readable(ends).contains(e) <==> ends.contains(Some(e)),
    decreases ends.len(),
{
    if ends.len() > 0 {
        let d = ends.drop_last();
        law_readable_directories_are_told(d, e);
        let before = readable(d);
        let all = readable(ends);
        assert(ends[ends.len() - 1] == ends.last());
        if all.contains(e) {
            let n = choose|n: int| 0 <= n < all.len() && all[n] == e;
            if n < before.len() {
                assert(before[n] == e);
                let k = choose|k: int| 0 <= k < d.len() && d[k] == Some(e);
                assert(ends[k] == Some(e));
            }
        }
        if ends.contains(Some(e)) {
            let k = choose|k: int| 0 <= k < ends.len() && ends[k] == Some(e);
            if k < d.len() {
                assert(d[k] == Some(e));
                let n = choose|n: int| 0 <= n < before.len() && before[n] == e;
                assert(all[n] == e);
            } else {
                assert(all[before.len() as int] == e);
            }
        }
    }
}

// ---- signing in ----

/// Whoever signed in is let in by the token's hash until the session ends, under the name that
/// the provider told.
pub proof fn law_signing_in_opens_a_session(
    before: DbView,
    claims: UserInfo,
    token: Seq<char>,
    expires_at: Timestamp,
    id: Uuid,
    ids: Seq<Uuid>,
    now: Timestamp,
    after: DbView,
    user: User,
    later: Timestamp,
)
    requires
        before.wf(),
        before.next_seq + before.journal.len() <= i64::MAX,
        sign_in_outcome(before, claims, token, expires_at, id, ids, now, after, Ok(user)),
        !sooner(expires_at, now),
    ensures
        session_user(after.sessions, hash_of(token), later) == (if sooner(expires_at, later) {
            None::<Uuid>
        } else {
            Some(user.id)
        }),
        user.display_name@ == names_of(claims).1,
{
    let (s, u, d, mid, enrolled) = choose|
        s: String,
        u: String,
        d: String,
        mid: DbView,
        enrolled: Result<User, DbError>,
    |
        {
            &&& s@ == claims.sub@
            &&& u@ == normalized(names_of(claims).0)
            &&& d@ == names_of(claims).1
            &&& #[trigger] enroll_outcome(before, s, u, d, id, ids, now, mid, enrolled)
            &&& match enrolled {
                Err(e) => after == mid && (Ok::<User, ApiError>(user) matches Err(a) && store_refusal(e, a)),
                Ok(x) => session_opened(mid, token, x, expires_at, now, after, Ok(user)),
            }
        };
    let x = enrolled->Ok_0;
    law_signing_in_finds_the_account(before, s, u, d, id, ids, now, mid, x, 0);
    let (t, opened) = choose|t: String, opened: Result<(), DbError>|
        {
            &&& t@ == hash_of(token)
            &&& #[trigger] session_outcome(mid, new_session(t, x.id, now, expires_at), now, after, opened)
            &&& match opened {
                Ok(_) => Ok::<User, ApiError>(user) == Ok::<User, ApiError>(x),
                Err(e) => Ok::<User, ApiError>(user) matches Err(a) && store_refusal(e, a),
            }
        };
    assert(mid.sessions == before.sessions);
    let fresh = new_session(t, x.id, now, expires_at);
    lemma_session_stands(mid, fresh, now, after, later);
}

/// A session that was opened is the one that its token finds.
proof fn lemma_session_stands(before: DbView, fresh: Session, now: Timestamp, after: DbView, later: Timestamp)
    requires
        session_outcome(before, fresh, now, after, Ok(())),
        !sooner(fresh.expires_at, now),
    ensures
        session_user(after.sessions, fresh.token_hash@, later) == (if sooner(fresh.expires_at, later) {
            None::<Uuid>
        } else {
            Some(fresh.user_id)
        }),
{
    let all = before.sessions.push(fresh);
    let live = |s: Session| !crate::db::sessions::is_expired(s, now);
    crate::tables::lemma_filter_contains(all, live);
    assert(all[before.sessions.len() as int] == fresh);
    assert(all.contains(fresh));
    assert(after.sessions.contains(fresh));
    let i = choose|i: int| 0 <= i < after.sessions.len() && after.sessions[i] == fresh;
    assert forall|j: int|
        0 <= j < after.sessions.len() && (#[trigger] after.sessions[j]).token_hash@ == fresh.token_hash@ implies
    after.sessions[j] == fresh by {
        assert(after.sessions.contains(after.sessions[j]));
        assert(all.contains(after.sessions[j]));
        let k = choose|k: int| 0 <= k < all.len() && all[k] == after.sessions[j];
        if k < before.sessions.len() {
            assert(before.sessions[k].token_hash@ == fresh.token_hash@);
        }
    }
    if exists|j: int| crate::db::sessions::is_live(after.sessions, fresh.token_hash@, later, j) {
        let j = choose|j: int| crate::db::sessions::is_live(after.sessions, fresh.token_hash@, later, j);
        assert(after.sessions[j] == fresh);
    }
    if !sooner(fresh.expires_at, later) {
        assert(crate::db::sessions::is_live(after.sessions, fresh.token_hash@, later, i));
    }
}

/// A session lasts the days that are configured, and the usual number where that is none; a
/// day has eighty-six thousand four hundred seconds.
pub proof fn law_sessions_last_their_days(session_days: u32, now: Timestamp, days: int)
    requires
        i64::MIN <= now.secs + days * 86_400 <= i64::MAX,
    ensures
        session_days > 0 ==> days_of(session_days) == session_days,
        days_of(0) == crate::auth::DEFAULT_SESSION_DAYS,
        days_from(now, days).secs == now.secs + days * 24 * 60 * 60,
        days_from(now, days).nanos == now.nanos,
{
}

/// A fingerprint tells the unit, how many pages it has, the hash of its first page and that of its
/// last: of two readings of one unit it tells exactly whether the ends hash alike.
pub proof fn law_fingerprints_tell_the_ends(f: UnitFingerprint, ends: PageEnds)
    requires
        fingerprint_is(f, ends),
    ensures
        f.unit_id == ends.unit_id,
        f.page_count == ends.page_count,
        f.page0_sha256@ == hex_text(sha256(ends.first@)),
        f.page_last_sha256@ == hex_text(sha256(ends.last@)),
{
}

/// The provider sends browsers back under the public address where one is configured, whatever the
/// request says; else under the host that a proxy names, before the one that the request names,
/// before the one that the server listens on.
pub proof fn law_the_public_address_comes_first(
    url: Seq<char>,
    proto: Option<Seq<char>>,
    forwarded: Option<Seq<char>>,
    host: Option<Seq<char>>,
    listen: Seq<char>,
)
    ensures
        callback_text(Some(url), proto, forwarded, host, listen) == without_suffixes(url, "/"@)
            + "/api/v1/auth/callback"@,
        ({
            let scheme = if proto is Some {
                proto->0
            } else {
                "http"@
            };
            let place = if forwarded is Some {
                forwarded->0
            } else if host is Some {
                host->0
            } else {
                listen
            };
            callback_text(None, proto, forwarded, host, listen) == scheme + "://"@ + place
                + "/api/v1/auth/callback"@
        }),
{
}

/// The session's cookie is out of reach of scripts and other sites, lasts as long as it is told to,
/// and travels over encrypted connections alone exactly where the server has one.
pub proof fn law_cookies_are_kept_close(token: Seq<char>, max_age_secs: nat)
    ensures
        cookie_text(token, max_age_secs, true) == cookie_text(token, max_age_secs, false) + "; Secure"@,
        cookie_text(token, max_age_secs, false) == "yomu_session="@ + token
            + "; Path=/; HttpOnly; SameSite=Lax; Max-Age="@ + decimal(max_age_secs),
{
    reveal_strlit("yomu_session");
    reveal_strlit("=");
    reveal_strlit("yomu_session=");
    assert("yomu_session="@ =~= "yomu_session"@ + "="@);
    assert(cookie_text(token, max_age_secs, false) =~= "yomu_session="@ + token
        + "; Path=/; HttpOnly; SameSite=Lax; Max-Age="@ + decimal(max_age_secs));
    assert(cookie_text(token, max_age_secs, true) =~= cookie_text(token, max_age_secs, false) + "; Secure"@);
}

/// The server counts as encrypted exactly where its public address says so.
pub proof fn law_encryption_is_told_by_the_public_address(url: Seq<char>)
    ensures
        is_secure(Some(url)) <==> url_parsed(url) is Some && url_parsed(url)->0.scheme == "https"@,
        !is_secure(None),
{
}

/// A browser is sent to the provider with this server's name, the address to come back to, the
/// state, and the hash of the verifier instead of the verifier itself.
pub proof fn law_the_verifier_stays_here(
    client_id: Seq<char>,
    redirect_uri: Seq<char>,
    scope: Seq<char>,
    state: Seq<char>,
    verifier: Seq<char>,
)
    ensures
        ({
            let pairs = authorization_pairs(client_id, redirect_uri, scope, state, verifier);
            &&& pairs.contains(("client_id"@, client_id))
            &&& pairs.contains(("redirect_uri"@, redirect_uri))
            &&& pairs.contains(("state"@, state))
            &&& pairs.contains(("scope"@, scope))
            &&& pairs.contains(("response_type"@, "code"@))
            &&& pairs.contains(("code_challenge"@, base64_url(sha256(encode_utf8(verifier)))))
            &&& pairs.contains(("code_challenge_method"@, "S256"@))
            &&& pairs.len() == 7
        }),
{
    let pairs = authorization_pairs(client_id, redirect_uri, scope, state, verifier);
    assert(pairs[0] == ("response_type"@, "code"@));
    assert(pairs[1] == ("client_id"@, client_id));
    assert(pairs[2] == ("redirect_uri"@, redirect_uri));
    assert(pairs[3] == ("scope"@, scope));
    assert(pairs[4] == ("state"@, state));
    assert(pairs[5] == ("code_challenge"@, base64_url(sha256(encode_utf8(verifier)))));
    assert(pairs[6] == ("code_challenge_method"@, "S256"@));
}

/// Setting a publication's switch sets that alone, and of that publication alone.
pub proof fn law_the_switch_is_all_that_is_set(db: DbView, id: Uuid, auto_download: bool, k: int)
    requires
        0 <= k < db.publications.len(),
    ensures
        ({
            let after = switched(db, id, auto_download);
            let p = db.publications[k];
            &&& after.publications.len() == db.publications.len()
            &&& p.id != id ==> after.publications[k] == p
            &&& p.id == id ==> after.publications[k] == (PublicationView { auto_download, ..p })
            &&& after.units == db.units && after.marks == db.marks && after.journal == db.journal
        }),
{
}

}
