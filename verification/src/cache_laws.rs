//! How long things are kept, and what goes first.

use vstd::prelude::*;

use crate::catalog::{plan_for, CachePlan};
use crate::clock::Timestamp;
use crate::ids::Uuid;
use crate::live_pages::{elapsed, is_oldest, kept, LiveView, LIVE_PAGES_MAX, LIVE_PAGES_TTL};
use crate::oidc::{begun_under, names_of, still_open, PendingLogin, UserInfo};
use crate::static_cache::{cache_control_for, fingerprint_at, last_name, looks_fingerprinted, IMMUTABLE, REVALIDATE};
use crate::text::{last_index, lemma_last_index, lemma_last_index_is};

verus! {

// ---- cached listings ----

/// With caching on, a page that was cached at or before a time is fresh through the whole of
/// its last second, and after that is served and refreshed.
pub proof fn law_pages_stay_fresh_for_their_lifetime(at: Timestamp, ttl_secs: u64, now: Timestamp)
    requires
        ttl_secs > 0,
        at.nanos < 1_000_000_000,
        now.nanos < 1_000_000_000,
        at.secs < now.secs || (at.secs == now.secs && at.nanos <= now.nanos),
    ensures
        ({
            let age = (now.secs - at.secs) * 1_000_000_000 + now.nanos - at.nanos;
            &&& age < (ttl_secs + 1) * 1_000_000_000 ==> plan_for(Some(at), ttl_secs, now)
                == CachePlan::Fresh
            &&& age >= (ttl_secs + 1) * 1_000_000_000 ==> plan_for(Some(at), ttl_secs, now)
                == CachePlan::Revalidate
        }),
{
    let age = (now.secs - at.secs) * 1_000_000_000 + now.nanos - at.nanos;
    assert(crate::clock::nanos_between(at, now) == age);
    assert(age / 1_000_000_000 <= ttl_secs <==> age < (ttl_secs + 1) * 1_000_000_000);
}

/// A page from the future is never fresh, and neither a page that is not there nor any page
/// with caching off is served from the cache.
pub proof fn law_pages_of_another_time_are_not_fresh(at: Timestamp, ttl_secs: u64, now: Timestamp)
    requires
        at.nanos < 1_000_000_000,
        now.nanos < 1_000_000_000,
        now.valid(),
        at.valid(),
        ttl_secs <= 0x7fff_ffff_ffff_ffff,
    ensures
        ttl_secs > 0 && (now.secs + 1 < at.secs || (now.secs + 1 == at.secs && now.nanos <= at.nanos))
            ==> plan_for(Some(at), ttl_secs, now) == CachePlan::Revalidate,
        plan_for(Some(at), 0, now) == CachePlan::Live,
        plan_for(None, ttl_secs, now) == CachePlan::Live,
{
    let age = (now.secs - at.secs) * 1_000_000_000 + now.nanos - at.nanos;
    assert(crate::clock::nanos_between(at, now) == age);
    if now.secs + 1 < at.secs || (now.secs + 1 == at.secs && now.nanos <= at.nanos) {
        assert(age <= -1_000_000_000);
        assert((-age) / 1_000_000_000 >= 1);
        assert((-age) / 1_000_000_000 <= 0x1_0000_0000_0000);
    }
}

// ---- page lists ----

/// A page list is good for half an hour after it was asked for; a clock that seems to have
/// gone back does not end it.
pub proof fn law_page_lists_are_good_for_half_an_hour(resolved_at: u64, now: u64)
    ensures
        elapsed(resolved_at, now) < LIVE_PAGES_TTL <==> now < resolved_at + 30 * 60 * 1_000_000_000,
{
}

/// Keeping a unit's page list keeps it. Every other list stays, unless there is no room for
/// another unit: one list then goes, and none that stays is older than it.
pub proof fn law_only_an_oldest_list_goes(
    before: Map<Uuid, LiveView>,
    after: Map<Uuid, LiveView>,
    unit_id: Uuid,
    list: LiveView,
    a: Uuid,
    b: Uuid,
)
    requires
        kept(before, after, unit_id, list),
    ensures
        after.dom().contains(unit_id) && after[unit_id] == list,
        a != unit_id && after.dom().contains(a) ==> before.dom().contains(a) && after[a] == before[a],
        a != unit_id && before.dom().contains(a) && !after.dom().contains(a) ==> {
            &&& before.len() >= 64 && !before.dom().contains(unit_id)
            &&& b != unit_id && b != a && before.dom().contains(b) ==> after.dom().contains(b)
                && before[a].resolved_at <= before[b].resolved_at
        },
        before.len() >= 64 && !before.dom().contains(unit_id) ==> exists|gone: Uuid|
            #[trigger] before.dom().contains(gone) && !after.dom().contains(gone),
{
    if before.len() >= LIVE_PAGES_MAX && !before.dom().contains(unit_id) {
        let gone = choose|gone: Uuid|
            #[trigger] is_oldest(before, gone) && after == before.remove(gone).insert(unit_id, list);
        assert(before.dom().contains(gone) && !after.dom().contains(gone));
        if a != unit_id && before.dom().contains(a) && !after.dom().contains(a) {
            assert(a == gone);
        }
    }
}

// ---- the static frontend ----

/// An answer is kept for good exactly where its address looks like that of a file with a
/// fingerprint, it was a success or says that nothing changed, and nobody decided otherwise.
pub proof fn law_only_fingerprinted_successes_are_pinned(
    path: Seq<char>,
    status: u16,
    already: Option<Seq<char>>,
)
    ensures
        already is None ==> (cache_control_for(path, status, already) == IMMUTABLE@
            <==> looks_fingerprinted(path) && (status / 100 == 2 || status == 304)),
        already is None ==> cache_control_for(path, status, already) == IMMUTABLE@ || cache_control_for(
            path,
            status,
            already,
        ) == REVALIDATE@,
        already is Some ==> cache_control_for(path, status, already) == already->0,
{
    reveal_strlit("public, max-age=31536000, immutable");
    reveal_strlit("public, max-age=0, must-revalidate");
    assert(IMMUTABLE@.len() != REVALIDATE@.len());
}

/// A name with a part of eight to sixteen hexadecimal digits between a hyphen and a point
/// looks like that of a file with a fingerprint, in whatever directory.
pub proof fn law_fingerprints_are_parts_of_names(
    dir: Seq<char>,
    stem: Seq<char>,
    print: Seq<char>,
    rest: Seq<char>,
)
    requires
        8 <= print.len() <= 16,
        forall|k: int|
            0 <= k < print.len() ==> {
                let c = #[trigger] print[k];
                ('0' <= c && c <= '9') || ('a' <= c && c <= 'f') || ('A' <= c && c <= 'F')
            },
        forall|k: int| 0 <= k < stem.len() ==> #[trigger] stem[k] != '/',
        forall|k: int| 0 <= k < rest.len() ==> #[trigger] rest[k] != '/',
    ensures
        looks_fingerprinted(dir + seq!['/'] + stem + seq!['-'] + print + seq!['.'] + rest),
{
    let name = stem + seq!['-'] + print + seq!['.'] + rest;
    let path = dir + seq!['/'] + stem + seq!['-'] + print + seq!['.'] + rest;
    let at = dir.len() as int;
    assert(path =~= dir + seq!['/'] + name);
    assert(path[at] == '/');
    assert forall|j: int| at < j < path.len() implies path[j] != '/' by {
        let k = j - at - 1;
        assert(path[j] == name[k]);
        if k < stem.len() {
            assert(name[k] == stem[k]);
        } else if k > stem.len() && k <= stem.len() + print.len() {
            assert(name[k] == print[k - stem.len() - 1]);
        } else if k > stem.len() + print.len() + 1 {
            assert(name[k] == rest[k - stem.len() - print.len() - 2]);
        }
    }
    lemma_last_index_is(path, '/', at);
    assert(last_name(path) =~= name);
    let from = stem.len() + 1;
    let to = stem.len() + 1 + print.len();
    assert(name[from - 1] == '-' && name[to as int] == '.');
    assert forall|k: int| from <= k < to implies crate::text::is_hex(#[trigger] name[k]) by {
        assert(name[k] == print[k - from]);
    }
    assert(fingerprint_at(last_name(path), from as int, to as int));
}

/// A file whose name is shorter than eight characters has no fingerprint.
pub proof fn law_short_names_have_no_fingerprint(dir: Seq<char>, name: Seq<char>)
    requires
        name.len() < 8,
        forall|k: int| 0 <= k < name.len() ==> #[trigger] name[k] != '/',
    ensures
        !looks_fingerprinted(dir + seq!['/'] + name),
        !looks_fingerprinted(name),
{
    let path = dir + seq!['/'] + name;
    let at = dir.len() as int;
    assert(path[at] == '/');
    assert forall|j: int| at < j < path.len() implies path[j] != '/' by {
        assert(path[j] == name[j - at - 1]);
    }
    lemma_last_index_is(path, '/', at);
    assert(last_name(path) =~= name);
    lemma_last_index(name, '/');
    if last_index(name, '/') is Some {
        let i = last_index(name, '/')->0;
        assert(name[i] == '/');
    }
    assert(last_name(name) =~= name);
}

// ---- sign-ins under way ----

/// A sign-in may come back for ten minutes.
pub proof fn law_sign_ins_stay_open_for_ten_minutes(p: PendingLogin, now: u64)
    ensures
        still_open(p, now) <==> now < p.created_at + 10 * 60 * 1_000_000_000,
{
}

/// A state leads to the sign-in that was begun under it last, and one under which none was
/// begun leads nowhere.
pub proof fn law_a_state_leads_to_its_sign_in(s: Seq<PendingLogin>, state: Seq<char>, k: int)
    requires
        0 <= k < s.len(),
    ensures
        s[k].state@ == state && (forall|j: int| k < j < s.len() ==> (#[trigger] s[j]).state@ != state)
            ==> begun_under(s, state) == Some(s[k]),
        (forall|j: int| 0 <= j < s.len() ==> (#[trigger] s[j]).state@ != state) ==> begun_under(s, state) is None,
    decreases s.len(),
{
    let d = s.drop_last();
    assert(s[s.len() - 1] == s.last());
    if d.len() > 0 {
        let n = if k < d.len() {
            k
        } else {
            0
        };
        law_a_state_leads_to_its_sign_in(d, state, n);
        assert(forall|j: int| 0 <= j < d.len() ==> #[trigger] d[j] == s[j]);
        if k < d.len() && s[k].state@ == state && (forall|j: int|
            k < j < s.len() ==> (#[trigger] s[j]).state@ != state) {
            assert(s[s.len() - 1].state@ != state);
            assert forall|j: int| k < j < d.len() implies (#[trigger] d[j]).state@ != state by {
                assert(s[j].state@ != state);
            }
        }
        if forall|j: int| 0 <= j < s.len() ==> (#[trigger] s[j]).state@ != state {
            assert forall|j: int| 0 <= j < d.len() implies (#[trigger] d[j]).state@ != state by {
                assert(s[j].state@ != state);
            }
        }
    } else {
        assert(begun_under(d, state) is None);
    }
}

/// Who signed in goes by the name that the provider gives, and by the subject where it gives
/// none; and is shown under the shown name, or else under that name.
pub proof fn law_names_come_from_the_provider(claims: UserInfo)
    ensures
        claims.preferred_username is Some ==> names_of(claims).0 == claims.preferred_username->0@,
        claims.preferred_username is None ==> names_of(claims).0 == claims.sub@,
        claims.name is Some ==> names_of(claims).1 == claims.name->0@,
        claims.name is None ==> names_of(claims).1 == names_of(claims).0,
{
}

/// A name that is one run of more than sixteen hexadecimal digits is not taken for one with a
/// fingerprint.
pub proof fn law_long_runs_are_no_fingerprints(name: Seq<char>)
    requires
        name.len() > 16,
        forall|k: int| 0 <= k < name.len() ==> crate::text::is_hex(#[trigger] name[k]),
    ensures
        !looks_fingerprinted(name),
{
    lemma_last_index(name, '/');
    if last_index(name, '/') is Some {
        let i = last_index(name, '/')->0;
        assert(crate::text::is_hex(name[i]));
    }
    assert(last_name(name) =~= name);
    if looks_fingerprinted(name) {
        let (from, to) = choose|from: int, to: int| fingerprint_at(last_name(name), from, to);
        if from > 0 {
            assert(crate::text::is_hex(name[from - 1]));
        }
        if to < name.len() {
            assert(crate::text::is_hex(name[to]));
        }
    }
}

}
