//! What the server says of itself, and whom it answers.

use vstd::prelude::*;

use crate::api::cors::{origin_text, usable_origins};
use crate::api::error::{store_refusal, ApiError};
use crate::api::operations::{metric_text, room_enough};
use crate::config::{books_of, clamped, BooksConfig, BooksSection};
use crate::db::DbError;
use crate::domain::publication::ReadingUnit;
use crate::notifier::{header_value, message_text};
use crate::numerals::decimal;

verus! {

/// There is room where the free bytes can be told and are not below the floor.
pub proof fn law_there_is_room_above_the_floor(free_bytes: u64, floor: u64)
    ensures
        room_enough(Some(free_bytes), floor) <==> free_bytes >= floor,
        !room_enough(None, floor),
{
}

/// A number is written in two lines, the first with its kind and the second with its value,
/// both under its name.
pub proof fn law_numbers_are_written_under_their_name(name: Seq<char>, kind: Seq<char>, value: Seq<char>)
    ensures
        metric_text(name, kind, value) == "# TYPE "@ + name + seq![' '] + kind + seq!['\n'] + name + seq![' ']
            + value + seq!['\n'],
{
    reveal_strlit(" ");
    reveal_strlit("\n");
    assert(" "@ =~= seq![' ']);
    assert("\n"@ =~= seq!['\n']);
}

/// The origins that may call are those that are listed and can be named in a header, without
/// slashes at their end, and no others.
pub proof fn law_listed_origins_may_call(listed: Seq<Seq<char>>, origin: Seq<char>)
    ensures
        usable_origins(listed).contains(origin) <==> header_value(origin) && exists|i: int|
            0 <= i < listed.len() && origin_text(#[trigger] listed[i]) == origin,
    decreases listed.len(),
{
    if listed.len() > 0 {
        let d = listed.drop_last();
        law_listed_origins_may_call(d, origin);
        let before = usable_origins(d);
        let all = usable_origins(listed);
        assert(listed[listed.len() - 1] == listed.last());
        if all.contains(origin) {
            let n = choose|n: int| 0 <= n < all.len() && all[n] == origin;
            if n < before.len() {
                assert(before[n] == origin);
                assert(before.contains(origin));
                let i = choose|i: int| 0 <= i < d.len() && origin_text(#[trigger] d[i]) == origin;
                assert(listed[i] == d[i]);
            }
        }
        if header_value(origin) && exists|i: int|
            0 <= i < listed.len() && origin_text(#[trigger] listed[i]) == origin {
            let i = choose|i: int| 0 <= i < listed.len() && origin_text(#[trigger] listed[i]) == origin;
            if i < d.len() {
                assert(d[i] == listed[i]);
                let n = choose|n: int| 0 <= n < before.len() && before[n] == origin;
                assert(all[n] == origin);
            } else {
                assert(all[before.len() as int] == origin);
            }
        }
    }
}

/// What is not there is answered as not found, and what a rule stands against as unprocessable,
/// with the rule's words. A failure of a source is told from one of the server's own.
pub proof fn law_refusals_have_their_status(e: DbError, r: ApiError)
    requires
        store_refusal(e, r),
    ensures
        e is NotFound ==> r.status_code() == 404,
        e matches DbError::Constraint(m) ==> r.status_code() == 422 && r.message_text() == m@,
        ApiError::Unauthorized.status_code() == 401,
        r is UpstreamFailed ==> false,
        r.status_code() != 502,
{
}

/// A round is as long as it is configured, but never shorter than a minute.
pub proof fn law_rounds_take_at_least_a_minute(seconds: u64)
    ensures
        clamped(seconds) >= 60,
        seconds >= 60 ==> clamped(seconds) == seconds,
        seconds < 60 ==> clamped(seconds) == 60,
{
}

/// What a section says of the books counts; where it says nothing they are on, lie in the usual
/// directory and are looked at every hour.
pub proof fn law_sections_say_what_counts(s: BooksSection, r: BooksConfig)
    requires
        books_of(Some(s), r),
    ensures
        s.enabled is Some ==> r.enabled == s.enabled->0,
        s.enabled is None ==> r.enabled,
        s.dir is Some ==> r.dir@ == s.dir->0@,
        s.dir is None ==> r.dir@ == "local"@,
        s.scan_interval_secs is Some ==> r.scan_interval_secs == s.scan_interval_secs->0,
        s.scan_interval_secs is None ==> r.scan_interval_secs == 60 * 60,
{
}

/// One new unit is announced by its title; several by how many they are, with the titles of the
/// first and of the last.
pub proof fn law_announcements_name_what_is_new(units: Seq<ReadingUnit>)
    requires
        units.len() > 0,
    ensures
        units.len() == 1 ==> message_text(units) == units[0].title@,
        units.len() > 1 ==> message_text(units) == decimal(units.len()) + " new chapters — "@
            + units[0].title@ + " … "@ + units[units.len() - 1].title@,
{
}

}
