//! Identifiers: UUIDs, held as the 128-bit numbers they are.

use vstd::prelude::*;

use crate::numerals::hex_digits;

verus! {

/// A UUID, as its 128-bit number.
pub type Uuid = u128;

/// The number of the nil UUID, which names the shared account.
pub const SHARED_USER: Uuid = 0;

/// A UUID as its thirty-two hexadecimal digits.
pub open spec fn simple_text(id: Uuid) -> Seq<char> {
    hex_digits(id as nat, 32)
}

/// A UUID as its hexadecimal digits in five groups with hyphens between them.
pub open spec fn hyphenated_text(id: Uuid) -> Seq<char> {
    let h = simple_text(id);
    h.subrange(0, 8) + seq!['-'] + h.subrange(8, 12) + seq!['-'] + h.subrange(12, 16) + seq!['-']
        + h.subrange(16, 20) + seq!['-'] + h.subrange(20, 32)
}

/// What `uuid::Uuid::parse_str` reads from a text.
pub uninterp spec fn uuid_parsed(text: Seq<char>) -> Option<Uuid>;

/// Reads a UUID, by `uuid::Uuid::parse_str`. It takes plain, hyphenated, braced and
/// `urn:uuid:` notations; the claim is that what it reads depends on the text
/// alone, and that it reads back the plain and the hyphenated notation of a UUID.
#[verifier::external_body]
pub(crate) fn read_uuid(text: &str) -> (r: Option<Uuid>)
    ensures
        r == uuid_parsed(text@),
        forall|id: Uuid| text@ == #[trigger] simple_text(id) ==> r == Some(id),
        forall|id: Uuid| text@ == #[trigger] hyphenated_text(id) ==> r == Some(id),
{
    uuid::Uuid::parse_str(text).ok().map(|id| id.as_u128())
}

/// How `uuid` refuses a text that is no UUID.
pub uninterp spec fn uuid_refused(text: Seq<char>) -> Seq<char>;

/// How the error of `uuid::Uuid::parse_str` is shown. The claim is that it depends on the
/// text alone; there is nothing to show of a text that is a UUID.
#[verifier::external_body]
pub(crate) fn uuid_error(text: &str) -> (r: String)
    requires
        uuid_parsed(text@) is None,
    ensures
        r@ == uuid_refused(text@),
{
    uuid::Uuid::parse_str(text).expect_err("no UUID").to_string()
}

/// The plain notation of a UUID, by `uuid::Uuid::simple`: its thirty-two
/// lower-case hexadecimal digits.
#[verifier::external_body]
pub(crate) fn plain_uuid(id: Uuid) -> (r: String)
    ensures
        r@ == simple_text(id),
{
    uuid::Uuid::from_u128(id).simple().to_string()
}

/// The hyphenated notation of a UUID, by `uuid::Uuid::hyphenated`: groups of
/// eight, four, four, four and twelve lower-case hexadecimal digits.
#[verifier::external_body]
pub(crate) fn grouped_uuid(id: Uuid) -> (r: String)
    ensures
        r@ == hyphenated_text(id),
{
    uuid::Uuid::from_u128(id).hyphenated().to_string()
}

/// The marks of a random UUID: its version is four, and its variant bits are one and zero.
pub open spec fn random_form(id: Uuid) -> bool {
    (id >> 76) & 0xf == 4 && (id >> 62) & 0x3 == 2
}

/// A random UUID, by `uuid::Uuid::new_v4`. The claim is that its version digit is
/// four and that its variant bits are one and zero. That two of them differ rests on
/// chance, and is not claimed.
#[verifier::external_body]
pub(crate) fn random_uuid() -> (r: Uuid)
    ensures
        random_form(r),
{
    uuid::Uuid::new_v4().as_u128()
}

/// The marks of a time-ordered UUID: its version is seven, and its variant bits are one
/// and zero.
pub open spec fn timely_form(id: Uuid) -> bool {
    (id >> 76) & 0xf == 7 && (id >> 62) & 0x3 == 2
}

/// Time-ordered UUIDs, so many of them.
pub open spec fn timely_forms(ids: Seq<Uuid>, n: nat) -> bool {
    &&& ids.len() == n
    &&& forall|i: int| 0 <= i < ids.len() ==> timely_form(#[trigger] ids[i])
}

/// A time-ordered UUID is never the shared account's identifier.
pub proof fn lemma_timely_is_not_shared(id: Uuid)
    requires
        timely_form(id),
    ensures
        id != SHARED_USER,
{
    assert((0u128 >> 76) & 0xf == 0) by (bit_vector);
}

/// A time-ordered UUID, by `uuid::Uuid::now_v7`. The claim is that its version
/// digit is seven and that its variant bits are one and zero. That two of them differ
/// rests on the clock and on chance, and is not claimed.
#[verifier::external_body]
pub(crate) fn timely_uuid() -> (r: Uuid)
    ensures
        timely_form(r),
{
    uuid::Uuid::now_v7().as_u128()
}

/// Reads a UUID in any of its notations.
pub fn parse_uuid(text: &str) -> (r: Option<Uuid>)
    ensures
        r == uuid_parsed(text@),
{
    read_uuid(text)
}

/// The hyphenated notation of a UUID.
pub fn uuid_text(id: Uuid) -> (r: String)
    ensures
        r@ == hyphenated_text(id),
{
    grouped_uuid(id)
}

/// As many fresh time-ordered identifiers as asked for.
pub fn fresh_ids(n: usize) -> (r: Vec<Uuid>)
    ensures
        timely_forms(r@, n as nat),
{
    let mut out: Vec<Uuid> = Vec::new();
    let mut i: usize = 0;
    while i < n
        invariant
            i <= n,
            out@.len() == i,
            forall|j: int| 0 <= j < i ==> timely_form(#[trigger] out@[j]),
        decreases n - i,
    {
        out.push(timely_uuid());
        i += 1;
    }
    out
}

/// A fresh time-ordered identifier.
pub fn fresh_id() -> (r: Uuid)
    ensures
        timely_form(r),
{
    timely_uuid()
}

}
