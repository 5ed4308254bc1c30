//! Short-lived tokens for the routes that an image element loads: it can send no
//! header, so a signed, expiring token rides in the query instead.
//!
//! A token is the reader, the expiry and a tag over both, with dots between them.

use vstd::prelude::*;

use crate::clock::epoch;
use crate::digest::{hex_bytes, hex_decode, hex_encode, hex_text, hmac_is, hmac_of, hmac_sha256, law_hex_reads_back, lemma_hex_text};
use crate::ids::{plain_uuid, random_form, random_uuid, read_uuid, simple_text, uuid_parsed, Uuid};
use crate::numerals::{decimal, decimal_text, lemma_decimal, lemma_decimal_parses, lemma_hex_digits, parse_u64, parsed_u64};
use crate::text::{chars_of, find_char, first_index, is_hex, join3, last_index, lemma_first_index_is, lemma_last_index_is, rfind_char};
use vstd::utf8::encode_utf8;

verus! {

/// The signing key. It is made when the server starts, so a restart ends all tokens.
pub struct Key {
    bytes: Vec<u8>,
}

impl View for Key {
    type V = Seq<u8>;

    closed spec fn view(&self) -> Seq<u8> {
        self.bytes@
    }
}

/// What is signed: the reader and the expiry.
pub open spec fn payload_text(user: Uuid, expiry: u64) -> Seq<char> {
    simple_text(user) + "."@ + decimal(expiry as nat)
}

/// The tag over a payload.
pub open spec fn tag_of(key: Seq<u8>, payload: Seq<char>) -> Seq<u8> {
    hmac_sha256(key, encode_utf8(payload))
}

/// The token for a reader, until an expiry.
pub open spec fn token_text(key: Seq<u8>, user: Uuid, expiry: u64) -> Seq<char> {
    payload_text(user, expiry) + "."@ + hex_text(tag_of(key, payload_text(user, expiry)))
}

/// The sum, as far as it can be told.
pub open spec fn capped_sum(a: u64, b: u64) -> u64 {
    if a + b > u64::MAX {
        u64::MAX
    } else {
        (a + b) as u64
    }
}

/// The parts of a token: what stands before its last dot, split at the first dot, and
/// what stands behind the last dot.
pub struct TokenParts {
    pub payload: Seq<char>,
    pub user: Seq<char>,
    pub expiry: Seq<char>,
    pub tag: Seq<char>,
}

/// The parts of a token, where it has them.
pub open spec fn parts_of(token: Seq<char>) -> Option<TokenParts> {
    match last_index(token, '.') {
        None => None,
        Some(i) => {
            let payload = token.take(i);
            match first_index(payload, '.') {
                None => None,
                Some(j) => Some(
                    TokenParts {
                        payload,
                        user: payload.take(j),
                        expiry: payload.skip(j + 1),
                        tag: token.skip(i + 1),
                    },
                ),
            }
        },
    }
}

/// The reader that a token speaks for: it has all its parts, they can be read, its tag
/// is the one for its payload, and it has not expired.
pub open spec fn reader_of_token(key: Seq<u8>, token: Seq<char>, now: u64, skew: u64) -> Option<Uuid> {
    match parts_of(token) {
        None => None,
        Some(p) => match (uuid_parsed(p.user), parsed_u64(p.expiry)) {
            (Some(user), Some(expiry)) => if hex_bytes(p.tag) == Some(tag_of(key, p.payload)) && now
                + skew < expiry {
                Some(user)
            } else {
                None
            },
            _ => None,
        },
    }
}

/// A minted token has the parts it was made of.
pub proof fn lemma_minted_parts(key: Seq<u8>, user: Uuid, expiry: u64)
    ensures
        parts_of(token_text(key, user, expiry)) == Some(
            TokenParts {
                payload: payload_text(user, expiry),
                user: simple_text(user),
                expiry: decimal(expiry as nat),
                tag: hex_text(tag_of(key, payload_text(user, expiry))),
            },
        ),
{
    reveal_strlit(".");
    let p = payload_text(user, expiry);
    let u = simple_text(user);
    let d = decimal(expiry as nat);
    let h = hex_text(tag_of(key, p));
    let t = token_text(key, user, expiry);
    lemma_hex_digits(user as nat, 32);
    lemma_decimal(expiry as nat);
    lemma_hex_text(tag_of(key, p));
    let i = p.len() as int;
    let j = u.len() as int;
    assert(t[i] == '.');
    assert forall|k: int| i < k < t.len() implies t[k] != '.' by {
        assert(t[k] == h[k - i - 1]);
        assert(is_hex(h[k - i - 1]));
    }
    lemma_last_index_is(t, '.', i);
    assert(t.take(i) =~= p);
    assert(t.skip(i + 1) =~= h);
    assert(p[j] == '.');
    assert forall|k: int| 0 <= k < j implies p[k] != '.' by {
        assert(p[k] == u[k]);
        assert(is_hex(u[k]));
    }
    lemma_first_index_is(p, '.', j);
    assert(p.take(j) =~= u);
    assert(p.skip(j + 1) =~= d);
}

/// A token that names another reader, or another expiry, has another payload; a tag
/// over the one is accepted for the other only where the tags are the same bytes.
pub proof fn law_tag_binds_the_payload(key: Seq<u8>, other: Seq<u8>, user: Uuid, expiry: u64, now: u64, skew: u64)
    requires
        tag_of(key, payload_text(user, expiry)) != tag_of(other, payload_text(user, expiry)),
    ensures
        reader_of_token(key, token_text(other, user, expiry), now, skew) is None,
{
    lemma_minted_parts(other, user, expiry);
    law_hex_reads_back(tag_of(other, payload_text(user, expiry)));
}

/// Once a token's time has come, it speaks for nobody.
pub proof fn law_expired_tokens_speak_for_nobody(
    key: Seq<u8>,
    user: Uuid,
    expiry: u64,
    now: u64,
    skew: u64,
)
    requires
        now + skew >= expiry,
    ensures
        reader_of_token(key, token_text(key, user, expiry), now, skew) is None,
{
    lemma_minted_parts(key, user, expiry);
    lemma_decimal_parses(expiry);
}

/// The seconds between two readings of the clock, none where the second is not behind the
/// first: those that `duration_since` and `as_secs` give.
pub open spec fn seconds_since(
    now: std::time::SystemTime,
    start: std::time::SystemTime,
    seconds: u64,
) -> bool {
    exists|span: Result<std::time::Duration, std::time::SystemTimeError>| #[trigger]
        call_ensures(std::time::SystemTime::duration_since, (&now, start), span) && match span {
            Ok(d) => call_ensures(std::time::Duration::as_secs, (&d,), seconds),
            Err(_) => seconds == 0,
        }
}

/// The machine's clock shows so many seconds since the Unix epoch: they are those from what
/// `epoch` gives to what `std::time::SystemTime::now` gives.
pub closed spec fn clock_shows(seconds: u64) -> bool {
    exists|now: std::time::SystemTime, start: std::time::SystemTime| #[trigger]
        call_ensures(std::time::SystemTime::now, (), now) && #[trigger] call_ensures(epoch, (), start)
            && seconds_since(now, start, seconds)
}

/// Asks for a reading of the clock.
fn ask<F: Fn() -> std::time::SystemTime>(f: F) -> (r: std::time::SystemTime)
    requires
        f.requires(()),
    ensures
        f.ensures((), r),
{
    f()
}

/// Asks for the time between two readings of the clock.
fn ask_span<F: Fn(&std::time::SystemTime, std::time::SystemTime) -> Result<std::time::Duration, std::time::SystemTimeError>>(
    f: F,
    now: &std::time::SystemTime,
    start: std::time::SystemTime,
) -> (r: Result<std::time::Duration, std::time::SystemTimeError>)
    requires
        f.requires((now, start)),
    ensures
        f.ensures((now, start), r),
{
    f(now, start)
}

/// Asks for the seconds of a span.
fn ask_seconds<F: Fn(&std::time::Duration) -> u64>(f: F, span: &std::time::Duration) -> (r: u64)
    requires
        f.requires((span,)),
    ensures
        f.ensures((span,), r),
{
    f(span)
}

/// The seconds since the Unix epoch, as the machine's clock shows them; none where it stands
/// before the epoch. They differ from call to call.
pub(crate) fn unix_seconds() -> (r: u64)
    ensures
        clock_shows(r),
{
    let now = ask(std::time::SystemTime::now);
    let start = ask(epoch);
    let span = ask_span(std::time::SystemTime::duration_since, &now, start);
    let r = match span {
        Ok(d) => ask_seconds(std::time::Duration::as_secs, &d),
        Err(_) => 0,
    };
    assert(seconds_since(now, start, r));
    r
}

/// The bytes of a number, from the highest.
pub open spec fn bytes_of(n: nat, width: nat) -> Seq<u8>
    decreases width,
{
    if width == 0 {
        Seq::empty()
    } else {
        bytes_of(n / 256, (width - 1) as nat).push((n % 256) as u8)
    }
}

/// The bytes of a UUID, from the highest.
fn uuid_bytes(id: Uuid) -> (r: Vec<u8>)
    ensures
        r@ == bytes_of(id as nat, 16),
{
    let mut out: Vec<u8> = Vec::new();
    let mut rest: Uuid = id;
    let mut left: u8 = 16;
    assert(bytes_of(rest as nat, 16) + out@ =~= bytes_of(id as nat, 16));
    while left > 0
        invariant
            left <= 16,
            bytes_of(rest as nat, left as nat) + out@ == bytes_of(id as nat, 16),
        decreases left,
    {
        let ghost had = out@;
        let byte: u8 = (rest % 256) as u8;
        out.insert(0, byte);
        assert(bytes_of(rest as nat / 256, (left - 1) as nat) + out@ =~= bytes_of(
            rest as nat,
            left as nat,
        ) + had);
        rest = rest / 256;
        left -= 1;
    }
    assert(bytes_of(rest as nat, 0) + out@ =~= out@);
    out
}

/// The bytes of two UUIDs.
pub open spec fn two_uuids(bytes: Seq<u8>) -> bool {
    exists|a: Uuid, b: Uuid|
        #[trigger] random_form(a) && #[trigger] random_form(b) && bytes == bytes_of(a as nat, 16) + bytes_of(
            b as nat,
            16,
        )
}

/// Every number has as many bytes as are asked for.
proof fn lemma_bytes_len(n: nat, width: nat)
    ensures
        bytes_of(n, width).len() == width,
    decreases width,
{
    if width > 0 {
        lemma_bytes_len(n / 256, (width - 1) as nat);
    }
}

impl Key {
    /// A new random key: the bytes of two random UUIDs.
    pub fn generate() -> (r: Key)
        ensures
            two_uuids(r@),
            r@.len() == 32,
    {
        let a = random_uuid();
        let b = random_uuid();
        let mut bytes = uuid_bytes(a);
        let mut more = uuid_bytes(b);
        bytes.append(&mut more);
        proof {
            lemma_bytes_len(a as nat, 16);
            lemma_bytes_len(b as nat, 16);
            assert(bytes@ =~= bytes_of(a as nat, 16) + bytes_of(b as nat, 16));
            assert(random_form(a) && random_form(b));
        }
        Key { bytes }
    }

    /// A key of given bytes.
    pub fn from_bytes(bytes: Vec<u8>) -> (r: Key)
        ensures
            r@ == bytes@,
    {
        Key { bytes }
    }

    /// A token for a reader, valid for a number of seconds from a time on.
    pub fn mint_at(&self, user: Uuid, now: u64, ttl_secs: u64) -> (r: String)
        ensures
            r@ == token_text(self@, user, capped_sum(now, ttl_secs)),
    {
        let expiry = now.saturating_add(ttl_secs);
        let payload = join3(plain_uuid(user).as_str(), ".", decimal_text(expiry).as_str());
        let tag = self.sign(payload.as_str());
        join3(payload.as_str(), ".", hex_encode(&tag).as_str())
    }

    /// A token for a reader, valid for a number of seconds from now on.
    pub fn mint(&self, user: Uuid, ttl_secs: u64) -> (r: String)
        ensures
            exists|now: u64|
                clock_shows(now) && r@ == token_text(self@, user, #[trigger] capped_sum(now, ttl_secs)),
    {
        let now = unix_seconds();
        let r = self.mint_at(user, now, ttl_secs);
        let ghost _until = capped_sum(now, ttl_secs);
        r
    }

    /// The reader that a token speaks for at a time, `skew_secs` later. A token that
    /// this key minted speaks for the reader it was minted for until it expires.
    pub fn verify_at(&self, token: &str, now: u64, skew_secs: u64) -> (r: Option<Uuid>)
        ensures
            r == reader_of_token(self@, token@, now, skew_secs),
            forall|user: Uuid, expiry: u64|
                token@ == #[trigger] token_text(self@, user, expiry) ==> r == if now + skew_secs < expiry {
                    Some(user)
                } else {
                    None
                },
    {
        let chars = chars_of(token);
        let n: usize = chars.len();
        let i = match rfind_char(&chars, '.') {
            Some(i) => i,
            None => {
                proof {
                    assert forall|user: Uuid, expiry: u64| token@ != #[trigger] token_text(
                        self@,
                        user,
                        expiry,
                    ) by {
                        lemma_minted_parts(self@, user, expiry);
                    }
                }
                return None;
            },
        };
        let payload = token.substring_char(0, i);
        let tag = token.substring_char(i + 1, n);
        assert(token@.subrange(0, i as int) =~= token@.take(i as int));
        assert(token@.subrange(i + 1, token@.len() as int) =~= token@.skip(i + 1));
        let inner = chars_of(payload);
        let m: usize = inner.len();
        let j = match find_char(&inner, '.') {
            Some(j) => j,
            None => {
                proof {
                    assert forall|user: Uuid, expiry: u64| token@ != #[trigger] token_text(
                        self@,
                        user,
                        expiry,
                    ) by {
                        lemma_minted_parts(self@, user, expiry);
                    }
                }
                return None;
            },
        };
        let user_text = payload.substring_char(0, j);
        let expiry_text = payload.substring_char(j + 1, m);
        assert(payload@.subrange(0, j as int) =~= payload@.take(j as int));
        assert(payload@.subrange(j + 1, payload@.len() as int) =~= payload@.skip(j + 1));
        let user = read_uuid(user_text);
        let expiry = parse_u64(expiry_text);
        let genuine = self.check(payload, tag);
        let late = now.saturating_add(skew_secs);
        proof {
            assert forall|u: Uuid, e: u64| token@ == #[trigger] token_text(self@, u, e) implies user == Some(
                u,
            ) && expiry == Some(e) && genuine by {
                lemma_minted_parts(self@, u, e);
                lemma_decimal_parses(e);
                law_hex_reads_back(tag_of(self@, payload_text(u, e)));
                assert(user_text@ == simple_text(u));
            }
        }
        match user {
            Some(u) => match expiry {
                Some(e) => if genuine && late < e {
                    Some(u)
                } else {
                    None
                },
                None => None,
            },
            None => None,
        }
    }

    /// The reader that a token speaks for now, or `skew_secs` later.
    pub fn verify(&self, token: &str, skew_secs: u64) -> (r: Option<Uuid>)
        ensures
            exists|now: u64|
                clock_shows(now) && r == #[trigger] reader_of_token(self@, token@, now, skew_secs),
    {
        let now = unix_seconds();
        self.verify_at(token, now, skew_secs)
    }

    /// The tag over a payload.
    fn sign(&self, payload: &str) -> (r: Vec<u8>)
        ensures
            r@ == tag_of(self@, payload@),
    {
        hmac_of(&self.bytes, payload.as_bytes())
    }

    /// Whether a hexadecimal tag is the one for a payload.
    fn check(&self, payload: &str, tag: &str) -> (r: bool)
        ensures
            r == (hex_bytes(tag@) == Some(tag_of(self@, payload@))),
    {
        match hex_decode(tag) {
            Some(bytes) => hmac_is(&self.bytes, payload.as_bytes(), &bytes),
            None => false,
        }
    }
}

}
