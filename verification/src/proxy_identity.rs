//! Readers whom a trusted reverse proxy has signed in already.
//!
//! The proxy stamps who the reader is, and a secret that no client knows. Without the
//! secret the identity headers prove nothing, and without a configured secret nobody
//! is believed.

use vstd::prelude::*;

use crate::text::trim;
use crate::text::trimmed;
use vstd::utf8::encode_utf8_decode_utf8;

verus! {

/// The header with the proxy's secret.
pub const PROXY_SECRET_HEADER: &'static str = "x-yomu-proxy-secret";

/// The header with the provider's lasting identifier of the reader.
pub const UID_HEADER: &'static str = "x-authentik-uid";

/// The header with the reader's name.
pub const USERNAME_HEADER: &'static str = "x-authentik-username";

/// The header with the name to show.
pub const NAME_HEADER: &'static str = "x-authentik-name";

/// Whom the proxy says this is.
#[derive(Debug, PartialEq, Eq)]
pub struct ProxyUser {
    /// The subject: signing in through the proxy and signing in at the provider lead to
    /// one account.
    pub sub: String,
    pub username: String,
    pub display_name: String,
}

/// A header that says something.
pub open spec fn filled(value: Option<String>, fallback: String) -> String {
    match value {
        Some(v) => if v@.len() > 0 {
            v
        } else {
            fallback
        },
        None => fallback,
    }
}

/// Whom a request's headers speak for: nobody unless a secret is configured, the
/// request presents it, and names a reader. Where the identifier or the name to show is
/// missing or empty, the reader's name stands in.
pub open spec fn identity(
    expected: Option<Seq<char>>,
    presented: Option<String>,
    username: Option<String>,
    uid: Option<String>,
    name: Option<String>,
) -> Option<ProxyUser> {
    match (expected, presented, username) {
        (Some(e), Some(p), Some(u)) => if p@ == e && u@.len() > 0 {
            Some(
                ProxyUser {
                    sub: filled(uid, u),
                    username: u,
                    display_name: filled(name, u),
                },
            )
        } else {
            None
        },
        _ => None,
    }
}

/// No secret, no identity, whatever the headers say.
pub proof fn law_no_secret_nobody(
    presented: Option<String>,
    username: Option<String>,
    uid: Option<String>,
    name: Option<String>,
)
    ensures
        identity(None, presented, username, uid, name) is None,
{
}

/// A request that presents another secret, or none, is nobody's, whatever else it says.
pub proof fn law_wrong_secret_nobody(
    expected: Seq<char>,
    presented: Option<String>,
    username: Option<String>,
    uid: Option<String>,
    name: Option<String>,
)
    requires
        presented matches Some(p) ==> p@ != expected,
    ensures
        identity(Some(expected), presented, username, uid, name) is None,
{
}

/// Whether two strings are the same, looking at all of both whatever they hold.
fn same_secret(a: &str, b: &str) -> (r: bool)
    ensures
        r == (a@ == b@),
{
    let x = a.as_bytes();
    let y = b.as_bytes();
    if x.len() != y.len() {
        return false;
    }
    let mut acc: u8 = 0;
    let mut i: usize = 0;
    while i < x.len()
        invariant
            i <= x@.len(),
            x@.len() == y@.len(),
            acc == 0 <==> forall|j: int| 0 <= j < i ==> x@[j] == y@[j],
        decreases x@.len() - i,
    {
        let p = x[i];
        let q = y[i];
        assert((acc | (p ^ q)) == 0u8 <==> (acc == 0u8 && p == q)) by (bit_vector);
        acc = acc | (p ^ q);
        i += 1;
    }
    proof {
        encode_utf8_decode_utf8(a@);
        encode_utf8_decode_utf8(b@);
        if acc == 0 {
            assert(x@ =~= y@);
        }
    }
    acc == 0
}

/// A header's value, or a stand-in where it is missing or empty.
fn fill(value: Option<String>, fallback: &String) -> (r: String)
    ensures
        r == filled(value, *fallback),
{
    match value {
        Some(v) => if v.as_str().is_empty() {
            fallback.clone()
        } else {
            v
        },
        None => fallback.clone(),
    }
}

/// Whom a request's headers speak for.
pub fn identify_headers(
    expected_secret: Option<&str>,
    presented: Option<String>,
    username: Option<String>,
    uid: Option<String>,
    name: Option<String>,
) -> (r: Option<ProxyUser>)
    ensures
        r == identity(
            match expected_secret {
                Some(e) => Some(e@),
                None => None,
            },
            presented,
            username,
            uid,
            name,
        ),
{
    let expected = match expected_secret {
        Some(e) => e,
        None => {
            return None;
        },
    };
    let presented = match presented {
        Some(p) => p,
        None => {
            return None;
        },
    };
    let username = match username {
        Some(u) => u,
        None => {
            return None;
        },
    };
    if !same_secret(presented.as_str(), expected) || username.as_str().is_empty() {
        return None;
    }
    let sub = fill(uid, &username);
    let display_name = fill(name, &username);
    Some(ProxyUser { sub, username, display_name })
}

/// A request presents the secret that is expected.
pub open spec fn presents(expected: Seq<char>, presented: Option<String>) -> bool {
    presented matches Some(p) && p@ == expected
}

/// A header that names a reader.
pub open spec fn names_reader(username: Option<String>) -> bool {
    username matches Some(u) && u@.len() > 0
}

/// The headers that may be asked for suffice: none where no secret is expected; else the
/// secret, the reader's name only where the request presented the secret that is
/// expected, and the other two only where it then named a reader.
pub open spec fn may_ask<F: Fn(&str) -> Option<String>>(expected_secret: Option<&str>, get: F) -> bool {
    match expected_secret {
        None => true,
        Some(e) => {
            &&& get.requires((PROXY_SECRET_HEADER,))
            &&& forall|p: Option<String>| #[trigger]
                get.ensures((PROXY_SECRET_HEADER,), p) && presents(e@, p) ==> {
                    &&& get.requires((USERNAME_HEADER,))
                    &&& forall|u: Option<String>| #[trigger]
                        get.ensures((USERNAME_HEADER,), u) && names_reader(u) ==> {
                            &&& get.requires((UID_HEADER,))
                            &&& get.requires((NAME_HEADER,))
                        }
                }
        },
    }
}

/// Whom a request speaks for that presented the secret, its other headers read by name.
pub open spec fn told_by<F: Fn(&str) -> Option<String>>(get: F, r: Option<ProxyUser>) -> bool {
    exists|u: Option<String>| #[trigger]
        get.ensures((USERNAME_HEADER,), u) && if names_reader(u) {
            exists|uid: Option<String>, name: Option<String>| #[trigger]
                get.ensures((UID_HEADER,), uid) && #[trigger] get.ensures((NAME_HEADER,), name) && r == Some(
                    ProxyUser {
                        sub: filled(uid, u->0),
                        username: u->0,
                        display_name: filled(name, u->0),
                    },
                )
        } else {
            r is None
        }
}

/// Whom a request speaks for, its headers read by lower-case name. Nothing is asked where
/// no secret is expected, and the headers that name a reader only once the secret that
/// was presented is the expected one.
pub fn identify<F: Fn(&str) -> Option<String>>(expected_secret: Option<&str>, get: F) -> (r: Option<
    ProxyUser,
>)
    requires
        may_ask(expected_secret, get),
    ensures
        match expected_secret {
            None => r is None,
            Some(e) => exists|p: Option<String>| #[trigger]
                get.ensures((PROXY_SECRET_HEADER,), p) && if presents(e@, p) {
                    told_by(get, r)
                } else {
                    r is None
                },
        },
{
    let expected = match expected_secret {
        Some(e) => e,
        None => {
            return None;
        },
    };
    let presented = get(PROXY_SECRET_HEADER);
    let believed = match &presented {
        Some(p) => same_secret(p.as_str(), expected),
        None => false,
    };
    if !believed {
        return None;
    }
    let named = get(USERNAME_HEADER);
    let ghost u = named;
    let username = match named {
        Some(u) => u,
        None => {
            assert(!names_reader(u));
            return None;
        },
    };
    if username.as_str().is_empty() {
        assert(!names_reader(u));
        return None;
    }
    assert(names_reader(u));
    let uid = get(UID_HEADER);
    let name = get(NAME_HEADER);
    let sub = fill(uid, &username);
    let display_name = fill(name, &username);
    Some(ProxyUser { sub, username, display_name })
}

/// What the headers say of a request is what `identify_headers` makes of them.
pub proof fn law_headers_speak_alike(
    expected: Seq<char>,
    presented: Option<String>,
    username: Option<String>,
    uid: Option<String>,
    name: Option<String>,
)
    ensures
        identity(Some(expected), presented, username, uid, name) == (if presents(expected, presented)
            && names_reader(username) {
            Some(
                ProxyUser {
                    sub: filled(uid, username->0),
                    username: username->0,
                    display_name: filled(name, username->0),
                },
            )
        } else {
            None
        }),
{
}

/// The secret to expect: the inline one, else what the file holds, both without the
/// white space around them; none where that is empty.
pub open spec fn secret_text(inline: Seq<char>, file: Option<Seq<char>>) -> Option<Seq<char>> {
    if trimmed(inline).len() > 0 {
        Some(trimmed(inline))
    } else {
        match file {
            Some(contents) => if trimmed(contents).len() > 0 {
                Some(trimmed(contents))
            } else {
                None
            },
            None => None,
        }
    }
}

/// The secret to expect, given the inline one and what the secret file holds, where it
/// can be read.
pub fn choose_secret(inline: &str, file: Option<&str>) -> (r: Option<String>)
    ensures
        match r {
            Some(s) => secret_text(
                inline@,
                match file {
                    Some(f) => Some(f@),
                    None => None,
                },
            ) == Some(s@),
            None => secret_text(
                inline@,
                match file {
                    Some(f) => Some(f@),
                    None => None,
                },
            ) is None,
        },
{
    let own = trim(inline);
    if !own.as_str().is_empty() {
        return Some(own);
    }
    match file {
        Some(contents) => {
            let secret = trim(contents);
            if secret.as_str().is_empty() {
                None
            } else {
                Some(secret)
            }
        },
        None => None,
    }
}

}
