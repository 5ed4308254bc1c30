//! Sign-in from the shell: the browser comes back through an address of the shell's own.

use vstd::prelude::*;

use crate::clock::Timestamp;
use crate::digest::{base64_url, base64_url_of};
use crate::links::{
    base_text, base_url, form_encoded, form_of, join_url, pair_texts, read_url, url_joined, url_parsed, UrlParts, UrlView,
    TEXT_LIMIT,
};
use crate::oidc::{authorization_pairs, authorization_query};
use crate::text::{join3, same, text_opt};

verus! {

/// The address that the provider sends the browser back to.
pub const REDIRECT_URI: &'static str = "xyz.tdbm.yomu://auth/callback";

/// A sign-in under way.
#[derive(Debug, PartialEq, Eq)]
pub struct Pending {
    pub verifier: String,
    pub state: String,
    pub server: String,
    pub issuer: String,
    pub client_id: String,
}

/// How the sign-in stands, for the frontend.
#[derive(Debug, PartialEq, Eq)]
pub struct AuthStatus {
    pub token: Option<String>,
    pub status: Option<String>,
}

/// Bytes of `rand`'s thread generator, by `RngCore::fill_bytes`. They differ from call to
/// call; the claim is only how many there are.
#[verifier::external_body]
pub(crate) fn random_bytes(n: u16) -> (r: Vec<u8>)
    ensures
        r@.len() == n,
{
    let mut bytes = vec![0u8; n.into()];
    rand::RngCore::fill_bytes(&mut rand::thread_rng(), &mut bytes);
    bytes
}

/// A random token: thirty-two bytes in base 64.
pub fn random_token() -> (r: String)
    ensures
        exists|bytes: Seq<u8>| bytes.len() == 32 && r@ == #[trigger] base64_url(bytes),
        r@.len() == 43,
{
    let bytes = random_bytes(32);
    proof {
        crate::digest::lemma_base64_len(bytes@);
    }
    base64_url_of(&bytes)
}

/// The address to send the browser to.
pub open spec fn authorize_text(endpoint: Seq<char>, p: Pending) -> Seq<char> {
    endpoint + "?"@ + form_of(
        authorization_pairs(
            p.client_id@,
            REDIRECT_URI@,
            "openid profile email"@,
            p.state@,
            p.verifier@,
        ),
    )
}

/// Gives the address to send the browser to.
pub fn authorize_url(endpoint: &str, pending: &Pending) -> (r: String)
    ensures
        r@ == authorize_text(endpoint@, *pending),
{
    let pairs = authorization_query(
        pending.client_id.as_str(),
        REDIRECT_URI,
        "openid profile email",
        pending.state.as_str(),
        pending.verifier.as_str(),
    );
    let query = form_encoded(&pairs);
    join3(endpoint, "?", query.as_str())
}

/// The value that the last pair of a name gives it.
pub open spec fn last_value_of(pairs: Seq<(Seq<char>, Seq<char>)>, name: Seq<char>) -> Option<Seq<char>>
    decreases pairs.len(),
{
    if pairs.len() == 0 {
        None
    } else if pairs.last().0 == name {
        Some(pairs.last().1)
    } else {
        last_value_of(pairs.drop_last(), name)
    }
}

/// Finds the value that the last pair of a name gives it.
fn last_value(pairs: &Vec<(String, String)>, name: &str) -> (r: Option<String>)
    ensures
        text_opt(r) == last_value_of(pair_texts(pairs@), name@),
{
    let ghost all = pair_texts(pairs@);
    let mut found: Option<String> = None;
    let mut i: usize = 0;
    assert(all.take(0) =~= Seq::empty());
    while i < pairs.len()
        invariant
            all == pair_texts(pairs@),
            i <= pairs@.len(),
            text_opt(found) == last_value_of(all.take(i as int), name@),
        decreases pairs@.len() - i,
    {
        assert(all.take(i + 1).drop_last() =~= all.take(i as int));
        assert(all.take(i + 1).last() == (pairs@[i as int].0@, pairs@[i as int].1@));
        if same(pairs[i].0.as_str(), name) {
            found = Some(pairs[i].1.clone());
        }
        i += 1;
    }
    assert(all.take(all.len() as int) =~= all);
    found
}

/// The code and the state that an address brings back, where it is the shell's own and
/// brings both.
pub open spec fn callback_of(parsed: Option<UrlView>) -> Option<(Seq<char>, Seq<char>)> {
    match parsed {
        None => None,
        Some(u) => if u.scheme != "xyz.tdbm.yomu"@ || u.host != Some("auth"@) || u.path != "/callback"@ {
            None
        } else {
            match (last_value_of(u.pairs, "code"@), last_value_of(u.pairs, "state"@)) {
                (Some(code), Some(state)) => Some((code, state)),
                _ => None,
            }
        },
    }
}

/// Takes the code and the state out of an address, where it is the shell's own.
pub fn parse_callback(raw: &str) -> (r: Option<(String, String)>)
    ensures
        match callback_of(url_parsed(raw@)) {
            Some((code, state)) => r matches Some(x) && x.0@ == code && x.1@ == state,
            None => r is None,
        },
{
    match read_url(raw) {
        None => None,
        Some(u) => callback_in(&u),
    }
}

/// Takes the code and the state out of an address that was taken apart.
pub fn callback_in(u: &UrlParts) -> (r: Option<(String, String)>)
    ensures
        match callback_of(Some(u@)) {
            Some((code, state)) => r matches Some(x) && x.0@ == code && x.1@ == state,
            None => r is None,
        },
{
    if !same(u.scheme.as_str(), "xyz.tdbm.yomu") {
        return None;
    }
    let ours = match &u.host {
        Some(h) => same(h.as_str(), "auth"),
        None => false,
    };
    if !ours || !same(u.path.as_str(), "/callback") {
        return None;
    }
    assert(u@.pairs == pair_texts(u.pairs@));
    match (last_value(&u.pairs, "code"), last_value(&u.pairs, "state")) {
        (Some(code), Some(state)) => Some((code, state)),
        _ => None,
    }
}

/// Decides whether a browser that came back is believed: a sign-in is under way, and the
/// state is its own.
pub fn check_callback(pending: &Option<Pending>, state: &str) -> (r: Result<(), String>)
    ensures
        match pending {
            None => r matches Err(m) && m@ == "no sign-in is in progress"@,
            Some(p) => if p.state@ == state@ {
                r is Ok
            } else {
                r matches Err(m) && m@ == "sign-in state did not match; ignoring callback"@
            },
        },
{
    match pending {
        None => Err("no sign-in is in progress".to_owned()),
        Some(p) => {
            if same(p.state.as_str(), state) {
                Ok(())
            } else {
                Err("sign-in state did not match; ignoring callback".to_owned())
            }
        },
    }
}

/// The address at which a code is exchanged for a session.
pub open spec fn exchange_text(server: Seq<char>, parsed: Option<UrlView>) -> Option<Seq<char>> {
    match base_text(server, parsed) {
        None => None,
        Some(base) => url_joined(base, "api/v1/auth/exchange"@),
    }
}

/// Gives the address at which a code is exchanged for a session.
pub fn exchange_url(server: &str) -> (r: Option<String>)
    requires
        server@.len() <= TEXT_LIMIT,
    ensures
        text_opt(r) == exchange_text(server@, url_parsed(server@)),
{
    match base_url(server) {
        None => None,
        Some(base) => join_url(base.as_str(), "api/v1/auth/exchange"),
    }
}

/// How the sign-in stands: the token counts only while it has not expired.
pub fn auth_status(
    token: Option<String>,
    expires_at: Option<Timestamp>,
    status: Option<String>,
    now: Timestamp,
) -> (r: AuthStatus)
    ensures
        r == (AuthStatus {
            token: if expires_at is Some && now.lt(expires_at->0) {
                token
            } else {
                None
            },
            status,
        }),
{
    let good = match expires_at {
        Some(at) => now.before(&at),
        None => false,
    };
    AuthStatus {
        token: if good {
            token
        } else {
            None
        },
        status,
    }
}

}
