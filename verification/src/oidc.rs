//! Sign-in through an identity provider: the authorization-code flow with a proof key.
//! What is sent to the provider, and which answers of the browser are believed.

use vstd::prelude::*;

use crate::config::AuthConfig;
use crate::digest::{base64_url, base64_url_of, lemma_base64_len, sha256, sha256_of};
use crate::links::{append_pairs, pair_texts, pairs_len, url_parsed, url_with_pairs, LINK_LIMIT};
use crate::live_pages::elapsed;
use crate::tables::{lemma_filter_contains, retain};
use crate::text::{join2, same, text_opt, trim_end_matches, without_suffixes};
use vstd::utf8::encode_utf8;

verus! {

/// How long a sign-in may take, in nanoseconds: ten minutes.
pub const PENDING_TTL: u64 = 600_000_000_000;

/// A sign-in that was begun, under the state that the browser has to bring back.
#[derive(Debug, PartialEq, Eq)]
pub struct PendingLogin {
    pub state: String,
    /// The proof key's secret half.
    pub verifier: String,
    /// When it was begun, in nanoseconds on a clock that never goes back.
    pub created_at: u64,
}

/// The sign-ins under way.
#[derive(Debug)]
pub struct PendingLogins {
    entries: Vec<PendingLogin>,
}

/// What the provider tells of who signed in.
#[derive(Debug, PartialEq, Eq)]
pub struct UserInfo {
    pub sub: String,
    pub preferred_username: Option<String>,
    pub name: Option<String>,
}

/// A provider, and how this server is known to it.
#[derive(Debug, PartialEq, Eq)]
pub struct OidcRuntime {
    pub issuer: String,
    pub client_id: String,
    pub client_secret: String,
}

/// The proof key's public half: the secret half's hash.
pub open spec fn challenge_text(verifier: Seq<char>) -> Seq<char> {
    base64_url(sha256(encode_utf8(verifier)))
}

/// Gives the proof key's public half.
pub fn code_challenge(verifier: &str) -> (r: String)
    ensures
        r@ == challenge_text(verifier@),
        r@.len() == 43,
{
    let hash = sha256_of(verifier.as_bytes());
    proof {
        lemma_base64_len(hash@);
    }
    base64_url_of(&hash)
}

impl OidcRuntime {
    /// The provider that is configured, if one is. One without this server's name or
    /// secret is refused.
    pub fn from_config(config: &AuthConfig) -> (r: Result<Option<OidcRuntime>, String>)
        ensures
            match config.issuer {
                None => r matches Ok(None),
                Some(issuer) => if config.client_id@.len() == 0 || config.client_secret@.len() == 0 {
                    r matches Err(m) && m@
                        == "[auth] issuer is set but client_id/client_secret are empty"@
                } else {
                    r matches Ok(Some(o)) && o.issuer == issuer && o.client_id == config.client_id
                        && o.client_secret == config.client_secret
                },
            },
    {
        match &config.issuer {
            None => Ok(None),
            Some(issuer) => {
                if config.client_id.as_str().unicode_len() == 0
                    || config.client_secret.as_str().unicode_len() == 0 {
                    return Err(
                        "[auth] issuer is set but client_id/client_secret are empty".to_owned(),
                    );
                }
                Ok(
                    Some(
                        OidcRuntime {
                            issuer: issuer.clone(),
                            client_id: config.client_id.clone(),
                            client_secret: config.client_secret.clone(),
                        },
                    ),
                )
            },
        }
    }

    /// Where the provider describes itself.
    pub fn discovery_url(&self) -> (r: String)
        ensures
            r@ == discovery_text(self.issuer@),
    {
        well_known(self.issuer.as_str())
    }

    /// The address to send the browser to, where the provider's is one.
    pub fn authorization_url(
        &self,
        endpoint: &str,
        redirect_uri: &str,
        state: &str,
        verifier: &str,
    ) -> (r: Option<String>)
        requires
            endpoint@.len() + self.client_id@.len() + redirect_uri@.len() + state@.len() + 256
                <= LINK_LIMIT,
        ensures
            text_opt(r) == url_with_pairs(
                endpoint@,
                authorization_pairs(self.client_id@, redirect_uri@, "openid profile"@, state@, verifier@),
            ),
            r is Some <==> url_parsed(endpoint@) is Some,
    {
        let pairs = authorization_query(
            self.client_id.as_str(),
            redirect_uri,
            "openid profile",
            state,
            verifier,
        );
        proof {
            lemma_authorization_len(
                self.client_id@,
                redirect_uri@,
                "openid profile"@,
                state@,
                verifier@,
            );
            reveal_strlit("openid profile");
        }
        append_pairs(endpoint, &pairs)
    }

    /// What is posted to the provider for a code.
    pub fn token_form(&self, code: &str, redirect_uri: &str, verifier: &str) -> (r: Vec<(String, String)>)
        ensures
            pair_texts(r@) == seq![
                ("grant_type"@, "authorization_code"@),
                ("code"@, code@),
                ("redirect_uri"@, redirect_uri@),
                ("client_id"@, self.client_id@),
                ("client_secret"@, self.client_secret@),
                ("code_verifier"@, verifier@),
            ],
    {
        let mut pairs: Vec<(String, String)> = Vec::new();
        pairs.push(("grant_type".to_owned(), "authorization_code".to_owned()));
        pairs.push(("code".to_owned(), code.to_owned()));
        pairs.push(("redirect_uri".to_owned(), redirect_uri.to_owned()));
        pairs.push(("client_id".to_owned(), self.client_id.clone()));
        pairs.push(("client_secret".to_owned(), self.client_secret.clone()));
        pairs.push(("code_verifier".to_owned(), verifier.to_owned()));
        assert(pair_texts(pairs@) =~= seq![
            ("grant_type"@, "authorization_code"@),
            ("code"@, code@),
            ("redirect_uri"@, redirect_uri@),
            ("client_id"@, self.client_id@),
            ("client_secret"@, self.client_secret@),
            ("code_verifier"@, verifier@),
        ]);
        pairs
    }
}

/// Where a provider describes itself.
pub open spec fn discovery_text(issuer: Seq<char>) -> Seq<char> {
    without_suffixes(issuer, "/"@) + "/.well-known/openid-configuration"@
}

/// Gives the address where a provider describes itself.
pub fn well_known(issuer: &str) -> (r: String)
    ensures
        r@ == discovery_text(issuer@),
{
    let base = trim_end_matches(issuer, "/");
    join2(base.as_str(), "/.well-known/openid-configuration")
}

/// What the browser is sent to the provider with.
pub open spec fn authorization_pairs(
    client_id: Seq<char>,
    redirect_uri: Seq<char>,
    scope: Seq<char>,
    state: Seq<char>,
    verifier: Seq<char>,
) -> Seq<(Seq<char>, Seq<char>)> {
    seq![
        ("response_type"@, "code"@),
        ("client_id"@, client_id),
        ("redirect_uri"@, redirect_uri),
        ("scope"@, scope),
        ("state"@, state),
        ("code_challenge"@, challenge_text(verifier)),
        ("code_challenge_method"@, "S256"@),
    ]
}

/// Collects what the browser is sent to the provider with.
pub fn authorization_query(
    client_id: &str,
    redirect_uri: &str,
    scope: &str,
    state: &str,
    verifier: &str,
) -> (r: Vec<(String, String)>)
    ensures
        pair_texts(r@) == authorization_pairs(client_id@, redirect_uri@, scope@, state@, verifier@),
        challenge_text(verifier@).len() == 43,
{
    let mut pairs: Vec<(String, String)> = Vec::new();
    pairs.push(("response_type".to_owned(), "code".to_owned()));
    pairs.push(("client_id".to_owned(), client_id.to_owned()));
    pairs.push(("redirect_uri".to_owned(), redirect_uri.to_owned()));
    pairs.push(("scope".to_owned(), scope.to_owned()));
    pairs.push(("state".to_owned(), state.to_owned()));
    pairs.push(("code_challenge".to_owned(), code_challenge(verifier)));
    pairs.push(("code_challenge_method".to_owned(), "S256".to_owned()));
    assert(pair_texts(pairs@) =~= authorization_pairs(
        client_id@,
        redirect_uri@,
        scope@,
        state@,
        verifier@,
    ));
    pairs
}

/// The length of what the browser is sent to the provider with.
proof fn lemma_authorization_len(
    client_id: Seq<char>,
    redirect_uri: Seq<char>,
    scope: Seq<char>,
    state: Seq<char>,
    verifier: Seq<char>,
)
    requires
        challenge_text(verifier).len() == 43,
    ensures
        pairs_len(authorization_pairs(client_id, redirect_uri, scope, state, verifier))
            <= client_id.len() + redirect_uri.len() + scope.len() + state.len() + 200,
{
    reveal_strlit("response_type");
    reveal_strlit("code");
    reveal_strlit("client_id");
    reveal_strlit("redirect_uri");
    reveal_strlit("scope");
    reveal_strlit("state");
    reveal_strlit("code_challenge");
    reveal_strlit("code_challenge_method");
    reveal_strlit("S256");
    let p = authorization_pairs(client_id, redirect_uri, scope, state, verifier);
    assert(p.take(7) =~= p);
    assert(p.take(0) =~= Seq::empty());
    assert(p.take(1).drop_last() =~= p.take(0));
    assert(p.take(2).drop_last() =~= p.take(1));
    assert(p.take(3).drop_last() =~= p.take(2));
    assert(p.take(4).drop_last() =~= p.take(3));
    assert(p.take(5).drop_last() =~= p.take(4));
    assert(p.take(6).drop_last() =~= p.take(5));
    assert(p.take(7).drop_last() =~= p.take(6));
    reveal_with_fuel(pairs_len, 8);
}

// ---- sign-ins under way ----

/// A sign-in that may still come back.
pub open spec fn still_open(p: PendingLogin, now: u64) -> bool {
    elapsed(p.created_at, now) < PENDING_TTL
}

/// The sign-in begun under a state: where there are several, the latest.
pub open spec fn begun_under(s: Seq<PendingLogin>, state: Seq<char>) -> Option<PendingLogin>
    decreases s.len(),
{
    if s.len() == 0 {
        None
    } else if s.last().state@ == state {
        Some(s.last())
    } else {
        begun_under(s.drop_last(), state)
    }
}

/// The sign-ins but for those under a state.
pub open spec fn without_state(s: Seq<PendingLogin>, state: Seq<char>) -> Seq<PendingLogin> {
    s.filter(|p: PendingLogin| p.state@ != state)
}

impl View for PendingLogins {
    type V = Seq<PendingLogin>;

    closed spec fn view(&self) -> Seq<PendingLogin> {
        self.entries@
    }
}

impl Default for PendingLogins {
    fn default() -> (r: Self)
        ensures
            r@ == Seq::<PendingLogin>::empty(),
    {
        PendingLogins { entries: Vec::new() }
    }
}

impl PendingLogins {
    /// Remembers a sign-in under its state. Those that took too long are forgotten, and
    /// so is one under the same state.
    pub fn begin(&mut self, state: &str, verifier: &str, now: u64)
        ensures
            final(self)@.len() > 0,
            final(self)@.drop_last() == without_state(
                old(self)@.filter(|p: PendingLogin| still_open(p, now)),
                state@,
            ),
            final(self)@.last().state@ == state@,
            final(self)@.last().verifier@ == verifier@,
            final(self)@.last().created_at == now,
            begun_under(final(self)@, state@) == Some(final(self)@.last()),
    {
        let open = |p: &PendingLogin| -> (b: bool)
            ensures b == still_open(*p, now)
        {
            let age: u64 = if now >= p.created_at {
                now - p.created_at
            } else {
                0
            };
            age < PENDING_TTL
        };
        retain(&mut self.entries, open, Ghost(|p: PendingLogin| still_open(p, now)));
        assert(self.entries@ =~= old(self)@.filter(|p: PendingLogin| still_open(p, now)));
        self.forget(state);
        let ghost kept = self.entries@;
        self.entries.push(
            PendingLogin { state: state.to_owned(), verifier: verifier.to_owned(), created_at: now },
        );
        assert(self.entries@.drop_last() =~= kept);
    }

    fn forget(&mut self, state: &str)
        ensures
            final(self)@ == without_state(old(self)@, state@),
    {
        let other = |p: &PendingLogin| -> (b: bool)
            ensures b == (p.state@ != state@)
        {
            !same(p.state.as_str(), state)
        };
        retain(&mut self.entries, other, Ghost(|p: PendingLogin| p.state@ != state@));
        assert(self.entries@ =~= without_state(old(self)@, state@));
    }

    /// Takes the sign-in that a browser brings back: its verifier, where the state is one
    /// that was begun and is still open. Either way the state is used up.
    pub fn complete(&mut self, state: &str, now: u64) -> (r: Result<String, String>)
        ensures
            final(self)@ == without_state(old(self)@, state@),
            match begun_under(old(self)@, state@) {
                None => r matches Err(m) && m@ == "unknown or expired login state"@,
                Some(p) => if still_open(p, now) {
                    r matches Ok(v) && v == p.verifier
                } else {
                    r matches Err(m) && m@ == "login took too long, try again"@
                },
            },
    {
        let ghost all = self.entries@;
        let mut i: usize = self.entries.len();
        let mut found: Option<(String, u64)> = None;
        assert(all.take(all.len() as int) =~= all);
        while i > 0 && found.is_none()
            invariant
                self.entries@ == all,
                i <= all.len(),
                match found {
                    None => begun_under(all, state@) == begun_under(all.take(i as int), state@),
                    Some(f) => begun_under(all, state@) matches Some(p) && p.verifier == f.0
                        && p.created_at == f.1,
                },
            decreases i,
        {
            assert(all.take(i as int).drop_last() =~= all.take(i - 1));
            assert(all.take(i as int).last() == all[i - 1]);
            i -= 1;
            if same(self.entries[i].state.as_str(), state) {
                found = Some((self.entries[i].verifier.clone(), self.entries[i].created_at));
            }
        }
        proof {
            if found is None {
                assert(all.take(0) =~= Seq::empty());
            }
        }
        self.forget(state);
        match found {
            None => Err("unknown or expired login state".to_owned()),
            Some(f) => {
                let age: u64 = if now >= f.1 {
                    now - f.1
                } else {
                    0
                };
                if age < PENDING_TTL {
                    Ok(f.0)
                } else {
                    Err("login took too long, try again".to_owned())
                }
            },
        }
    }
}

/// A state is believed once: after it came back there is no sign-in under it.
pub proof fn law_states_are_used_up(s: Seq<PendingLogin>, state: Seq<char>)
    ensures
        begun_under(without_state(s, state), state) is None,
{
    let kept = without_state(s, state);
    lemma_filter_contains(s, |p: PendingLogin| p.state@ != state);
    assert forall|i: int| 0 <= i < kept.len() implies (#[trigger] kept[i]).state@ != state by {
        assert(kept.contains(kept[i]));
    }
    lemma_none_under(kept, state);
}

proof fn lemma_none_under(s: Seq<PendingLogin>, state: Seq<char>)
    requires
        forall|i: int| 0 <= i < s.len() ==> (#[trigger] s[i]).state@ != state,
    ensures
        begun_under(s, state) is None,
    decreases s.len(),
{
    if s.len() > 0 {
        let d = s.drop_last();
        assert(s[s.len() - 1].state@ != state);
        assert forall|i: int| 0 <= i < d.len() implies (#[trigger] d[i]).state@ != state by {
            assert(s[i] == d[i]);
        }
        lemma_none_under(d, state);
    }
}

/// Using a state up takes the sign-ins under it, and leaves every other.
pub proof fn law_other_sign_ins_stay(s: Seq<PendingLogin>, state: Seq<char>, x: PendingLogin)
    ensures
        without_state(s, state).contains(x) <==> s.contains(x) && x.state@ != state,
    decreases s.len(),
{
    reveal(Seq::filter);
    if s.len() > 0 {
        let d = s.drop_last();
        law_other_sign_ins_stay(d, state, x);
        let before = without_state(d, state);
        let all = without_state(s, state);
        assert(s[s.len() - 1] == s.last());
        assert(all == (if s.last().state@ != state {
            before.push(s.last())
        } else {
            before
        }));
        if all.contains(x) {
            let n = choose|n: int| 0 <= n < all.len() && all[n] == x;
            if n < before.len() {
                assert(before[n] == x);
                assert(before.contains(x));
                let k = choose|k: int| 0 <= k < d.len() && d[k] == x;
                assert(s[k] == x);
            }
        }
        if s.contains(x) && x.state@ != state {
            let k = choose|k: int| 0 <= k < s.len() && s[k] == x;
            if k < d.len() {
                assert(d[k] == x);
                assert(d.contains(x));
                let n = choose|n: int| 0 <= n < before.len() && before[n] == x;
                assert(all[n] == x);
            } else {
                assert(all[before.len() as int] == x);
            }
        }
    }
}

/// The name and the shown name of who signed in: the provider's, and its subject where
/// it gives none.
pub open spec fn names_of(claims: UserInfo) -> (Seq<char>, Seq<char>) {
    let username = match claims.preferred_username {
        Some(u) => u@,
        None => claims.sub@,
    };
    (
        username,
        match claims.name {
            Some(n) => n@,
            None => username,
        },
    )
}

/// Gives the name and the shown name of who signed in.
pub fn account_names(claims: &UserInfo) -> (r: (String, String))
    ensures
        (r.0@, r.1@) == names_of(*claims),
{
    let username = match &claims.preferred_username {
        Some(u) => u.clone(),
        None => claims.sub.clone(),
    };
    let shown = match &claims.name {
        Some(n) => n.clone(),
        None => username.clone(),
    };
    (username, shown)
}

}
