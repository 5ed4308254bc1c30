//! Who is asking: tokens, sessions, the proxy and the identity provider.

use yomu::api::auth::{callback_uri, lasting_days, logout, me, session_cookie, sign_in_at, write_cookie};
use yomu::auth::{
    is_public, media_token_param, new_token, request_token, require_auth_at, resolve_at, takes_media_token, token_hash, Admission, Credentials,
};
use yomu::clock::Timestamp;
use yomu::config::AuthConfig;
use yomu::db::Db;
use yomu::domain::users::AuthMode;
use yomu::ids::Uuid;
use yomu::media_token::Key;
use yomu::oidc::{account_names, code_challenge, well_known, OidcRuntime, PendingLogins, UserInfo, PENDING_TTL};
use yomu::proxy_identity::{
    choose_secret, identify, NAME_HEADER, PROXY_SECRET_HEADER, UID_HEADER, USERNAME_HEADER,
};
use std::collections::HashMap;

#[test]
fn request_token_prefers_bearer_over_cookie() {
    let cookie = Some("a=b; yomu_session=cookie-tok");
    assert_eq!(request_token(None, cookie).as_deref(), Some("cookie-tok"));
    assert_eq!(request_token(Some("Bearer bearer-tok"), cookie).as_deref(), Some("bearer-tok"));
}

#[test]
fn only_the_sign_in_surface_is_public() {
    assert!(is_public("/health"));
    assert!(is_public("/auth/me"));
    assert!(is_public("/auth/login"));
    assert!(is_public("/auth/callback"));
    assert!(is_public("/auth/exchange"));
    assert!(is_public("/auth/logout"));

    assert!(!is_public("/library"));
    assert!(!is_public("/publications/0199-abc"));
    assert!(!is_public("/units/0199-abc/pages/3"));
    assert!(!is_public("/sources"));
    assert!(!is_public("/auth/media-token"));
}

#[test]
fn public_paths_match_exactly() {
    assert!(!is_public("/health/../library"));
    assert!(!is_public("/healthz"));
    assert!(!is_public("/auth/me/library"));
    assert!(!is_public(""));
}

#[test]
fn image_routes_take_a_media_token_but_are_not_public() {
    assert!(!is_public("/publications/0199-abc/cover"));
    assert!(takes_media_token("/publications/0199-abc/cover"));
    assert!(takes_media_token("/units/0199-abc/pages/12"));
    assert!(!takes_media_token("/units/0199-abc/pages"));
    assert!(!takes_media_token("/library"));
    assert!(!takes_media_token("/publications/0199-abc"));
}

#[test]
fn tokens_hash_stably() {
    let token = new_token();
    assert_eq!(token.len(), 64);
    assert_eq!(token_hash(&token), token_hash(&token));
    assert_ne!(token_hash(&token), token_hash("other"));
    assert_eq!(
        token_hash("abc"),
        "ba7816bf8f01cfea414140de5dae2223b00361a396177a9cb410ff61f20015ad"
    );
}

#[test]
fn media_tokens_ride_in_the_query() {
    assert_eq!(media_token_param(Some("a=1&mt=tok")).as_deref(), Some("tok"));
    assert_eq!(media_token_param(Some("a=1")), None);
    assert_eq!(media_token_param(None), None);
}

// ---- media tokens ----

fn key() -> Key {
    Key::generate()
}

#[test]
fn a_fresh_token_verifies_for_its_own_user() {
    let key = key();
    let user: Uuid = 7;
    let token = key.mint(user, 3600);
    assert_eq!(key.verify(&token, 0), Some(user));
}

#[test]
fn a_tampered_token_is_rejected() {
    let key = key();
    let token = key.mint(7, 3600);
    let forged = token.replace(&format!("{:032x}", 7), &format!("{:032x}", 8));
    assert_ne!(forged, token);
    assert_eq!(key.verify(&forged, 0), None);
}

#[test]
fn an_expired_token_is_rejected() {
    let key = key();
    let token = key.mint(7, 60);
    assert_eq!(key.verify(&token, 61), None);
}

#[test]
fn another_key_does_not_verify_this_token() {
    let token = key().mint(7, 3600);
    assert_eq!(key().verify(&token, 0), None);
}

#[test]
fn malformed_tokens_are_rejected_rather_than_panicking() {
    let key = key();
    for bad in ["", ".", "a.b", "a.b.c", "....", "zz.1.2"] {
        assert_eq!(key.verify(bad, 0), None, "{bad:?}");
    }
}

#[test]
fn a_token_is_the_payload_and_its_tag() {
    let key = Key::from_bytes(b"key".to_vec());
    let token = key.mint_at(7, 1000, 60);
    let (payload, tag) = token.rsplit_once('.').unwrap();
    assert_eq!(payload, "00000000000000000000000000000007.1060");
    assert_eq!(tag.len(), 64);
    assert_eq!(key.verify_at(&token, 1059, 0), Some(7));
    assert_eq!(key.verify_at(&token, 1060, 0), None);
    assert_eq!(key.verify_at(&token, 1000, 60), None);
}

// ---- the proxy ----

fn headers(pairs: &[(&str, &str)]) -> impl Fn(&str) -> Option<String> {
    let map: HashMap<String, String> =
        pairs.iter().map(|(k, v)| (k.to_string(), v.to_string())).collect();
    move |name: &str| map.get(name).cloned()
}

fn signed(secret: &str) -> impl Fn(&str) -> Option<String> {
    headers(&[
        (PROXY_SECRET_HEADER, secret),
        (UID_HEADER, "uid-1"),
        (USERNAME_HEADER, "tibo"),
        (NAME_HEADER, "Tibo"),
    ])
}

#[test]
fn a_correctly_stamped_request_is_believed() {
    let user = identify(Some("s3cret"), signed("s3cret")).unwrap();
    assert_eq!(user.sub, "uid-1");
    assert_eq!(user.username, "tibo");
    assert_eq!(user.display_name, "Tibo");
}

#[test]
fn identity_headers_alone_prove_nothing() {
    let forged = headers(&[(UID_HEADER, "uid-1"), (USERNAME_HEADER, "tibo"), (NAME_HEADER, "Tibo")]);
    assert_eq!(identify(Some("s3cret"), forged), None);
    assert_eq!(identify(Some("s3cret"), signed("wrong")), None);
    assert_eq!(identify(Some("s3cret"), signed("s3crat")), None);
}

#[test]
fn without_a_configured_secret_nothing_is_believed() {
    assert_eq!(identify(None, signed("s3cret")), None);
}

#[test]
fn a_stamped_request_without_a_username_is_not_an_identity() {
    assert_eq!(
        identify(
            Some("s3cret"),
            headers(&[(PROXY_SECRET_HEADER, "s3cret"), (USERNAME_HEADER, "")])
        ),
        None
    );
    assert_eq!(identify(Some("s3cret"), headers(&[(PROXY_SECRET_HEADER, "s3cret")])), None);
}

#[test]
fn a_missing_uid_falls_back_to_the_username() {
    let user = identify(
        Some("s3cret"),
        headers(&[(PROXY_SECRET_HEADER, "s3cret"), (USERNAME_HEADER, "tibo")]),
    )
    .unwrap();
    assert_eq!(user.sub, "tibo");
    assert_eq!(user.display_name, "tibo");
}

#[test]
fn an_empty_secret_file_disables_the_path() {
    assert_eq!(choose_secret("", Some("   \n")), None);
    assert_eq!(choose_secret("", Some("s3cret\n")).as_deref(), Some("s3cret"));
    assert_eq!(choose_secret("", None), None);
    assert_eq!(choose_secret("  ", None), None);
    assert_eq!(choose_secret("from-env", Some("s3cret\n")).as_deref(), Some("from-env"));
}

// ---- entering ----

fn now() -> Timestamp {
    Timestamp { secs: 1_767_225_600, nanos: 0 }
}

fn nothing() -> Credentials {
    Credentials {
        authorization: None,
        cookie: None,
        proxy_secret: None,
        proxy_username: None,
        proxy_uid: None,
        proxy_name: None,
    }
}

#[test]
fn everyone_is_the_shared_account_without_a_provider() {
    let mut db = Db::in_memory();
    let user = resolve_at(&mut db, false, None, nothing(), 1, &Vec::new(), now()).unwrap();
    assert_eq!(user.id, 0);
    assert!(resolve_at(&mut db, true, None, nothing(), 1, &Vec::new(), now()).is_none());
}

#[test]
fn sessions_and_the_proxy_let_readers_in() {
    let mut db = Db::in_memory();
    let claims = UserInfo {
        sub: "sub-1".to_string(),
        preferred_username: Some("Alice".to_string()),
        name: None,
    };
    let user = sign_in_at(&mut db, &claims, "tok", 90, 11, &Vec::new(), now()).unwrap();
    assert_eq!((user.username.as_str(), user.display_name.as_str()), ("alice", "Alice"));
    let mut with_cookie = nothing();
    with_cookie.cookie = Some("yomu_session=tok".to_string());
    let found = resolve_at(&mut db, true, None, with_cookie, 1, &Vec::new(), now()).unwrap();
    assert_eq!(found.id, 11);
    let mut stamped = nothing();
    stamped.proxy_secret = Some("s3cret".to_string());
    stamped.proxy_username = Some("bob".to_string());
    let bob = resolve_at(&mut db, true, Some("s3cret"), stamped, 12, &Vec::new(), now()).unwrap();
    assert_eq!((bob.id, bob.username.as_str()), (12, "bob"));

    logout(&mut db, Some("tok"));
    let mut with_cookie = nothing();
    with_cookie.cookie = Some("yomu_session=tok".to_string());
    assert!(resolve_at(&mut db, true, None, with_cookie, 1, &Vec::new(), now()).is_none());
    logout(&mut db, None);
}

#[test]
fn routes_are_closed_unless_named() {
    let db = Db::in_memory();
    let key = key();
    assert_eq!(require_auth_at(&db, &key, None, "/library", None, 5), Admission::Refused);
    assert!(matches!(require_auth_at(&db, &key, None, "/health", None, 5), Admission::Enter(None)));
    let query = format!("mt={}", key.mint_at(0, 0, 60));
    assert!(matches!(
        require_auth_at(&db, &key, None, "/units/x/pages/1", Some(&query), 5),
        Admission::Enter(Some(_))
    ));
    assert_eq!(
        require_auth_at(&db, &key, None, "/units/x/pages/1", Some(&query), 60),
        Admission::Refused
    );
    assert_eq!(require_auth_at(&db, &key, None, "/library", Some(&query), 5), Admission::Refused);
    let user = db.user_by_id(0).unwrap();
    assert!(matches!(
        require_auth_at(&db, &key, Some(user), "/library", None, 5),
        Admission::Enter(Some(_))
    ));
}

// ---- the identity provider ----

#[test]
fn challenge_matches_rfc_7636() {
    assert_eq!(
        code_challenge("dBjftJeZ4CVP-mB92K27uhbUJU1p1r_wW1gFWFOEjXk"),
        "E9Melhoa2OwvFrEMTJguCHaoeK1t8URWbuGJSstw-cM"
    );
}

fn provider() -> OidcRuntime {
    let mut config = AuthConfig::default();
    config.issuer = Some("https://auth.example.com/o/yomu/".to_string());
    config.client_id = "yomu".to_string();
    config.client_secret = "hush".to_string();
    OidcRuntime::from_config(&config).unwrap().unwrap()
}

#[test]
fn a_provider_needs_a_client() {
    assert_eq!(OidcRuntime::from_config(&AuthConfig::default()), Ok(None));
    let mut config = AuthConfig::default();
    config.issuer = Some("https://auth.example.com/".to_string());
    assert_eq!(
        OidcRuntime::from_config(&config),
        Err("[auth] issuer is set but client_id/client_secret are empty".to_string())
    );
    assert_eq!(
        provider().discovery_url(),
        "https://auth.example.com/o/yomu/.well-known/openid-configuration"
    );
    assert_eq!(well_known("https://a//"), "https://a/.well-known/openid-configuration");
}

#[test]
fn browsers_are_sent_to_the_provider() {
    let url = provider()
        .authorization_url("https://auth.example.com/authorize", "http://x/cb", "st", "ver")
        .unwrap();
    assert!(url.starts_with(
        "https://auth.example.com/authorize?response_type=code&client_id=yomu&redirect_uri=http%3A%2F%2Fx%2Fcb&scope=openid+profile&state=st&code_challenge="
    ));
    assert!(url.ends_with("&code_challenge_method=S256"));
    assert!(provider().authorization_url("not an address", "r", "s", "v").is_none());
    let form = provider().token_form("c", "http://x/cb", "ver");
    assert_eq!(form.len(), 6);
    assert_eq!(form[5], ("code_verifier".to_string(), "ver".to_string()));
}

#[test]
fn a_login_state_is_believed_once_and_for_a_while() {
    let mut pending = PendingLogins::default();
    pending.begin("s1", "v1", 0);
    pending.begin("s2", "v2", 10);
    assert_eq!(pending.complete("s1", PENDING_TTL - 1), Ok("v1".to_string()));
    assert_eq!(pending.complete("s1", 20), Err("unknown or expired login state".to_string()));
    assert_eq!(
        pending.complete("s2", 10 + PENDING_TTL),
        Err("login took too long, try again".to_string())
    );
    pending.begin("old", "v", 0);
    pending.begin("new", "v", PENDING_TTL);
    assert_eq!(pending.complete("old", PENDING_TTL), Err("unknown or expired login state".to_string()));
}

#[test]
fn names_fall_back_to_the_subject() {
    let claims = UserInfo { sub: "s".to_string(), preferred_username: None, name: None };
    assert_eq!(account_names(&claims), ("s".to_string(), "s".to_string()));
    let claims = UserInfo {
        sub: "s".to_string(),
        preferred_username: Some("u".to_string()),
        name: Some("N".to_string()),
    };
    assert_eq!(account_names(&claims), ("u".to_string(), "N".to_string()));
}

#[test]
fn callbacks_and_cookies() {
    assert_eq!(
        callback_uri(Some("https://yomu.example/"), None, None, None, "0.0.0.0:4700"),
        "https://yomu.example/api/v1/auth/callback"
    );
    assert_eq!(
        callback_uri(None, Some("https"), Some("a.example"), Some("b"), "l"),
        "https://a.example/api/v1/auth/callback"
    );
    assert_eq!(callback_uri(None, None, None, Some("b"), "l"), "http://b/api/v1/auth/callback");
    assert_eq!(callback_uri(None, None, None, None, "l"), "http://l/api/v1/auth/callback");
    assert_eq!(
        session_cookie(Some("https://yomu.example/"), "t", 60),
        "yomu_session=t; Path=/; HttpOnly; SameSite=Lax; Max-Age=60; Secure"
    );
    assert_eq!(
        session_cookie(Some("http://yomu.example/"), "", 0),
        "yomu_session=; Path=/; HttpOnly; SameSite=Lax; Max-Age=0"
    );
    assert_eq!(write_cookie("t", 1, false), session_cookie(None, "t", 1));
    assert_eq!(lasting_days(0), 90);
    assert_eq!(lasting_days(7), 7);
    assert_eq!(me(&AuthConfig::default(), None).mode, AuthMode::Single);
}

#[test]
fn identity_headers_are_asked_for_only_with_the_secret() {
    let wrong = |name: &str| {
        assert_eq!(name, PROXY_SECRET_HEADER);
        Some("wrong".to_string())
    };
    assert_eq!(identify(Some("s3cret"), wrong), None);
    let never = |name: &str| -> Option<String> { panic!("asked for {name}") };
    assert_eq!(identify(None, never), None);
    let nameless = |name: &str| match name {
        PROXY_SECRET_HEADER => Some("s3cret".to_string()),
        USERNAME_HEADER => Some(String::new()),
        other => panic!("asked for {other}"),
    };
    assert_eq!(identify(Some("s3cret"), nameless), None);
}

#[test]
fn secrets_lose_the_white_space_around_them() {
    assert_eq!(choose_secret("\u{85}\u{a0} a b\u{3000}\n", None).as_deref(), Some("a b"));
    assert_eq!(choose_secret("\u{200b}", None).as_deref(), Some("\u{200b}"));
}

#[test]
fn tokens_hold_by_the_machines_clock() {
    let key = Key::generate();
    assert_eq!(key.verify(&key.mint(7, 60), 0), Some(7));
    assert_eq!(key.verify(&key.mint(7, 60), 61), None);
}

#[test]
fn the_first_sign_in_gets_an_account() {
    let mut db = Db::in_memory();
    let a = db.upsert_oidc_user("sub-1", " Alice ", "Alice").unwrap();
    let b = db.upsert_oidc_user("sub-1", "Alice", "Alice Renamed").unwrap();
    assert_eq!(a.username, "alice");
    assert_eq!(b.id, a.id);
    assert_eq!(b.display_name, "Alice Renamed");
    assert_eq!(db.upsert_oidc_user("sub-2", "ÉLODIE", "É").unwrap().username, "élodie");
}
