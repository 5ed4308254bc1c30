//! Cache headers of static files.

use yomu::static_cache::{cache_headers, fingerprinted, shell_cache_headers, CacheHeaders, IMMUTABLE, REVALIDATE};

#[test]
fn fingerprinted_assets_are_recognised() {
    assert!(fingerprinted("/yomu-web-9da5a24d4d3677cc_bg.wasm"));
    assert!(fingerprinted("/styles-dcb9e8dca193296c.css"));
}

#[test]
fn a_short_fingerprint_is_still_a_fingerprint() {
    assert!(fingerprinted("/yomu-web-ae4beb7cab1d74_bg.wasm"));
    assert!(fingerprinted("/yomu-web-ae4beb7cab1d74.js"));
    assert!(fingerprinted("/styles-dcb9e8dca19329.css"));
    assert!(fingerprinted("/styles-dcb9e8dca193.css"));
    assert!(fingerprinted("/styles-dcb9e8dc.css"));
}

#[test]
fn everything_else_is_not() {
    for path in [
        "/index.html",
        "/",
        "/sw.js",
        "/manifest.webmanifest",
        "/favicon.svg",
        "/icon-192.png",
        "/library",
    ] {
        assert!(!fingerprinted(path), "{path}");
    }
}

#[test]
fn non_assets_may_look_fingerprinted_and_it_does_not_matter() {
    assert!(fingerprinted("/sources/deadbeefdeadbeef"));
    assert!(fingerprinted(
        "/api/v1/publications/019f4921-3946-7c20-9a67-d84d46072fe6"
    ));
}

#[test]
fn lengths_count_to_the_digit() {
    assert!(!fingerprinted("/a-1234567.js"));
    assert!(fingerprinted("/a-12345678.js"));
    assert!(fingerprinted("/a-1234567890abcdef.js"));
    assert!(!fingerprinted("/a-1234567890abcdef0.js"));
    assert!(!fingerprinted("/12345678/x.js"));
}

fn bare() -> CacheHeaders {
    CacheHeaders { cache_control: None, vary: vec!["origin".to_string()] }
}

#[test]
fn only_real_assets_are_pinned() {
    let asset = "/styles-dcb9e8dca193296c.css";
    let control = |path: &str, status: u16| cache_headers(path, status, bare()).cache_control.unwrap();
    assert_eq!(control(asset, 200), IMMUTABLE);
    assert_eq!(control(asset, 304), IMMUTABLE);
    assert_eq!(control(asset, 404), REVALIDATE);
    assert_eq!(control(asset, 405), REVALIDATE);
    assert_eq!(control("/index.html", 200), REVALIDATE);
    let shell = cache_headers(asset, 304, shell_cache_headers(bare()));
    assert_eq!(shell.cache_control.as_deref(), Some(REVALIDATE));
}

#[test]
fn vary_is_appended_to_values_already_on_the_response() {
    let mut headers = bare();
    headers.vary = vec![
        "origin, access-control-request-method, access-control-request-headers".to_string(),
    ];
    let vary = cache_headers("/index.html", 200, headers).vary.join(", ");
    for expected in [
        "accept-encoding",
        "origin",
        "access-control-request-method",
        "access-control-request-headers",
    ] {
        assert!(vary.contains(expected), "vary `{vary}` is missing {expected}");
    }
}

#[test]
fn a_missing_hashed_asset_falls_back_to_the_shell_and_is_not_immutable() {
    let missing = "/yomu-web-0123456789abcdef_bg.wasm";
    let answer = cache_headers(missing, 200, shell_cache_headers(bare()));
    assert_ne!(answer.cache_control.as_deref(), Some(IMMUTABLE));
}

#[test]
fn a_revalidated_shell_under_an_asset_url_is_still_not_immutable() {
    let missing = "/yomu-web-0123456789abcdef_bg.wasm";
    let answer = cache_headers(missing, 304, shell_cache_headers(bare()));
    assert_eq!(answer.cache_control.as_deref(), Some(REVALIDATE));
}

#[test]
fn a_real_assets_own_304_stays_immutable() {
    let answer = cache_headers("/styles-dcb9e8dca193296c.css", 304, bare());
    assert_eq!(answer.cache_control.as_deref(), Some(IMMUTABLE));
}

#[test]
fn a_short_fingerprint_is_still_pinned() {
    let answer = cache_headers("/yomu-web-ae4beb7cab1d74_bg.wasm", 200, bare());
    assert_eq!(answer.cache_control.as_deref(), Some(IMMUTABLE));
}

#[test]
fn spa_routes_revalidate_even_when_they_look_fingerprinted() {
    for route in [
        "/sources/deadbeefdeadbeef",
        "/manga/019f4921-3946-7c20-9a67-d84d46072fe6",
        "/library",
    ] {
        let answer = cache_headers(route, 200, shell_cache_headers(bare()));
        assert_eq!(answer.cache_control.as_deref(), Some(REVALIDATE), "{route}");
    }
}

#[test]
fn the_cache_layer_holds_across_head_range_and_gzip() {
    let asset = "/styles-dcb9e8dca193296c.css";
    let control = |status: u16| cache_headers(asset, status, bare()).cache_control.unwrap();
    assert_eq!(control(200), IMMUTABLE);
    assert_eq!(control(206), IMMUTABLE);
    assert_eq!(control(416), REVALIDATE);
    assert_eq!(control(405), REVALIDATE);
    assert_eq!(control(500), REVALIDATE);
}
