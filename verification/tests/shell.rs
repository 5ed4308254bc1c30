//! The shell and the client.

use yomu::client::{browse_query, check_status, Call, ClientError, YomuClient};
use yomu::clock::Timestamp;
use yomu::domain::source::BrowseSort;
use yomu::shell::auth::{
    auth_status, authorize_url, check_callback, exchange_url, parse_callback, random_token, Pending,
};
use yomu::shell::device::{
    checked_id, configured_server, device_request, escape_quotes, extension_for, fingerprint, find_cover, find_page, list_chapters, may_rename,
    open_external, page_ends, partial_dir, server_script, DeviceRequest, LinkRefusal,
};

fn texts(items: &[&str]) -> Vec<String> {
    items.iter().map(|s| s.to_string()).collect()
}

fn pending() -> Pending {
    Pending {
        verifier: "dBjftJeZ4CVP-mB92K27uhbUJU1p1r_wW1gFWFOEjXk".to_string(),
        state: "st".to_string(),
        server: "http://host/sub".to_string(),
        issuer: "https://auth.example".to_string(),
        client_id: "yomu".to_string(),
    }
}

#[test]
fn callback_is_strict() {
    assert_eq!(
        parse_callback("xyz.tdbm.yomu://auth/callback?code=c&state=s"),
        Some(("c".to_string(), "s".to_string()))
    );
    assert_eq!(parse_callback("https://example.test/?code=c&state=s"), None);
    assert_eq!(parse_callback("xyz.tdbm.yomu://auth/callback?code=c"), None);
    assert_eq!(parse_callback("xyz.tdbm.yomu://other/callback?code=c&state=s"), None);
    assert_eq!(parse_callback("xyz.tdbm.yomu://auth/other?code=c&state=s"), None);
    assert_eq!(parse_callback("nonsense"), None);
    assert_eq!(
        parse_callback("xyz.tdbm.yomu://auth/callback?code=a&code=b&state=s"),
        Some(("b".to_string(), "s".to_string()))
    );
}

#[test]
fn the_browser_is_sent_with_a_challenge() {
    assert_eq!(
        authorize_url("https://auth.example/authorize", &pending()),
        "https://auth.example/authorize?response_type=code&client_id=yomu&redirect_uri=xyz.tdbm.yomu%3A%2F%2Fauth%2Fcallback&scope=openid+profile+email&state=st&code_challenge=E9Melhoa2OwvFrEMTJguCHaoeK1t8URWbuGJSstw-cM&code_challenge_method=S256"
    );
    assert_eq!(random_token().len(), 43);
    assert_ne!(random_token(), random_token());
}

#[test]
fn callbacks_are_believed_only_for_their_own_sign_in() {
    assert_eq!(check_callback(&None, "st"), Err("no sign-in is in progress".to_string()));
    assert_eq!(check_callback(&Some(pending()), "st"), Ok(()));
    assert_eq!(
        check_callback(&Some(pending()), "other"),
        Err("sign-in state did not match; ignoring callback".to_string())
    );
    assert_eq!(
        exchange_url("http://host/sub").as_deref(),
        Some("http://host/sub/api/v1/auth/exchange")
    );
    assert_eq!(exchange_url("nonsense"), None);
}

#[test]
fn tokens_count_until_they_expire() {
    let at = |secs: i64| Timestamp { secs, nanos: 0 };
    let token = || Some("t".to_string());
    assert_eq!(auth_status(token(), Some(at(10)), None, at(9)).token, token());
    assert_eq!(auth_status(token(), Some(at(10)), None, at(10)).token, None);
    assert_eq!(auth_status(token(), None, None, at(9)).token, None);
}

#[test]
fn identifiers_are_plain_names() {
    assert_eq!(checked_id("019f-abc"), Ok("019f-abc".to_string()));
    for bad in ["", "../x", "a/b", "a.b", "é"] {
        assert_eq!(checked_id(bad), Err("invalid chapter id".to_string()), "{bad:?}");
    }
    assert_eq!(extension_for(Some("image/png")), "png");
    assert_eq!(extension_for(Some("image/png; charset=x")), "jpg");
    assert_eq!(extension_for(None), "jpg");
    assert_eq!(partial_dir("a"), ".partial-a");
}

#[test]
fn saved_units_are_listed_found_and_fingerprinted() {
    assert_eq!(list_chapters(texts(&["b", ".partial-c", "a"])), ["a", "b"]);
    assert_eq!(
        page_ends("c", texts(&["0002.png", "0000.jpg", "0001.png"])),
        Ok(("0000.jpg".to_string(), "0002.png".to_string()))
    );
    assert_eq!(page_ends("c", Vec::new()), Err("chapter c has no pages".to_string()));
    let print = fingerprint(3, b"abc", b"");
    assert_eq!(print.page_count, 3);
    assert_eq!(
        print.sha256_first,
        "ba7816bf8f01cfea414140de5dae2223b00361a396177a9cb410ff61f20015ad"
    );
    assert_eq!(may_rename("a", "b", false), Ok(()));
    assert_eq!(may_rename("a", "../b", false), Err("invalid chapter id".to_string()));
    assert_eq!(may_rename("a", "b", true), Err("chapter b is already stored on this device".to_string()));
    assert_eq!(find_page(&texts(&["0001.png", "0010.png"]), 1).as_deref(), Some("0001.png"));
    assert_eq!(find_page(&texts(&["0001.png"]), 2), None);
    assert_eq!(find_cover(&texts(&["x.png", "m1.jpg"]), "m1").as_deref(), Some("m1.jpg"));
    assert_eq!(find_cover(&texts(&["m1.old.jpg"]), "m1"), None);
}

#[test]
fn the_frontend_asks_by_path() {
    assert_eq!(
        device_request("/chapter/019f/7"),
        DeviceRequest::Page { chapter: "019f".to_string(), page: 7 }
    );
    assert_eq!(device_request("cover/m1"), DeviceRequest::Cover { manga: "m1".to_string() });
    for other in ["/chapter/019f", "/chapter/019f/x", "/chapter/019f/4294967296", "/cover/m1/x", "/", ""] {
        assert_eq!(device_request(other), DeviceRequest::Unknown, "{other:?}");
    }
}

#[test]
fn the_server_is_found_and_quoted() {
    assert_eq!(configured_server(Some(" http://a \n"), Some("http://b")).as_deref(), Some("http://a"));
    assert_eq!(configured_server(Some(""), None).as_deref(), Some(""));
    assert_eq!(configured_server(None, Some("http://b\n")).as_deref(), Some("http://b"));
    assert_eq!(configured_server(None, Some(" \n")), None);
    assert_eq!(escape_quotes("a'b\\c"), "a\\'b\\\\c");
    assert_eq!(
        server_script(Some("http://a/it's".to_string())).as_deref(),
        Some("window.YOMU_API_BASE = 'http://a/it\\'s';")
    );
    assert_eq!(server_script(Some("nonsense".to_string())), None);
    assert_eq!(open_external("https://a"), Ok(()));
    assert_eq!(open_external("file:///etc"), Err(LinkRefusal::NotWeb));
    assert_eq!(open_external("nonsense"), Err(LinkRefusal::NoAddress));
    assert_eq!(LinkRefusal::not_web(), "only http(s) links open externally");
}

#[test]
fn calls_go_below_the_base() {
    let client = YomuClient::new("http://host/sub").unwrap();
    assert_eq!(client.base(), "http://host/sub/");
    assert_eq!(
        client.cover_url(1).as_deref(),
        Some("http://host/sub/api/v1/manga/00000000-0000-0000-0000-000000000001/cover")
    );
    assert_eq!(
        client.page_url(1, 12).as_deref(),
        Some("http://host/sub/api/v1/chapters/00000000-0000-0000-0000-000000000001/pages/12")
    );
    let search = Call::Search { source_id: "src".to_string() };
    assert_eq!(client.url(&search).as_deref(), Some("http://host/sub/api/v1/sources/src/search"));
    assert_eq!(YomuClient::new("http://host").unwrap().base(), "http://host/");
    assert!(YomuClient::new("nonsense").is_none());
    assert_eq!(
        browse_query(BrowseSort::Latest, 2),
        vec![("sort".to_string(), "latest".to_string()), ("page".to_string(), "2".to_string())]
    );
}

#[test]
fn answers_are_read_by_their_status() {
    assert_eq!(check_status(204, None, None), Ok(()));
    let refused = |body: Option<&str>, message: Option<&str>| {
        check_status(404, body.map(|b| b.to_string()), message.map(|m| m.to_string())).unwrap_err()
    };
    assert_eq!(refused(Some("{}"), Some("not found")).shown(), "server returned 404: not found");
    assert_eq!(refused(Some("<html>"), None).shown(), "server returned 404: <html>");
    assert_eq!(refused(None, None).shown(), "server returned 404: <no body>");
    assert_eq!(ClientError::Transport("x".to_string()).shown(), "request failed: x");
    assert_eq!(ClientError::Decode("x".to_string()).shown(), "invalid response body: x");
}
