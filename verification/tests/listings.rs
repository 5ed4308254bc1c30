//! Sources' listings: drifting keys, marks, covers and the cache.

use yomu::api::error::ApiError;
use yomu::catalog::{CachePlan, Inflight};
use yomu::clock::Timestamp;
use yomu::db::Db;
use yomu::domain::publication::Origin;
use yomu::domain::source::{BrowseSort, MangaDetails, MangaSummary};
use yomu::sources::{
    annotate, browse, browse_fetched, browse_refreshed, first_page, flight_key, proxy_covers, search, search_all, searched, slug_stem,
    BrowseQuery, BrowseStep, SourceAnswer,
};

fn at(secs: i64) -> Timestamp {
    Timestamp { secs, nanos: 0 }
}

#[test]
fn strips_rotating_hex_suffix() {
    let a = "https://example.test/comics/return-of-the-mount-hua-sect-30e93729";
    let b = "https://example.test/comics/return-of-the-mount-hua-sect-f886a8af";
    assert_eq!(slug_stem(a), slug_stem(b));
    assert_eq!(slug_stem(a), "https://example.test/comics/return-of-the-mount-hua-sect");
}

#[test]
fn spares_short_and_non_hex_trailing_tokens() {
    for key in [
        "https://example.test/manga/solo-leveling",
        "https://example.test/manga/the-100",
        "https://example.test/manga/cafe-dead",
        "https://example.test/manga/chapter-house",
    ] {
        assert_eq!(slug_stem(key), key, "should not strip {key}");
    }
}

#[test]
fn keyless_string_is_returned_whole() {
    assert_eq!(slug_stem("noseparators"), "noseparators");
}

#[test]
fn cache_plan_covers_all_states() {
    let now = at(1_783_684_800);
    let fresh = at(1_783_684_800 - 5 * 60);
    let stale = at(1_783_684_800 - 7 * 3600);
    assert_eq!(CachePlan::decide(None, 3600, now), CachePlan::Live);
    assert_eq!(CachePlan::decide(Some(fresh), 21600, now), CachePlan::Fresh);
    assert_eq!(CachePlan::decide(Some(stale), 21600, now), CachePlan::Revalidate);
    assert_eq!(CachePlan::decide(Some(fresh), 0, now), CachePlan::Live);
}

#[test]
fn a_page_from_the_future_is_refreshed() {
    assert_eq!(CachePlan::decide(Some(at(200)), 3600, at(100)), CachePlan::Revalidate);
    assert_eq!(CachePlan::decide(Some(at(200)), u64::MAX, at(100)), CachePlan::Fresh);
    assert_eq!(CachePlan::decide(Some(at(100)), 60, at(160)), CachePlan::Fresh);
    assert_eq!(CachePlan::decide(Some(at(100)), 60, at(161)), CachePlan::Revalidate);
}

#[test]
fn inflight_is_single_entry() {
    let mut guard = Inflight::default();
    assert!(guard.start("k"));
    assert!(!guard.start("k"));
    guard.finish("k");
    assert!(guard.start("k"));
    assert!(guard.start("other"));
}

fn title(key: &str) -> MangaSummary {
    MangaSummary {
        key: key.to_string(),
        title: key.to_string(),
        cover_url: Some("https://c.example/a b.jpg".to_string()),
        in_library: None,
    }
}

fn follow(db: &mut Db, key: &str) -> u128 {
    let details = MangaDetails {
        summary: MangaSummary { key: key.to_string(), title: key.to_string(), cover_url: None, in_library: None },
        description: None,
        genres: Vec::new(),
        chapters: Vec::new(),
    };
    db.insert_publication("src", &details, false).unwrap().id
}

#[test]
fn exact_keys_come_first_and_stems_only_where_they_are_clear() {
    let keys = vec![
        ("one-aaaaaa".to_string(), 1),
        ("two-aaaaaa".to_string(), 2),
        ("two-bbbbbb".to_string(), 3),
    ];
    let mut items = vec![title("one-aaaaaa"), title("one-cccccc"), title("two-cccccc"), title("three")];
    let heals = annotate(&keys, &mut items);
    let marks: Vec<Option<u128>> = items.iter().map(|i| i.in_library).collect();
    assert_eq!(marks, [Some(1), Some(1), None, None]);
    assert_eq!(heals, vec![(1, "one-cccccc".to_string())]);
}

#[test]
fn covers_go_through_the_server() {
    let mut items = vec![title("a")];
    items[0].cover_url = Some("https://c.example/a b.jpg".to_string());
    proxy_covers(&mut items);
    assert_eq!(
        items[0].cover_url.as_deref(),
        Some("/api/v1/covers?src=https%3A%2F%2Fc%2Eexample%2Fa%20b%2Ejpg")
    );
    let mut bare = vec![title("a")];
    bare[0].cover_url = None;
    proxy_covers(&mut bare);
    assert_eq!(bare[0].cover_url, None);
}

#[test]
fn browsing_serves_the_cache_and_refreshes_it_once() {
    let mut db = Db::in_memory();
    let mut inflight = Inflight::default();
    let id = follow(&mut db, "one-aaaaaa");
    let query = BrowseQuery { sort: BrowseSort::Popular, page: first_page() };
    assert_eq!(flight_key("src", query), "src/popular/1");

    assert_eq!(browse(&mut db, &mut inflight, "src", query, 3600, at(0)), BrowseStep::Fetch);
    let served = browse_fetched(&mut db, "src", query, vec![title("one-bbbbbb"), title("x")], at(0));
    assert_eq!(served[0].in_library, Some(id));
    assert_eq!(
        db.get_publication(id).unwrap().origin,
        Origin::Source { source_id: "src".to_string(), source_key: "one-bbbbbb".to_string() }
    );

    match browse(&mut db, &mut inflight, "src", query, 3600, at(3600)) {
        BrowseStep::Serve(items, None) => assert_eq!(items.len(), 2),
        other => panic!("{other:?}"),
    }
    match browse(&mut db, &mut inflight, "src", query, 3600, at(3601)) {
        BrowseStep::Serve(items, Some(key)) => {
            assert_eq!(items[1].key, "x");
            assert_eq!(key, "src/popular/1");
        }
        other => panic!("{other:?}"),
    }
    match browse(&mut db, &mut inflight, "src", query, 3600, at(3602)) {
        BrowseStep::Serve(_, None) => {}
        other => panic!("{other:?}"),
    }
    browse_refreshed(&mut db, &mut inflight, "src", query, Some(vec![title("y")]), at(4000));
    match browse(&mut db, &mut inflight, "src", query, 3600, at(4000)) {
        BrowseStep::Serve(items, None) => assert_eq!(items[0].key, "y"),
        other => panic!("{other:?}"),
    }
    assert_eq!(browse(&mut db, &mut inflight, "src", query, 0, at(4000)), BrowseStep::Fetch);
    browse_refreshed(&mut db, &mut inflight, "src", query, None, at(9000));
    match browse(&mut db, &mut inflight, "src", query, 3600, at(9000)) {
        BrowseStep::Serve(items, Some(_)) => assert_eq!(items[0].key, "y"),
        other => panic!("{other:?}"),
    }
}

#[test]
fn searches_warm_the_catalog() {
    let mut db = Db::in_memory();
    let id = follow(&mut db, "k");
    let found = searched(&mut db, "src", vec![title("k")], at(5));
    assert_eq!(found[0].in_library, Some(id));
    assert_eq!(db.catalog_source_for_cover("https://c.example/a b.jpg").as_deref(), Some("src"));
}

#[test]
fn a_search_of_one_source_fails_as_it_does() {
    let mut db = Db::in_memory();
    let id = follow(&mut db, "k");
    assert_eq!(search(&mut db, "src", None, at(5)), Err(ApiError::NotFound));
    assert_eq!(
        search(&mut db, "src", Some(Err("down".to_string())), at(5)),
        Err(ApiError::UpstreamFailed("down".to_string()))
    );
    assert_eq!(db.catalog_source_for_cover("https://c.example/a b.jpg"), None);
    let found = search(&mut db, "src", Some(Ok(vec![title("k")])), at(5)).unwrap();
    assert_eq!(found[0].in_library, Some(id));
}

#[test]
fn a_failing_source_contributes_its_error() {
    let mut db = Db::in_memory();
    let id = follow(&mut db, "k-aaaaaa");
    let answers = vec![
        SourceAnswer { source_id: "other".to_string(), source_name: "Other".to_string(), found: Err("down".to_string()) },
        SourceAnswer {
            source_id: "src".to_string(),
            source_name: "Src".to_string(),
            found: Ok(vec![title("k-bbbbbb"), title("new")]),
        },
    ];
    let r = search_all(&mut db, answers, at(5));
    assert_eq!(r.len(), 2);
    assert_eq!((r[0].source_id.as_str(), r[0].error.as_deref()), ("other", Some("down")));
    assert!(r[0].results.is_empty());
    assert_eq!((r[1].source_name.as_str(), r[1].error.as_deref()), ("Src", None));
    assert_eq!(r[1].results[0].in_library, Some(id));
    assert_eq!(r[1].results[1].in_library, None);
    assert_eq!(
        db.get_publication(id).unwrap().origin,
        Origin::Source { source_id: "src".to_string(), source_key: "k-bbbbbb".to_string() }
    );
}
