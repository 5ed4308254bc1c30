//! The API's answers.

use yomu::api::backup::{export, restore, RESTORE_BODY_LIMIT};
use yomu::api::categories::{list as list_categories, update as update_category};
use yomu::api::chapters::{
    download, download_many, downloaded_files, image_content_type, live_source, mark, page_at, page_count, page_failed, pages_resolved,
    remove_downloads, LiveSource,
};
use yomu::api::cors::{cors_policy, CorsPolicy};
use yomu::api::covers::{catalog_cover_source, catalog_stem, cover_file_names, fetchable, publication_cover, publication_stem};
use yomu::api::downloads::{dismiss, list as list_downloads, retry};
use yomu::api::error::ApiError;
use yomu::api::fingerprints::{fingerprinted_units, list as list_fingerprints, PageEnds};
use yomu::api::library::{add, add_at, delete, detail, list as list_library, rescan_allowed, update};
use yomu::api::operations::{failed, metrics, ok, readiness, Numbers};
use yomu::api::progress::{events, push_events, set_position, set_position_at, EventsQuery};
use yomu::api::updates::{list as list_updates, UpdatesQuery};
use yomu::auth::{is_public, takes_media_token};
use yomu::clock::{utc_now, Timestamp};
use yomu::db::downloads::DownloadFailure;
use yomu::db::{Db, DbError};
use yomu::domain::api::{DownloadUnitsRequest, MarkUnitsRequest, PushEventsRequest, SetLocatorRequest, UpdateCategoryRequest, UpdatePublicationRequest};
use yomu::domain::progress::ProgressEvent;
use yomu::domain::publication::{DownloadState, Origin};
use yomu::domain::source::{ChapterNumber, ChapterRef, MangaDetails, MangaSummary};
use yomu::downloader::{download_ended, ActiveDownload};
use yomu::ids::Uuid;
use yomu::live_pages::LivePages;
use yomu::streamer::SourceError;
use yomu::sync::{refresh_publication_at, source_of, SyncError};

const SHARED: Uuid = 0;

fn at(secs: i64) -> Timestamp {
    Timestamp { secs, nanos: 0 }
}

fn details(key: &str, chapters: &[&str]) -> MangaDetails {
    MangaDetails {
        summary: MangaSummary {
            key: key.to_string(),
            title: format!("Title {key}"),
            cover_url: None,
            in_library: None,
        },
        description: None,
        genres: vec!["Drama".to_string()],
        chapters: chapters
            .iter()
            .enumerate()
            .map(|(i, k)| ChapterRef {
                key: k.to_string(),
                title: format!("Chapter {k}"),
                number: Some(ChapterNumber { rank: i as i64 }),
                source_order: (chapters.len() - 1 - i) as u32,
                scanlator: None,
                published_at: None,
            })
            .collect(),
    }
}

/// A library with one publication of four units, and their identifiers in reading order.
fn library() -> (Db, Uuid, Vec<Uuid>) {
    let mut db = Db::in_memory();
    let added = add(&mut db, "src", &details("m1", &["c1", "c2", "c3", "c4"]), false).unwrap();
    assert!(!added.wake);
    let id = added.publication.id;
    let units = db.list_units(id).iter().map(|u| u.id).collect();
    (db, id, units)
}

#[test]
fn adding_queues_units_where_they_are_wanted() {
    let mut db = Db::in_memory();
    let added = add_at(&mut db, "src", &details("m1", &["c1", "c2"]), true, 1, &vec![11, 12], at(5)).unwrap();
    assert!(added.wake);
    assert_eq!(added.publication.id, 1);
    assert!(db.list_units(1).iter().all(|u| matches!(u.download, DownloadState::Pending)));
    let again = add_at(&mut db, "src", &details("m1", &["c1"]), true, 2, &vec![21], at(6));
    assert_eq!(again, Err(ApiError::Unprocessable("publication already in library".to_string())));
}

#[test]
fn positions_mark_what_was_read() {
    let (mut db, id, units) = library();
    db.set_page_count(units[2], 10);
    let req = SetLocatorRequest { unit_id: units[2], page: 4, device: "web".to_string() };
    let place = set_position(&mut db, SHARED, id, req).unwrap();
    assert_eq!((place.unit_id, place.page()), (units[2], 4));
    assert_eq!(db.read_ids(SHARED, id), vec![units[0], units[1]]);
    assert_eq!(db.mark_unread(SHARED, &vec![units[0]]), 1);

    let req = SetLocatorRequest { unit_id: units[2], page: 9, device: "web".to_string() };
    set_position_at(&mut db, SHARED, id, req, 900, utc_now()).unwrap();
    let read = db.read_ids(SHARED, id);
    assert!(read.contains(&units[2]) && !read.contains(&units[3]));

    let req = SetLocatorRequest { unit_id: 12345, page: 0, device: "web".to_string() };
    assert_eq!(set_position(&mut db, SHARED, id, req), Err(ApiError::NotFound));
    let req = SetLocatorRequest { unit_id: units[0], page: 0, device: "web".to_string() };
    assert_eq!(
        set_position(&mut db, SHARED, 777, req),
        Err(ApiError::Unprocessable("chapter does not belong to this manga".to_string()))
    );
}

#[test]
fn pushed_journals_are_taken_in() {
    let (mut db, id, units) = library();
    let event = |eid: Uuid, unit: Uuid| ProgressEvent {
        id: eid,
        publication_id: id,
        unit_id: unit,
        page: 0,
        device: "phone".to_string(),
        at: at(eid as i64),
    };
    let req = PushEventsRequest { events: vec![event(1, units[1]), event(2, 999), event(3, units[2])] };
    let r = push_events(&mut db, SHARED, &req, at(50));
    assert_eq!((r.accepted, r.skipped), (2, 1));
    assert_eq!(db.read_ids(SHARED, id), vec![units[0], units[1]]);
    let slice = events(&db, SHARED, EventsQuery { since: None });
    assert_eq!(slice.events.len(), 2);
    let rest = events(&db, SHARED, EventsQuery { since: slice.next_since });
    assert!(rest.events.is_empty());
    // A push that is repeated changes nothing.
    let before = db.export_events(SHARED);
    push_events(&mut db, SHARED, &req, at(51));
    assert_eq!(db.export_events(SHARED), before);
}

#[test]
fn downloads_are_queued_once() {
    let (mut db, _, units) = library();
    let queued = download(&mut db, units[0]).unwrap();
    assert_eq!((queued.status, queued.wake), (202, true));
    let again = download(&mut db, units[0]).unwrap();
    assert_eq!((again.status, again.wake), (200, false));
    assert_eq!(download(&mut db, 999), Err(ApiError::NotFound));
    let (r, wake) = download_many(&mut db, &vec![units[0], units[1]]);
    assert_eq!((r.affected, wake), (1, true));
    let (r, wake) = download_many(&mut db, &vec![units[0]]);
    assert_eq!((r.affected, wake), (0, false));

    let mut live = LivePages::default();
    live.put(units[0], vec!["u".to_string()], 0);
    assert!(!download_ended(&mut db, &mut live, units[0], Ok(3), at(9)));
    assert_eq!(live.get(units[0], 0), None);
    assert!(download_ended(&mut db, &mut live, 999, Ok(3), at(9)));

    live.put(units[0], vec!["u".to_string()], 0);
    let (r, gone) = remove_downloads(&mut db, &mut live, &vec![units[0], units[1]]);
    assert_eq!((r.affected, gone), (1, vec![units[0]]));
    assert_eq!(live.get(units[0], 0), None);
}

#[test]
fn the_queue_shows_titles_and_progress() {
    let (mut db, id, units) = library();
    download_many(&mut db, &vec![units[0], units[1]]);
    db.set_downloading(units[0]);
    let active = ActiveDownload { unit_id: units[0], page: 2, total: 7 };
    let r = list_downloads(&db, Some(active));
    assert_eq!(r.queue.len(), 2);
    let first = r.queue.iter().find(|e| e.unit_id == units[0]).unwrap();
    assert_eq!(first.publication_title, "Title m1");
    assert_eq!(first.publication_id, id);
    assert_eq!(first.progress.map(|p| (p.page, p.total)), Some((2, 7)));
    assert!(r.queue.iter().find(|e| e.unit_id == units[1]).unwrap().progress.is_none());
    assert_eq!((r.server_downloaded_chapters, r.server_downloaded_pages), (0, 0));
}

#[test]
fn marks_are_set_and_taken_off() {
    let (mut db, _, units) = library();
    let req = |read: bool, ids: Vec<Uuid>| MarkUnitsRequest { unit_ids: ids, read };
    assert_eq!(mark(&mut db, SHARED, &req(true, vec![units[0], units[1]]), at(1)).unwrap().affected, 2);
    assert_eq!(mark(&mut db, SHARED, &req(false, vec![units[0]]), at(1)).unwrap().affected, 1);
    assert!(matches!(
        mark(&mut db, SHARED, &req(true, vec![77]), at(1)),
        Err(ApiError::Unprocessable(m)) if m == "unknown chapter 00000000-0000-0000-0000-00000000004d"
    ));
}

#[test]
fn pages_come_from_disk_or_from_the_source() {
    let (mut db, _, units) = library();
    let mut live = LivePages::default();
    let names = || Some(vec!["0001.png".to_string(), "0000.jpg".to_string()]);
    let unit = db.get_unit(units[0]).unwrap();
    assert_eq!(downloaded_files(&unit, names()), None);
    db.mark_pending(&vec![units[0]]);
    db.finish_download_at(units[0], Ok(2), at(1));
    let unit = db.get_unit(units[0]).unwrap();
    let files = downloaded_files(&unit, names());
    assert_eq!(files, Some(vec!["0000.jpg".to_string(), "0001.png".to_string()]));
    assert_eq!(downloaded_files(&unit, Some(Vec::new())), None);
    assert_eq!(downloaded_files(&unit, None), None);
    let counted = page_count(units[0], &files, &Vec::new());
    assert!(counted.downloaded && counted.page_count == 2);

    pages_resolved(&mut db, &mut live, units[1], vec!["a".to_string(), "b".to_string()], 5);
    assert_eq!(db.get_unit(units[1]).unwrap().page_count, Some(2));
    let urls = live.get(units[1], 6).unwrap();
    assert_eq!(page_at(&urls, 1), Ok("b".to_string()));
    assert_eq!(page_at(&urls, 2), Err(ApiError::NotFound));
    let books = Origin::LocalFile { path: "x".to_string() };
    let origin = Origin::Source { source_id: "src".to_string(), source_key: "k".to_string() };
    assert_eq!(live_source(&books, false), Ok(LiveSource::Books));
    let source = live_source(&origin, true).unwrap();
    assert!(live_source(&origin, false).is_err());
    assert!(!page_failed(&mut live, units[1], &LiveSource::Books, false));
    assert!(live.get(units[1], 6).is_some());
    assert!(page_failed(&mut live, units[1], &source, false));
    assert!(live.get(units[1], 6).is_none());
    assert!(!page_failed(&mut live, units[1], &source, true));
    assert_eq!(image_content_type("image/png".to_string()), "image/png");
    assert_eq!(image_content_type("image\npng".to_string()), "image/jpeg");
}

#[test]
fn the_library_is_listed_shown_changed_and_deleted() {
    let (mut db, id, units) = library();
    db.mark_read(SHARED, &vec![units[0]]).unwrap();
    let listed = list_library(&db, Some(SHARED));
    assert_eq!(listed.len(), 1);
    assert_eq!((listed[0].unit_count, listed[0].unread_count), (4, 3));
    assert!(listed[0].locator.is_none());
    assert_eq!(list_library(&db, None)[0].unread_count, 4);

    let shown = detail(&db, Some(SHARED), id).unwrap();
    assert_eq!(shown.units.iter().map(|u| u.read).collect::<Vec<_>>(), [true, false, false, false]);
    assert!(detail(&db, None, id).unwrap().units.iter().all(|u| !u.read));
    assert!(matches!(detail(&db, None, 5), Err(ApiError::NotFound)));

    let req = |category: Option<&str>| UpdatePublicationRequest {
        auto_download: true,
        category: category.map(|c| c.to_string()),
    };
    assert_eq!(update(&mut db, id, &req(Some("paused"))).unwrap().category, "paused");
    assert!(update(&mut db, id, &req(None)).unwrap().auto_download);
    assert!(matches!(
        update(&mut db, id, &req(Some("dropped"))),
        Err(ApiError::Unprocessable(m)) if m == "unknown category \"dropped\""
    ));
    assert!(matches!(update(&mut db, 5, &req(None)), Err(ApiError::NotFound)));

    let mut live = LivePages::default();
    live.put(units[0], vec!["u".to_string()], 0);
    let gone = delete(&mut db, &mut live, id).unwrap();
    assert_eq!(gone.len(), 4);
    assert!(live.get(units[0], 0).is_none());
    assert_eq!(delete(&mut db, &mut live, id), Err(ApiError::NotFound));
}

#[test]
fn rescan_rejects_when_books_folder_is_disabled() {
    let refused = rescan_allowed(false).unwrap_err();
    assert_eq!(refused.into_response().0, 422);
    assert!(rescan_allowed(true).is_ok());
}

#[test]
fn errors_have_statuses() {
    assert_eq!(ApiError::NotFound.into_response().0, 404);
    let (status, body) = ApiError::Unauthorized.into_response();
    assert_eq!((status, body.message.as_str()), (401, "unauthorized"));
    assert_eq!(ApiError::from_source("x".to_string()).into_response().0, 502);
    let (status, body) = ApiError::from_db(DbError::Corrupt("row 7".to_string())).into_response();
    assert_eq!((status, body.message.as_str()), (500, "internal error"));
    let (status, body) = ApiError::from_db(DbError::Constraint("no".to_string())).into_response();
    assert_eq!((status, body.message.as_str()), (422, "no"));
    let unknown = ApiError::from_sync(SyncError::UnknownSource("s".to_string()), String::new());
    assert_eq!(unknown, ApiError::Unprocessable("source \"s\" is not configured".to_string()));
    let down = SyncError::Source(SourceError::Http("x".to_string()));
    assert_eq!(ApiError::from_sync(down, "shown".to_string()), ApiError::UpstreamFailed("shown".to_string()));
}

#[test]
fn checks_merge_and_queue() {
    let (mut db, id, _) = library();
    let found = refresh_publication_at(
        &mut db,
        id,
        true,
        &details("m1", &["c1", "c2", "c3", "c4", "c5"]),
        &vec![101, 102, 103, 104, 105],
        at(77),
    )
    .unwrap();
    assert!(found.wake);
    assert_eq!(found.new_units.len(), 1);
    assert!(matches!(db.get_unit(found.new_units[0].id).unwrap().download, DownloadState::Pending));
    assert_eq!(db.get_publication(id).unwrap().last_checked_at, Some(at(77)));
    assert_eq!(db.genres_for(id), vec!["Drama"]);
    let local = Origin::LocalFile { path: "x".to_string() };
    assert_eq!(source_of(&local, true), Err(SyncError::UnknownSource("local".to_string())));
    let origin = Origin::Source { source_id: "src".to_string(), source_key: "k".to_string() };
    assert_eq!(source_of(&origin, true), Ok(("src".to_string(), "k".to_string())));
    assert_eq!(source_of(&origin, false), Err(SyncError::UnknownSource("src".to_string())));
    assert!(matches!(
        refresh_publication_at(&mut db, 5, false, &details("m", &["c"]), &vec![1], at(1)),
        Err(SyncError::Db(_))
    ));
}

#[test]
fn backups_of_other_versions_are_refused() {
    let (mut db, _, _) = library();
    let mut backup = db.export_backup(SHARED, at(1));
    backup.version = 2;
    assert_eq!(
        restore(&mut db, SHARED, &backup, at(2)),
        Err(ApiError::Unprocessable("unsupported backup version 2 (this server reads 1)".to_string()))
    );
    backup.version = 1;
    assert_eq!(restore(&mut db, SHARED, &backup, at(2)).unwrap().publications, 0);
    assert_eq!(RESTORE_BODY_LIMIT, 256 * 1024 * 1024);
}

#[test]
fn fingerprints_describe_downloaded_units_and_omit_the_rest() {
    let (mut db, id, units) = library();
    db.mark_pending(&vec![units[0]]);
    db.finish_download_at(units[0], Ok(2), at(1));
    let saved = fingerprinted_units(&db, id).unwrap();
    assert_eq!(saved.iter().map(|u| u.id).collect::<Vec<_>>(), vec![units[0]]);
    let ends = PageEnds { unit_id: units[0], page_count: 2, first: b"abc".to_vec(), last: Vec::new() };
    let r = list_fingerprints(&vec![None, Some(ends)]);
    assert_eq!(r.fingerprints.len(), 1);
    assert_eq!(
        r.fingerprints[0].page0_sha256,
        "ba7816bf8f01cfea414140de5dae2223b00361a396177a9cb410ff61f20015ad"
    );
    assert_eq!(
        r.fingerprints[0].page_last_sha256,
        "e3b0c44298fc1c149afbf4c8996fb92427ae41e4649b934ca495991b7852b855"
    );
}

#[test]
fn fingerprints_404_for_an_unknown_publication() {
    let (db, _, _) = library();
    assert!(matches!(fingerprinted_units(&db, 5), Err(ApiError::NotFound)));
}

#[test]
fn readiness_needs_everything() {
    let (status, body) = readiness(ok(), ok(), None, Some(10), 10);
    assert_eq!((status, body.status.as_str()), (200, "ready"));
    assert!(body.books_dir.ok);
    assert_eq!(readiness(ok(), ok(), None, Some(9), 10).0, 503);
    assert_eq!(readiness(ok(), ok(), None, None, 0).0, 503);
    let (status, body) = readiness(ok(), ok(), Some(failed("gone".to_string())), Some(1), 0);
    assert_eq!((status, body.status.as_str()), (503, "not_ready"));
    assert_eq!(body.books_dir.error.as_deref(), Some("gone"));
}

#[test]
fn metrics_are_in_the_text_format() {
    let n = Numbers {
        uptime: "1.500".to_string(),
        requests: 3,
        pool_connections: 4,
        pool_idle: 2,
        free_bytes: 100,
        sessions_cleaned: 0,
    };
    let text = metrics(&n);
    assert!(text.starts_with("# TYPE yomu_uptime_seconds gauge\nyomu_uptime_seconds 1.500\n"));
    assert!(text.contains("# TYPE yomu_http_requests_total counter\nyomu_http_requests_total 3\n"));
    assert!(text.ends_with("yomu_expired_sessions_cleaned_total 0\n"));
}

#[test]
fn default_cors_is_permissive_for_cross_origin_clients() {
    assert_eq!(cors_policy(&Vec::new()), CorsPolicy::Permissive);
    assert_eq!(cors_policy(&vec!["a\nb".to_string()]), CorsPolicy::Permissive);
    assert_eq!(
        cors_policy(&vec!["https://a.example/".to_string(), "a\nb".to_string()]),
        CorsPolicy::Credentialed(vec!["https://a.example".to_string()])
    );
}

#[test]
fn covers_are_found_by_name_and_fetched_only_where_known() {
    let (mut db, id, _) = library();
    assert_eq!(cover_file_names("s")[0], "s.jpg");
    assert_eq!(cover_file_names("s").len(), 5);
    assert_eq!(publication_stem(1), "00000000-0000-0000-0000-000000000001");
    assert_eq!(
        catalog_stem("abc"),
        "ba7816bf8f01cfea414140de5dae2223b00361a396177a9cb410ff61f20015ad"
    );
    assert_eq!(catalog_cover_source(&db, "https://c/x"), Err(ApiError::NotFound));
    let seen = MangaSummary {
        key: "k".to_string(),
        title: "t".to_string(),
        cover_url: Some("https://c/x".to_string()),
        in_library: None,
    };
    db.upsert_catalog_entries("src", &vec![seen], at(1));
    assert_eq!(catalog_cover_source(&db, "https://c/x"), Ok("src".to_string()));
    assert!(fetchable("https://c/x", true).is_ok());
    assert_eq!(
        fetchable("nonsense", true),
        Err(ApiError::Unprocessable("invalid cover url".to_string()))
    );
    assert_eq!(
        fetchable("https://c/x", false),
        Err(ApiError::Unprocessable("source no longer configured".to_string()))
    );
    let mut p = db.get_publication(id).unwrap();
    assert_eq!(publication_cover(&p, true), Err(ApiError::NotFound));
    p.cover_url = Some("https://c/x".to_string());
    assert_eq!(publication_cover(&p, true), Ok(("src".to_string(), "https://c/x".to_string())));
    assert!(publication_cover(&p, false).is_err());
    p.origin = Origin::LocalFile { path: "x".to_string() };
    assert_eq!(
        publication_cover(&p, true),
        Err(ApiError::Unprocessable("publication is not source-backed".to_string()))
    );
}

#[test]
fn the_feed_goes_back_thirty_days() {
    let (mut db, id, _) = library();
    let now = at(1_767_225_600);
    let day = 86_400;
    let units = db.list_units(id);
    db.add_update(id, &units, at(now.secs - 31 * day));
    db.add_update(id, &units, at(now.secs - day));
    assert_eq!(list_updates(&db, UpdatesQuery { since: None }, now).updates.len(), 1);
    let since = Some(at(now.secs - 40 * day));
    assert_eq!(list_updates(&db, UpdatesQuery { since }, now).updates.len(), 2);
}

#[test]
fn failed_units_are_retried_and_waiting_ones_dismissed() {
    let (mut db, _, units) = library();
    db.mark_pending(&units);
    db.finish_download_at(units[0], Err(DownloadFailure::from("timed out".to_string())), at(1));
    let all = DownloadUnitsRequest { unit_ids: units.clone() };
    let (bulk, wake) = retry(&mut db, &all);
    assert_eq!((bulk.affected, wake), (1, true));
    let (bulk, wake) = retry(&mut db, &all);
    assert_eq!((bulk.affected, wake), (0, false));
    db.set_downloading(units[1]);
    assert_eq!(dismiss(&mut db, &all).affected, 3);
    assert!(matches!(db.get_unit(units[1]).unwrap().download, DownloadState::Downloading));
    assert!(matches!(db.get_unit(units[0]).unwrap().download, DownloadState::Absent));
}

#[test]
fn a_backup_is_taken_of_the_reader() {
    let (mut db, id, units) = library();
    db.mark_read(SHARED, &vec![units[1]]).unwrap();
    let b = export(&db, SHARED, at(9));
    assert_eq!((b.version, b.exported_at), (1, at(9)));
    assert_eq!(b.publications[0].id, id);
    assert_eq!(b.units.len(), 4);
    assert_eq!(b.read_unit_ids, vec![units[1]]);
    assert_eq!(b.categories.iter().map(|c| c.id.as_str()).collect::<Vec<_>>(), ["reading", "paused", "finished"]);
}

#[test]
fn categories_are_switched() {
    let (mut db, id, _) = library();
    assert_eq!(db.list_publications_for_update()[0].id, id);
    let off = update_category(&mut db, "reading", UpdateCategoryRequest { update_enabled: false }).unwrap();
    assert!(!off.update_enabled);
    assert!(db.list_publications_for_update().is_empty());
    assert!(list_categories(&db).iter().all(|c| !c.update_enabled));
    assert_eq!(
        update_category(&mut db, "dropped", UpdateCategoryRequest { update_enabled: true }),
        Err(ApiError::NotFound)
    );
}

#[test]
fn genres_are_listed_for_all_at_once() {
    let (mut db, id, _) = library();
    db.set_genres(id, &vec!["romance".to_string(), "Action".to_string(), "romance".to_string()]);
    add(&mut db, "src", &MangaDetails { genres: Vec::new(), ..details("m2", &["c1"]) }, false).unwrap();
    assert_eq!(
        db.genres_by_publication(),
        vec![(id, vec!["Action".to_string(), "romance".to_string()])]
    );
}

#[test]
fn mutating_routes_require_a_session_in_oidc_mode() {
    for path in [
        "/library",
        "/chapters/download",
        "/chapters/remove-downloads",
        "/downloads/retry",
        "/downloads/dismiss",
        "/library/rescan",
    ] {
        assert!(!is_public(path), "{path}");
        assert!(!takes_media_token(path), "{path}");
    }
}

#[test]
fn health_stays_open() {
    assert!(is_public("/health"));
    assert!(!is_public("/healthz"));
}

#[test]
fn what_is_not_found_is_answered_404_with_a_message() {
    let (status, body) = ApiError::NotFound.into_response();
    assert_eq!((status, body.message.as_str()), (404, "not found"));
}
