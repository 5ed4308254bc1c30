//! The domain's types, from the outside.

use yomu::clock::{parse_rfc3339, Timestamp};
use yomu::db::rows::{CategoryRow, EventRow, PublicationRow, UnitRow, UpdateRecord, UserRow};
use yomu::db::DbError;
use yomu::domain::api::default_device;
use yomu::domain::publication::{default_category, DownloadState, Kind, Origin, PublicationWire, ReadingUnit};
use yomu::domain::progress::{merge_position, ProgressEvent};
use yomu::domain::source::{BrowseSort, ChapterNumber};
use yomu::ids::{parse_uuid, uuid_text, fresh_id, fresh_ids};

fn time() -> Timestamp {
    Timestamp { secs: 1_767_225_600, nanos: 0 }
}

fn wire(id: &str, source_id: &str, source_key: &str, auto_download: bool) -> PublicationWire {
    PublicationWire {
        id: parse_uuid(id).unwrap(),
        kind: Kind::default(),
        source_id: source_id.to_string(),
        source_key: source_key.to_string(),
        file_path: None,
        title: "Solo Farming".to_string(),
        description: None,
        cover_url: None,
        auto_download,
        category: "reading".to_string(),
        genres: Vec::new(),
        added_at: time(),
        last_checked_at: None,
        missing_since: None,
    }
}

#[test]
fn scraped_publication_keeps_1x_field_names() {
    let p = wire("018f4a70-0000-7000-8000-000000000001", "fixture", "solo-farming", true).into_publication();
    assert_eq!(
        p.origin,
        Origin::Source { source_id: "fixture".to_string(), source_key: "solo-farming".to_string() }
    );
    assert_eq!(p.kind, Kind::Comics);
    let out = PublicationWire::from_publication(p);
    assert_eq!(out.source_id, "fixture");
    assert_eq!(out.source_key, "solo-farming");
    assert_eq!(out.kind, Kind::Comics);
    assert!(out.file_path.is_none());
}

#[test]
fn local_publication_wire_compat() {
    let p = wire("018f4a70-0000-7000-8000-000000000002", "local", "Solo Farming", false).into_publication();
    assert_eq!(p.origin, Origin::LocalFile { path: "Solo Farming".to_string() });

    let out = PublicationWire::from_publication(p);
    assert_eq!(out.source_id, "local", "old clients require source_id");
    assert_eq!(out.source_key, "Solo Farming");
    assert_eq!(out.file_path.as_deref(), Some("Solo Farming"));
}

#[test]
fn defaults_and_labels() {
    assert_eq!(default_category(), "reading");
    assert_eq!(default_device(), "web");
    assert_eq!(BrowseSort::Popular.key(), "popular");
    assert_eq!(BrowseSort::Latest.key(), "latest");
    assert_eq!(BrowseSort::Popular.label(), "Popular");
    assert_eq!(BrowseSort::Latest.label(), "Latest");
}

#[test]
fn uuids_are_written_and_read() {
    let id: u128 = 0x018f4a70_0000_7000_8000_000000000001;
    assert_eq!(uuid_text(id), "018f4a70-0000-7000-8000-000000000001");
    assert_eq!(parse_uuid("018f4a70-0000-7000-8000-000000000001"), Some(id));
    assert_eq!(parse_uuid("018f4a7000007000800000000000000 1"), None);
    let ids = fresh_ids(3);
    assert_eq!(ids.len(), 3);
    assert_eq!(fresh_id() >> 76 & 0xf, 7);
}

#[test]
fn the_newest_event_is_the_place() {
    let event = |id: u128, secs: i64, page: u32| ProgressEvent {
        id,
        publication_id: 1,
        unit_id: 2,
        page,
        device: "test".to_string(),
        at: Timestamp { secs, nanos: 0 },
    };
    assert!(merge_position(&Vec::new()).is_none());
    let events = vec![event(1, 100, 3), event(3, 200, 8), event(2, 200, 5)];
    assert_eq!(merge_position(&events).unwrap().page, 8);
    let turned = vec![event(2, 200, 5), event(3, 200, 8), event(1, 100, 3)];
    assert_eq!(merge_position(&turned).unwrap().page, 8);
}

// ---- stored rows ----

fn publication_row() -> PublicationRow {
    PublicationRow {
        id: "018f4a70-0000-7000-8000-000000000001".to_string(),
        kind: "comics".to_string(),
        source_id: Some("fixture".to_string()),
        source_key: Some("m1".to_string()),
        file_path: None,
        title: "Solo Farming".to_string(),
        description: None,
        cover_url: Some("https://c.example/a b.jpg".to_string()),
        auto_download: true,
        category: "reading".to_string(),
        added_at: time(),
        last_checked_at: None,
        missing_since: None,
    }
}

fn corrupt(r: Result<yomu::domain::publication::Publication, DbError>) -> String {
    match r {
        Err(DbError::Corrupt(m)) => m,
        other => panic!("{other:?}"),
    }
}

#[test]
fn stored_publications_are_read() {
    let p = publication_row().read().unwrap();
    assert_eq!(p.id, 0x018f4a70_0000_7000_8000_000000000001);
    assert_eq!(p.cover_url.as_deref(), Some("https://c.example/a%20b.jpg"));
    let back = PublicationRow::of(&p).read().unwrap();
    assert_eq!(back, p);

    let mut row = publication_row();
    row.kind = "scroll".to_string();
    assert_eq!(corrupt(row.read()), "kind \"scroll\"");
    let mut row = publication_row();
    row.file_path = Some("x".to_string());
    assert_eq!(corrupt(row.read()), "publication 018f4a70-0000-7000-8000-000000000001 origin");
    let mut row = publication_row();
    row.id = "nope".to_string();
    assert_eq!(corrupt(row.read()), "invalid uuid \"nope\"");
    let mut row = publication_row();
    row.cover_url = Some("not a url".to_string());
    assert_eq!(corrupt(row.read()), "invalid url \"not a url\"");
    for kind in [Kind::Comics, Kind::Novels, Kind::Pdf] {
        let mut p = publication_row().read().unwrap();
        p.kind = kind;
        assert_eq!(PublicationRow::of(&p).read().unwrap().kind, kind);
    }
}

fn unit(download: DownloadState) -> ReadingUnit {
    ReadingUnit {
        id: 1,
        publication_id: 2,
        source_key: "c1".to_string(),
        title: "Chapter 1".to_string(),
        number: Some(ChapterNumber { rank: 1.0f64.to_bits() as i64 }),
        source_order: u32::MAX,
        scanlator: None,
        fetched_at: time(),
        published_at: None,
        download,
        page_count: Some(3),
        read: false,
    }
}

#[test]
fn stored_units_are_read_back() {
    let at = time();
    for state in [
        DownloadState::Absent,
        DownloadState::Pending,
        DownloadState::Downloading,
        DownloadState::Downloaded { at },
        DownloadState::Failed { at, reason: "boom".to_string() },
        DownloadState::Unavailable { at, reason: "members".to_string() },
    ] {
        let u = unit(state);
        assert_eq!(UnitRow::of(&u).read().unwrap(), u);
    }
    let mut row = UnitRow::of(&unit(DownloadState::Downloaded { at }));
    row.downloaded_at = None;
    assert!(matches!(row.read(), Err(DbError::Corrupt(m)) if m == "downloaded without timestamp"));
    let mut row = UnitRow::of(&unit(DownloadState::Absent));
    row.download_state = "failed".to_string();
    assert!(matches!(row.read(), Err(DbError::Corrupt(m)) if m == "failed without timestamp"));
    let mut row = UnitRow::of(&unit(DownloadState::Absent));
    row.download_state = "lost".to_string();
    assert!(matches!(row.read(), Err(DbError::Corrupt(m)) if m == "download_state \"lost\""));
    let mut row = UnitRow::of(&unit(DownloadState::Absent));
    row.publication_id = "x".to_string();
    assert!(matches!(row.read(), Err(DbError::Corrupt(m)) if m == "invalid uuid \"x\""));
    let mut row = UnitRow::of(&unit(DownloadState::Absent));
    row.source_order = -1;
    assert_eq!(row.read().unwrap().source_order, u32::MAX);
}

#[test]
fn stored_events_readers_and_categories_are_read() {
    let row = EventRow {
        seq: 1,
        id: "00000000-0000-0000-0000-000000000001".to_string(),
        publication_id: "00000000-0000-0000-0000-000000000002".to_string(),
        unit_id: "00000000-0000-0000-0000-000000000003".to_string(),
        page: 7,
        device: "web".to_string(),
        at: time(),
    };
    let e = row.read().unwrap();
    assert_eq!((e.id, e.publication_id, e.unit_id, e.page), (1, 2, 3, 7));
    let user = UserRow {
        id: "bad".to_string(),
        username: "a".to_string(),
        display_name: "A".to_string(),
    };
    assert!(matches!(user.read(), Err(DbError::Corrupt(_))));
    let category = CategoryRow {
        id: "reading".to_string(),
        name: "Reading".to_string(),
        position: 2,
        update_enabled: true,
    };
    assert_eq!(category.read().position, 2);
    assert_eq!(DbError::NotFound.shown(), "not found");
    assert_eq!(DbError::Corrupt("x".to_string()).shown(), "invalid stored data: x");
}

#[test]
fn stored_updates_are_read_or_refused() {
    let record = |id: &str, at: &str| UpdateRecord {
        publication_id: id.to_string(),
        unit_count: 2,
        first_title: "a".to_string(),
        last_title: "b".to_string(),
        created_at: at.to_string(),
    };
    let id = "00000000-0000-0000-0000-00000000000a";
    let row = record(id, "2026-01-01T02:00:00.5+02:00").read().unwrap();
    assert_eq!((row.publication_id, row.unit_count), (10, 2));
    assert_eq!(row.created_at, Timestamp { secs: 1_767_225_600, nanos: 500_000_000 });
    match record("x", "yesterday").read() {
        Err(DbError::Corrupt(m)) => assert!(m.starts_with("updates.publication_id: ") && m.len() > 24, "{m}"),
        other => panic!("{other:?}"),
    }
    assert_eq!(
        record(id, "yesterday").read(),
        Err(DbError::Corrupt("updates.created_at: premature end of input".to_string()))
    );
    assert_eq!(parse_rfc3339("1970-01-01T00:00:01Z"), Ok(Timestamp { secs: 1, nanos: 0 }));
}
