//! The store, from the outside.

use yomu::clock::{utc_now, Timestamp, FIRST_SECOND};
use yomu::db::downloads::DownloadFailure;
use yomu::db::opening::Tables;
use yomu::db::{Account, Claim, Db, DbError, Identity, JournalEntry, ReadMark, Session, UnitFileOp};
use yomu::domain::backup::{Backup, BACKUP_VERSION};
use yomu::domain::progress::{merge_position, ProgressEvent};
use yomu::domain::publication::{Category, DownloadState, Kind, Origin, Publication, PublicationWire, ReadingUnit};
use yomu::domain::source::{ChapterNumber, ChapterRef, MangaDetails, MangaSummary};
use yomu::domain::users::User;
use yomu::ids::{fresh_id, parse_uuid, Uuid};

/// The account that everyone shares.
const SHARED: Uuid = 0;

fn number(value: f64) -> ChapterNumber {
    ChapterNumber { rank: value.to_bits() as i64 }
}

fn at(secs: i64) -> Timestamp {
    Timestamp { secs, nanos: 0 }
}

fn days_from_now(days: i64) -> Timestamp {
    let now = utc_now();
    Timestamp { secs: now.secs + days * 86_400, nanos: now.nanos }
}

fn details(key: &str, chapters: &[(&str, Option<f64>)]) -> MangaDetails {
    MangaDetails {
        summary: MangaSummary {
            key: key.to_string(),
            title: format!("Publication {key}"),
            cover_url: None,
            in_library: None,
        },
        description: Some("desc".to_string()),
        genres: Vec::new(),
        chapters: chapters
            .iter()
            .enumerate()
            .map(|(i, (ck, n))| ChapterRef {
                key: ck.to_string(),
                title: format!("Chapter {ck}"),
                number: n.map(number),
                source_order: i as u32,
                scanlator: None,
                published_at: None,
            })
            .collect(),
    }
}

fn details_with_genres(key: &str, chapters: &[(&str, Option<f64>)], genres: &[&str]) -> MangaDetails {
    let mut d = details(key, chapters);
    d.genres = genres.iter().map(|g| g.to_string()).collect();
    d
}

fn event(id: Uuid, publication_id: Uuid, unit_id: Uuid, page: u32, time: Timestamp) -> ProgressEvent {
    ProgressEvent { id, publication_id, unit_id, page, device: "test".to_string(), at: time }
}

#[test]
fn remove_downloads_resets_only_downloaded_rows() {
    let mut db = Db::in_memory();
    let publication = db
        .insert_publication("fixture", &details("m1", &[("c2", Some(2.0)), ("c1", Some(1.0))]), false)
        .unwrap();
    let units = db.list_units(publication.id);
    db.mark_pending(&vec![units[0].id]);
    db.finish_download(units[0].id, Ok(9));

    let removed = db.remove_downloads(&vec![units[0].id, units[1].id]);
    assert_eq!(removed, vec![units[0].id]);

    let after = db.list_units(publication.id);
    assert!(matches!(after[0].download, DownloadState::Absent));
    assert_eq!(after[0].page_count, Some(9));
}

#[test]
fn library_rollups_and_positions_are_batched_per_manga() {
    let mut db = Db::in_memory();
    let publication = db
        .insert_publication("fixture", &details("m1", &[("c2", Some(2.0)), ("c1", Some(1.0))]), false)
        .unwrap();
    let units = db.list_units(publication.id);
    db.mark_pending(&vec![units[0].id]);
    db.finish_download(units[0].id, Ok(9));
    db.mark_read(SHARED, &vec![units[0].id]).unwrap();
    db.append_event(SHARED, &event(1, publication.id, units[1].id, 3, utc_now())).unwrap();

    let rollups = db.library_rollups(Some(SHARED));
    let rollup = rollups.iter().find(|r| r.0 == publication.id).unwrap().1;
    assert_eq!(rollup.unit_count, 2);
    assert_eq!(rollup.downloaded_count, 1);
    assert_eq!(rollup.unread_count, 1);
    assert!(rollup.latest_unit_at.is_some());

    let positions = db.latest_positions(SHARED);
    let (position, title) = &positions.iter().find(|p| p.0 == publication.id).unwrap().1;
    assert_eq!(position.unit_id, units[1].id);
    assert_eq!(position.page(), 3);
    assert_eq!(title.as_deref(), Some(units[1].title.as_str()));

    let anon = db.library_rollups(None);
    assert_eq!(anon.iter().find(|r| r.0 == publication.id).unwrap().1.unread_count, 2);
}

#[test]
fn backup_round_trips_into_a_fresh_instance() {
    let mut source = Db::in_memory();
    let publication = source
        .insert_publication("fixture", &details("m1", &[("c2", Some(2.0)), ("c1", Some(1.0))]), true)
        .unwrap();
    let units = source.list_units(publication.id);
    source.mark_read(SHARED, &vec![units[0].id]).unwrap();
    source.append_event(SHARED, &event(7, publication.id, units[1].id, 5, utc_now())).unwrap();

    let backup = Backup {
        version: BACKUP_VERSION,
        exported_at: utc_now(),
        categories: source.list_categories(),
        publications: source.list_publications(),
        units: source.export_units(),
        read_unit_ids: source.read_all_ids(SHARED),
        progress: source.export_events(SHARED),
    };

    let mut target = Db::in_memory();
    let summary = target.import_backup(SHARED, &backup).unwrap();
    assert_eq!(summary.publications, 1);
    assert_eq!(summary.units, 2);
    assert_eq!(summary.read_marks, 1);
    assert_eq!(summary.progress_events, 1);

    let restored = target.list_publications();
    assert_eq!(restored.len(), 1);
    assert_eq!(restored[0].id, publication.id);
    assert!(restored[0].auto_download);
    let read = target.read_ids(SHARED, publication.id);
    assert!(read.contains(&units[0].id));
    let position = target.latest_position(SHARED, publication.id).unwrap();
    assert_eq!(position.unit_id, units[1].id);
    assert_eq!(position.page(), 5);
    let restored_units = target.list_units(publication.id);
    assert!(restored_units.iter().all(|c| matches!(c.download, DownloadState::Absent)));

    let again = target.import_backup(SHARED, &backup).unwrap();
    assert_eq!(
        (again.publications, again.units, again.read_marks, again.progress_events),
        (0, 0, 0, 0)
    );
}

#[test]
fn exporting_a_backup_collects_the_same() {
    let mut source = Db::in_memory();
    let publication = source
        .insert_publication("fixture", &details("m1", &[("c1", Some(1.0))]), true)
        .unwrap();
    let units = source.list_units(publication.id);
    source.mark_read(SHARED, &vec![units[0].id]).unwrap();
    let now = utc_now();
    let backup = source.export_backup(SHARED, now);
    assert_eq!(backup.version, BACKUP_VERSION);
    assert_eq!(backup.exported_at, now);
    assert_eq!(backup.categories.len(), 3);
    assert_eq!(backup.publications[0].id, publication.id);
    assert_eq!(backup.units.len(), 1);
    assert_eq!(backup.read_unit_ids, vec![units[0].id]);
}

/// A publication as an older server wrote it: the origin in two flat fields.
fn old_publication(id: &str, source_id: &str, source_key: &str, title: &str) -> Publication {
    PublicationWire {
        id: parse_uuid(id).unwrap(),
        kind: Kind::default(),
        source_id: source_id.to_string(),
        source_key: source_key.to_string(),
        file_path: None,
        title: title.to_string(),
        description: None,
        cover_url: None,
        auto_download: false,
        category: "reading".to_string(),
        genres: Vec::new(),
        added_at: at(1_767_225_600),
        last_checked_at: None,
        missing_since: None,
    }
    .into_publication()
}

fn old_unit(id: &str, publication_id: &str, source_key: &str) -> ReadingUnit {
    ReadingUnit {
        id: parse_uuid(id).unwrap(),
        publication_id: parse_uuid(publication_id).unwrap(),
        source_key: source_key.to_string(),
        title: "Chapter 1".to_string(),
        number: None,
        source_order: 0,
        scanlator: None,
        fetched_at: at(1_767_225_600),
        published_at: None,
        download: DownloadState::Absent,
        page_count: None,
        read: false,
    }
}

#[test]
fn restore_accepts_a_1x_backup_file() {
    let scraped_id = "00000000-0000-0000-0000-00000000000a";
    let local_id = "00000000-0000-0000-0000-00000000000b";
    let backup = Backup {
        version: 1,
        exported_at: at(1_767_225_600),
        categories: vec![Category {
            id: "reading".to_string(),
            name: "Reading".to_string(),
            position: 0,
            update_enabled: true,
        }],
        publications: vec![
            old_publication(scraped_id, "fixture", "m1", "Scraped"),
            old_publication(local_id, "local", "Solo Farming", "Solo Farming"),
        ],
        units: vec![
            old_unit("00000000-0000-0000-0000-0000000000a1", scraped_id, "c1"),
            old_unit("00000000-0000-0000-0000-0000000000b1", local_id, "Solo Farming/Chapter 1"),
        ],
        read_unit_ids: vec![parse_uuid("00000000-0000-0000-0000-0000000000a1").unwrap()],
        progress: vec![ProgressEvent {
            id: parse_uuid("00000000-0000-0000-0000-0000000000e1").unwrap(),
            publication_id: parse_uuid(local_id).unwrap(),
            unit_id: parse_uuid("00000000-0000-0000-0000-0000000000b1").unwrap(),
            page: 4,
            device: "phone".to_string(),
            at: at(1_767_312_000),
        }],
    };

    let mut db = Db::in_memory();
    let summary = db.import_backup(SHARED, &backup).unwrap();
    assert_eq!(
        (summary.publications, summary.units, summary.read_marks, summary.progress_events),
        (2, 2, 1, 1)
    );

    let scraped = db.get_publication(parse_uuid(scraped_id).unwrap()).unwrap();
    assert_eq!(
        scraped.origin,
        Origin::Source { source_id: "fixture".to_string(), source_key: "m1".to_string() }
    );
    let local = db.get_publication(parse_uuid(local_id).unwrap()).unwrap();
    assert_eq!(local.origin, Origin::LocalFile { path: "Solo Farming".to_string() });
    let position = db.latest_position(SHARED, local.id).unwrap();
    assert_eq!(position.page(), 4);
}

#[test]
fn restore_preserves_publication_kind() {
    let backup = Backup {
        version: BACKUP_VERSION,
        exported_at: utc_now(),
        categories: Vec::new(),
        publications: vec![Publication {
            id: 0xF0,
            kind: Kind::Novels,
            origin: Origin::LocalFile { path: "A Novel".to_string() },
            title: "A Novel".to_string(),
            description: None,
            cover_url: None,
            auto_download: false,
            category: "reading".to_string(),
            genres: Vec::new(),
            added_at: utc_now(),
            last_checked_at: None,
            missing_since: None,
        }],
        units: Vec::new(),
        read_unit_ids: Vec::new(),
        progress: Vec::new(),
    };

    let mut db = Db::in_memory();
    let summary = db.import_backup(SHARED, &backup).unwrap();
    assert_eq!(summary.publications, 1);
    let restored = db.get_publication(0xF0).unwrap();
    assert_eq!(restored.kind, Kind::Novels);
}

#[test]
fn genres_are_stored_and_batched() {
    let mut db = Db::in_memory();
    let a = db
        .insert_publication(
            "fixture",
            &details_with_genres("m1", &[("c1", Some(1.0))], &["Action", "Fantasy"]),
            false,
        )
        .unwrap();
    let b = db
        .insert_publication(
            "fixture",
            &details_with_genres("m2", &[("c1", Some(1.0))], &["Fantasy", "Romance"]),
            false,
        )
        .unwrap();

    assert_eq!(a.genres, vec!["Action", "Fantasy"]);
    assert_eq!(db.get_publication(a.id).unwrap().genres, vec!["Action", "Fantasy"]);
    let listed = db.list_publications();
    let listed_b = listed.iter().find(|m| m.id == b.id).unwrap();
    assert_eq!(listed_b.genres, vec!["Fantasy", "Romance"]);

    db.set_genres(a.id, &vec!["Drama".to_string()]);
    assert_eq!(db.genres_for(a.id), vec!["Drama"]);
    assert_eq!(db.genres_for(b.id), vec!["Fantasy".to_string(), "Romance".to_string()]);
}

#[test]
fn download_queue_lists_and_transitions_states() {
    let mut db = Db::in_memory();
    let publication = db
        .insert_publication(
            "fixture",
            &details("m1", &[("c3", Some(3.0)), ("c2", Some(2.0)), ("c1", Some(1.0))]),
            false,
        )
        .unwrap();
    let units = db.list_units(publication.id);
    let (pending, downloaded, failed) = (units[0].id, units[1].id, units[2].id);

    db.mark_pending(&vec![pending]);
    db.mark_pending(&vec![downloaded]);
    db.finish_download(downloaded, Ok(5));
    db.mark_pending(&vec![failed]);
    db.finish_download(failed, Err("boom".to_string().into()));

    let queue = db.download_queue();
    let ids: Vec<Uuid> = queue.iter().map(|c| c.id).collect();
    assert!(ids.contains(&pending) && ids.contains(&failed));
    assert!(!ids.contains(&downloaded));

    assert_eq!(db.downloaded_summary(), (1, 5));

    let titles = db.publication_titles(&vec![publication.id]);
    assert_eq!(titles, vec![(publication.id, publication.title.clone())]);

    assert_eq!(db.dismiss_downloads(&vec![pending, downloaded]), 1);
    assert!(!db.download_queue().iter().any(|c| c.id == pending));

    assert_eq!(db.retry_failed(&vec![failed, downloaded]), 1);
    let after = db.list_units(publication.id);
    let failed_row = after.iter().find(|c| c.id == failed).unwrap();
    assert!(matches!(failed_row.download, DownloadState::Pending));
}

#[test]
fn library_keys_maps_source_key_to_id() {
    let mut db = Db::in_memory();
    let publication = db
        .insert_publication("fixture", &details("m1", &[("c1", Some(1.0))]), false)
        .unwrap();
    let keys = db.library_keys("fixture");
    assert_eq!(keys, vec![("m1".to_string(), publication.id)]);
    assert!(db.library_keys("other-source").is_empty());
}

fn summary(key: &str, title: &str) -> MangaSummary {
    MangaSummary {
        key: key.to_string(),
        title: title.to_string(),
        cover_url: Some(format!("https://c.example/{key}.jpg")),
        in_library: None,
    }
}

#[test]
fn catalog_upsert_and_page_roundtrip() {
    let mut db = Db::in_memory();
    let now = utc_now();
    db.upsert_catalog_entries("src", &vec![summary("a", "A"), summary("b", "B")], now);
    db.upsert_catalog_entries("src", &vec![summary("a", "A2")], now);
    db.write_catalog_page("src", "popular", 1, &vec!["a".to_string(), "b".to_string()], now);
    let (items, fetched_at) = db.read_catalog_page("src", "popular", 1).expect("cached page");
    assert_eq!(fetched_at, now);
    assert_eq!(items.iter().map(|s| s.title.as_str()).collect::<Vec<_>>(), ["A2", "B"]);
    assert!(db.read_catalog_page("src", "latest", 1).is_none());
    assert_eq!(db.catalog_source_for_cover("https://c.example/a.jpg"), Some("src".to_string()));
    assert_eq!(db.catalog_source_for_cover("https://evil.example/x"), None);
}

#[test]
fn published_at_backfills_and_never_clears() {
    let day = |d: i64| at(1_782_864_000 + (d - 1) * 86_400);

    let mut db = Db::in_memory();
    let publication = db
        .insert_publication("fixture", &details("m1", &[("c2", Some(2.0)), ("c1", Some(1.0))]), false)
        .unwrap();
    assert!(db.list_units(publication.id).iter().all(|c| c.published_at.is_none()));

    let mut listing = details("m1", &[("c2", Some(2.0)), ("c1", Some(1.0))]).chapters;
    listing[0].published_at = Some(day(2));
    listing[1].published_at = Some(day(1));
    db.sync_units(publication.id, &listing).unwrap();
    let units = db.list_units(publication.id);
    assert_eq!(units.iter().filter(|c| c.published_at.is_some()).count(), 2);

    listing[0].published_at = None;
    listing[1].published_at = None;
    db.sync_units(publication.id, &listing).unwrap();
    let units = db.list_units(publication.id);
    assert_eq!(units.iter().filter(|c| c.published_at.is_some()).count(), 2);

    listing[1].published_at = Some(day(5));
    db.sync_units(publication.id, &listing).unwrap();
    let units = db.list_units(publication.id);
    let c1 = units.iter().find(|c| c.source_key == "c1").unwrap();
    assert_eq!(c1.published_at, Some(day(5)));
}

fn library_lifecycle() {
    let mut db = Db::in_memory();

    let publication = db
        .insert_publication("fixture", &details("m1", &[("c2", Some(2.0)), ("c1", Some(1.0))]), false)
        .unwrap();
    assert_eq!(db.list_units(publication.id).len(), 2);

    assert!(matches!(
        db.insert_publication("fixture", &details("m1", &[("c1", Some(1.0))]), false),
        Err(DbError::Constraint(_))
    ));

    let before = db.list_units(publication.id);
    let new = db
        .sync_units(
            publication.id,
            &details("m1", &[("c3", Some(3.0)), ("c2", Some(2.0)), ("c1", Some(1.0))]).chapters,
        )
        .unwrap()
        .new_units;
    assert_eq!(new.len(), 1);
    assert_eq!(new[0].number, Some(number(3.0)));
    let after = db.list_units(publication.id);
    assert_eq!(after.len(), 3);
    assert_eq!(
        after.iter().map(|c| c.number.unwrap()).collect::<Vec<_>>(),
        [number(1.0), number(2.0), number(3.0)]
    );
    let old_c1 = before.iter().find(|c| c.number == Some(number(1.0))).unwrap();
    let new_c1 = after.iter().find(|c| c.number == Some(number(1.0))).unwrap();
    assert_eq!(old_c1.id, new_c1.id);

    db.mark_pending(&vec![new[0].id]);
    let picked = db.next_pending_download().unwrap();
    assert_eq!(picked.id, new[0].id);
    db.set_downloading(picked.id);
    assert!(db.finish_download(picked.id, Ok(12)));
    assert!(db.next_pending_download().is_none());
    let done = db.get_unit(picked.id).unwrap();
    assert!(matches!(done.download, DownloadState::Downloaded { .. }));
    assert_eq!(done.page_count, Some(12));

    db.delete_publication(publication.id).unwrap();
    assert!(matches!(db.get_publication(publication.id), Err(DbError::NotFound)));
    assert_eq!(db.list_units(publication.id).len(), 0);
    assert!(!db.finish_download(picked.id, Ok(12)));
}

#[test]
fn mod_library_lifecycle_and_chapter_sync() {
    library_lifecycle();
}

#[test]
fn db_library_lifecycle_and_chapter_sync() {
    library_lifecycle();
}

fn sync_prunes() {
    let mut db = Db::in_memory();
    let publication = db
        .insert_publication(
            "fixture",
            &details("m1", &[("c1", Some(1.0)), ("c2", Some(2.0)), ("c3", Some(3.0))]),
            false,
        )
        .unwrap();
    assert_eq!(db.list_units(publication.id).len(), 3);

    db.sync_units(
        publication.id,
        &details("m1", &[("c1", Some(1.0)), ("c2", Some(2.0)), ("c4", Some(3.0))]).chapters,
    )
    .unwrap();
    let keys: Vec<String> = db.list_units(publication.id).into_iter().map(|c| c.source_key).collect();
    assert_eq!(keys, ["c1", "c2", "c4"], "c3 pruned, c4 kept");
}

#[test]
fn mod_sync_prunes_chapters_that_left_the_listing() {
    sync_prunes();
}

#[test]
fn db_sync_prunes_chapters_that_left_the_listing() {
    sync_prunes();
}

fn sync_keeps_downloaded() {
    let mut db = Db::in_memory();
    let publication = db
        .insert_publication("fixture", &details("m1", &[("c1", Some(1.0)), ("c2", Some(2.0))]), false)
        .unwrap();
    let c2 = db.list_units(publication.id).into_iter().find(|c| c.source_key == "c2").unwrap();
    db.mark_pending(&vec![c2.id]);
    db.set_downloading(c2.id);
    db.finish_download(c2.id, Ok(5));

    db.sync_units(publication.id, &details("m1", &[("c1", Some(1.0))]).chapters).unwrap();
    let keys: Vec<String> = db.list_units(publication.id).into_iter().map(|c| c.source_key).collect();
    assert_eq!(keys, ["c1", "c2"], "downloaded c2 kept despite leaving listing");

    db.sync_units(publication.id, &Vec::new()).unwrap();
    assert_eq!(db.list_units(publication.id).len(), 2, "empty listing left the chapters untouched");
}

#[test]
fn mod_sync_keeps_downloaded_chapters_and_never_wipes_on_empty() {
    sync_keeps_downloaded();
}

#[test]
fn db_sync_keeps_downloaded_chapters_and_never_wipes_on_empty() {
    sync_keeps_downloaded();
}

fn reupload_merges() {
    let mut db = Db::in_memory();
    let publication = db
        .insert_publication("fixture", &details("m1", &[("old/1", Some(1.0)), ("old/2", Some(2.0))]), false)
        .unwrap();
    let units = db.list_units(publication.id);
    let old1 = units.iter().find(|c| c.source_key == "old/1").unwrap();
    let old2 = units.iter().find(|c| c.source_key == "old/2").unwrap();

    db.mark_pending(&vec![old1.id]);
    db.set_downloading(old1.id);
    db.finish_download(old1.id, Ok(9));
    db.mark_read(SHARED, &vec![old1.id, old2.id]).unwrap();
    db.append_event(SHARED, &event(77, publication.id, old1.id, 4, utc_now())).unwrap();

    let sync = db
        .sync_units(
            publication.id,
            &details("m1", &[("new/1", Some(1.0)), ("new/2", Some(2.0)), ("new/3", Some(3.0))]).chapters,
        )
        .unwrap();

    let units = db.list_units(publication.id);
    let keys: Vec<&str> = units.iter().map(|c| c.source_key.as_str()).collect();
    assert_eq!(keys, ["new/1", "new/2", "new/3"], "old twins merged away");

    let new1 = units.iter().find(|c| c.source_key == "new/1").unwrap();
    let new2 = units.iter().find(|c| c.source_key == "new/2").unwrap();
    assert!(
        matches!(new1.download, DownloadState::Downloaded { .. }),
        "old/1's download transferred to new/1"
    );
    assert_eq!(new1.page_count, Some(9));
    assert!(
        sync.file_ops.contains(&UnitFileOp::Rename { from: old1.id, to: new1.id }),
        "caller told to move old/1's pages: {:?}",
        sync.file_ops
    );

    let read = db.read_ids(SHARED, publication.id);
    assert!(read.contains(&new1.id) && read.contains(&new2.id));
    let position = db.latest_position(SHARED, publication.id).unwrap();
    assert_eq!(position.unit_id, new1.id);

    let new_keys: Vec<&str> = sync.new_units.iter().map(|c| c.source_key.as_str()).collect();
    assert_eq!(new_keys, ["new/3"]);
}

#[test]
fn mod_reuploaded_series_merges_twins_instead_of_duplicating() {
    reupload_merges();
}

#[test]
fn db_reuploaded_series_merges_twins_instead_of_duplicating() {
    reupload_merges();
}

fn journal_merges() {
    let mut db = Db::in_memory();
    let publication = db
        .insert_publication("fixture", &details("m1", &[("c1", Some(1.0))]), false)
        .unwrap();
    let chapter = db.list_units(publication.id).remove(0);
    let make = |id: Uuid, time: i64, page: u32| event(id, publication.id, chapter.id, page, at(time));

    let events = vec![make(1, 100, 3), make(3, 200, 8), make(2, 200, 5)];
    for e in &events {
        db.append_event(SHARED, e).unwrap();
    }
    db.append_event(SHARED, &events[0]).unwrap();

    let position = db.latest_position(SHARED, publication.id).unwrap();
    let expected = merge_position(&events).unwrap();
    assert_eq!(position.page(), expected.page);
    assert_eq!(position.page(), 8);

    let (all, cursor) = db.events_since(SHARED, None);
    assert_eq!(all.len(), 3);
    let cursor = cursor.unwrap();
    let (tail, _) = db.events_since(SHARED, Some(cursor));
    assert!(tail.is_empty());
    db.append_event(SHARED, &make(0, 50, 1)).unwrap();
    let (late, _) = db.events_since(SHARED, Some(cursor));
    assert_eq!(late.len(), 1);
    assert_eq!(late[0].id, 0);

    let mut bad = make(99, 100, 3);
    bad.publication_id = 999;
    assert!(matches!(db.append_event(SHARED, &bad), Err(DbError::Constraint(_))));

    let batch = vec![bad.clone(), make(4, 300, 9)];
    let (accepted, skipped) = db.append_events(SHARED, &batch);
    assert_eq!((accepted, skipped), (1, 1));
    let position = db.latest_position(SHARED, publication.id).unwrap();
    assert_eq!(position.page(), 9);
}

#[test]
fn mod_progress_journal_merge_and_idempotency() {
    journal_merges();
}

#[test]
fn db_progress_journal_merge_and_idempotency() {
    journal_merges();
}

#[test]
fn batch_append_skips_events_with_unknown_chapter() {
    let mut db = Db::in_memory();
    let publication = db
        .insert_publication("fixture", &details("m1", &[("c1", Some(1.0))]), false)
        .unwrap();
    let real = db.list_units(publication.id).remove(0);

    let good = event(1, publication.id, real.id, 4, at(100));
    let dangling = event(2, publication.id, 9999, 4, at(200));

    let (accepted, skipped) = db.append_events(SHARED, &vec![good, dangling]);
    assert_eq!((accepted, skipped), (1, 1));
    let position = db.latest_position(SHARED, publication.id).unwrap();
    assert_eq!(position.unit_id, real.id);
}

/// A way of signing in: by subject, name and display name.
type SignIn = fn(&mut Db, &str, &str, &str) -> User;

fn sign_in(db: &mut Db, subject: &str, username: &str, display_name: &str) -> User {
    db.upsert_oidc_user(subject, username, display_name).unwrap()
}

fn sign_in_qualified(db: &mut Db, subject: &str, username: &str, display_name: &str) -> User {
    db.upsert_qualified_user_at(subject, username, display_name, fresh_id(), utc_now()).unwrap()
}

fn sessions_and_positions(sign_in: SignIn) {
    let mut db = Db::in_memory();

    let shared = db.user_by_id(SHARED).unwrap();
    assert_eq!(shared.username, "everyone");

    let alice = sign_in(&mut db, "sub-1", "Alice", "Alice");
    assert_eq!(alice.username, "alice");
    let again = sign_in(&mut db, "sub-1", "Alice", "Alice Renamed");
    assert_eq!(again.id, alice.id);
    assert_eq!(again.display_name, "Alice Renamed");
    let clash = sign_in_qualified(&mut db, "sub-2", "alice", "Other Alice");
    assert_ne!(clash.id, alice.id);
    assert_eq!(clash.username, "alice-sub-2");

    db.create_session("h1", alice.id, days_from_now(1)).unwrap();
    assert_eq!(db.user_by_session("h1").unwrap().id, alice.id);
    let past = Timestamp { secs: utc_now().secs - 3600, nanos: 0 };
    db.create_session("h2", alice.id, past).unwrap();
    assert!(matches!(db.user_by_session("h2"), Err(DbError::NotFound)));
    db.delete_session("h1");
    assert!(matches!(db.user_by_session("h1"), Err(DbError::NotFound)));

    let publication = db
        .insert_publication("fixture", &details("m1", &[("c1", Some(1.0))]), false)
        .unwrap();
    let chapter = db.list_units(publication.id).remove(0);
    db.append_event(alice.id, &event(1, publication.id, chapter.id, 7, utc_now())).unwrap();
    assert_eq!(db.latest_position(alice.id, publication.id).unwrap().page(), 7);
    assert!(db.latest_position(SHARED, publication.id).is_none());
    let (alice_events, _) = db.events_since(alice.id, None);
    assert_eq!(alice_events.len(), 1);
    let (shared_events, _) = db.events_since(SHARED, None);
    assert!(shared_events.is_empty());
}

#[test]
fn mod_users_sessions_and_per_user_positions() {
    sessions_and_positions(sign_in);
}

#[test]
fn db_users_sessions_and_per_user_positions() {
    sessions_and_positions(sign_in_qualified);
}

#[test]
fn another_subject_with_the_same_name_joins_the_account() {
    let mut db = Db::in_memory();
    let alice = db.upsert_oidc_user("oidc-alice", "alice", "Alice").unwrap();
    let joined = db.upsert_oidc_user("proxy-alice", "Alice", "Alice").unwrap();
    assert_eq!(joined.id, alice.id);
}

#[test]
fn sessions_of_nobody_and_taken_tokens_are_refused() {
    let mut db = Db::in_memory();
    assert!(matches!(db.create_session("h", 77, days_from_now(1)), Err(DbError::Sqlx(_))));
    db.create_session("h", SHARED, days_from_now(1)).unwrap();
    assert!(matches!(db.create_session("h", SHARED, days_from_now(1)), Err(DbError::Sqlx(_))));
}

#[test]
fn expired_sessions_are_cleaned_up() {
    let mut db = Db::in_memory();
    let now = utc_now();
    db.create_session_at("old", SHARED, at(100), at(50)).unwrap();
    db.create_session_at("new", SHARED, days_from_now(1), at(60)).unwrap();
    assert_eq!(db.cleanup_expired_sessions_at(now), 1);
    assert!(matches!(db.user_by_session_at("old", now), Err(DbError::NotFound)));
    assert_eq!(db.user_by_session_at("new", now).unwrap().id, SHARED);
    assert_eq!(db.cleanup_expired_sessions(), 0);
}

fn categories_gate() {
    let mut db = Db::in_memory();

    let categories = db.list_categories();
    assert_eq!(
        categories.iter().map(|c| c.id.as_str()).collect::<Vec<_>>(),
        ["reading", "paused", "finished"]
    );
    assert_eq!(
        categories.iter().map(|c| c.update_enabled).collect::<Vec<_>>(),
        [true, false, false]
    );

    let publication = db
        .insert_publication("fixture", &details("m1", &[("c1", Some(1.0))]), false)
        .unwrap();
    assert_eq!(publication.category, "reading");
    assert_eq!(db.list_publications_for_update().len(), 1);

    let publication = db.set_category(publication.id, "finished").unwrap();
    assert_eq!(publication.category, "finished");
    assert!(db.list_publications_for_update().is_empty());
    assert!(matches!(db.set_category(publication.id, "dropped"), Err(DbError::Constraint(_))));

    let finished = db.set_category_update("finished", true).unwrap();
    assert!(finished.update_enabled);
    assert_eq!(db.list_publications_for_update().len(), 1);
    assert!(matches!(db.set_category_update("dropped", true), Err(DbError::NotFound)));
}

#[test]
fn mod_categories_gate_the_update_sweep() {
    categories_gate();
}

#[test]
fn db_categories_gate_the_update_sweep() {
    categories_gate();
}

fn read_marks() {
    let mut db = Db::in_memory();
    let publication = db
        .insert_publication(
            "fixture",
            &details("m1", &[("c1", Some(1.0)), ("c2", Some(2.0)), ("c3", Some(3.0))]),
            false,
        )
        .unwrap();
    let ids: Vec<Uuid> = db.list_units(publication.id).iter().map(|c| c.id).collect();

    assert_eq!(db.mark_read(SHARED, &ids[..2].to_vec()).unwrap(), 2);
    assert_eq!(db.mark_read(SHARED, &ids[..2].to_vec()).unwrap(), 0);
    let read = db.read_ids(SHARED, publication.id);
    assert_eq!(read.len(), 2);
    assert!(read.contains(&ids[0]) && read.contains(&ids[1]));

    let alice = db.upsert_qualified_user_at("sub-1", "alice", "Alice", 4242, utc_now()).unwrap();
    assert!(db.read_ids(alice.id, publication.id).is_empty());

    assert_eq!(db.mark_unread(SHARED, &ids[..1].to_vec()), 1);
    assert_eq!(db.read_ids(SHARED, publication.id).len(), 1);

    assert!(matches!(db.mark_read(SHARED, &vec![42]), Err(DbError::Constraint(_))));

    db.delete_publication(publication.id).unwrap();
    assert!(db.read_ids(SHARED, publication.id).is_empty());
}

#[test]
fn mod_read_marks_are_per_user_and_idempotent() {
    read_marks();
}

#[test]
fn db_read_marks_are_per_user_and_idempotent() {
    read_marks();
}

fn duplicate_keys() {
    let mut db = Db::in_memory();
    let publication = db
        .insert_publication("fixture", &details("m1", &[("c1", Some(1.0))]), false)
        .unwrap();
    let new = db
        .sync_units(
            publication.id,
            &details("m1", &[("c1", Some(1.0)), ("c2", Some(2.0)), ("c2", Some(2.0))]).chapters,
        )
        .unwrap()
        .new_units;
    assert_eq!(new.len(), 1);
    assert_eq!(db.list_units(publication.id).len(), 2);
}

#[test]
fn mod_duplicate_chapter_keys_in_one_listing_are_deduped() {
    duplicate_keys();
}

#[test]
fn db_duplicate_chapter_keys_in_one_listing_are_deduped() {
    duplicate_keys();
}

#[test]
fn updates_feed_records_filters_and_prunes() {
    let mut db = Db::in_memory();
    let publication = db
        .insert_publication("fixture", &details("m1", &[("c1", Some(1.0)), ("c2", Some(2.0))]), false)
        .unwrap();
    let units = db.list_units(publication.id);
    let beginning = at(FIRST_SECOND);

    db.add_update(publication.id, &Vec::new(), utc_now());
    assert!(db.updates_since(beginning, 100).is_empty());

    db.add_update(publication.id, &units, utc_now());
    let all = db.updates_since(beginning, 100);
    assert_eq!(all.len(), 1);
    assert_eq!(all[0].publication_id, publication.id);
    assert_eq!(all[0].publication_title, "Publication m1");
    assert_eq!(all[0].unit_count, 2);
    assert_eq!(all[0].first_title, "Chapter c1");
    assert_eq!(all[0].last_title, "Chapter c2");

    let seen = all[0].created_at;
    assert!(db.updates_since(seen, 100).is_empty());

    db.add_update(publication.id, &vec![db.list_units(publication.id).remove(0)], utc_now());
    assert_eq!(db.updates_since(beginning, 1).len(), 1);

    db.prune_updates(days_from_now(1));
    assert!(db.updates_since(beginning, 100).is_empty());
}

#[test]
fn next_pending_download_is_lowest_number_first() {
    let mut db = Db::in_memory();
    let publication = db
        .insert_publication(
            "fixture",
            &details("m1", &[("c3", Some(3.0)), ("c1", Some(1.0)), ("c2", Some(2.0))]),
            false,
        )
        .unwrap();
    let ids: Vec<Uuid> = db.list_units(publication.id).iter().map(|c| c.id).collect();
    db.mark_pending(&ids);
    let next = db.next_pending_download().unwrap();
    assert_eq!(next.number, Some(number(1.0)));
}

#[test]
fn local_publications_lifecycle() {
    let mut db = Db::in_memory();
    db.insert_publication("fixture", &details("m1", &[("c1", Some(1.0))]), false).unwrap();

    let local = db
        .insert_local_publication("Solo Farming", &details("Solo Farming", &[("c1", None)]))
        .unwrap();
    assert_eq!(local.origin, Origin::LocalFile { path: "Solo Farming".to_string() });
    assert!(local.missing_since.is_none());
    assert_eq!(db.list_units(local.id).len(), 1);

    assert!(matches!(
        db.insert_local_publication("Solo Farming", &details("Solo Farming", &[])),
        Err(DbError::Constraint(_))
    ));

    let listed = db.list_local_publications();
    assert_eq!(listed.len(), 1);
    assert_eq!(listed[0].id, local.id);
    assert_eq!(db.list_publications_for_update().len(), 1);
    assert!(matches!(&db.list_publications_for_update()[0].origin, Origin::Source { .. }));

    db.set_missing_since(local.id, Some(utc_now()));
    assert!(db.get_publication(local.id).unwrap().missing_since.is_some());
    db.repoint_local_publication(local.id, "Solo Farming v2").unwrap();
    let healed = db.get_publication(local.id).unwrap();
    assert_eq!(healed.origin, Origin::LocalFile { path: "Solo Farming v2".to_string() });
    assert!(healed.missing_since.is_none());

    db.update_local_metadata(local.id, Some("new desc".to_string()), None);
    let updated = db.get_publication(local.id).unwrap();
    assert_eq!(updated.description.as_deref(), Some("new desc"));
    assert_eq!(updated.title, "Publication Solo Farming");
}

#[test]
fn keys_and_paths_of_others_are_refused() {
    let mut db = Db::in_memory();
    let a = db.insert_publication("fixture", &details("m1", &[]), false).unwrap();
    let b = db.insert_publication("fixture", &details("m2", &[]), false).unwrap();
    let local = db.insert_local_publication("Book", &details("Book", &[])).unwrap();
    assert!(matches!(db.update_source_key(a.id, "m2"), Err(DbError::Sqlx(_))));
    assert!(matches!(db.update_source_key(local.id, "m3"), Err(DbError::Corrupt(_))));
    assert!(matches!(db.repoint_local_publication(b.id, "x"), Err(DbError::Corrupt(_))));
    db.update_source_key(a.id, "m3").unwrap();
    assert_eq!(
        db.get_publication(a.id).unwrap().origin,
        Origin::Source { source_id: "fixture".to_string(), source_key: "m3".to_string() }
    );
    db.update_source_key(12345, "m9").unwrap();
}

// ---- upgrades and reopening ----

const PUBLICATION: &str = "00000000-0000-0000-0000-00000000000a";
const UNIT: &str = "00000000-0000-0000-0000-00000000000b";
const ALICE: &str = "00000000-0000-0000-0000-00000000000c";
const DUPLICATE: &str = "00000000-0000-0000-0000-00000000000d";

/// The rows of a store with so many accounts, and history on the shared one.
fn historical(accounts: usize) -> Tables {
    let publication = parse_uuid(PUBLICATION).unwrap();
    let unit = parse_uuid(UNIT).unwrap();
    let mut tables = Db::in_memory_at(at(1_767_225_600)).into_tables();
    tables.publications.push(old_publication(PUBLICATION, "fixture", "m1", "Synthetic book"));
    let mut row = old_unit(UNIT, PUBLICATION, "c1");
    row.download = DownloadState::Downloaded { at: at(1_767_312_000) };
    row.page_count = Some(12);
    tables.units.push(row);
    let named = [(ALICE, "oidc-alice", "alice"), (DUPLICATE, "proxy-alice", "alice-proxy-alice")];
    for (id, subject, name) in named.into_iter().take(accounts) {
        let user = parse_uuid(id).unwrap();
        tables.users.push(Account {
            id: user,
            subject: Some(subject.to_string()),
            username: name.to_string(),
            display_name: name.to_string(),
            created_at: at(1_767_225_600),
        });
        tables.identities.push(Identity {
            subject: subject.to_string(),
            user_id: user,
            created_at: at(1_767_225_600),
        });
        tables.sessions.push(Session {
            token_hash: id.to_string(),
            user_id: user,
            created_at: at(1_767_225_600),
            expires_at: at(32_472_144_000),
        });
    }
    let mut owners = vec![SHARED];
    if accounts == 2 {
        owners.push(parse_uuid(DUPLICATE).unwrap());
    }
    for (i, owner) in owners.into_iter().enumerate() {
        tables.journal.push(JournalEntry {
            seq: tables.next_seq,
            user_id: owner,
            event: event(1000 + i as Uuid, publication, unit, 7, at(1_767_398_400)),
        });
        tables.next_seq += 1;
        tables.marks.push(ReadMark { user_id: owner, unit_id: unit, at: at(1_767_398_400) });
    }
    tables
}

fn assert_restored(db: &Db, accounts: usize) -> Vec<ProgressEvent> {
    let owner = if accounts == 0 { SHARED } else { parse_uuid(ALICE).unwrap() };
    let unit = db.get_unit(parse_uuid(UNIT).unwrap()).unwrap();
    assert_eq!(unit.page_count, Some(12));
    assert!(matches!(unit.download, DownloadState::Downloaded { .. }));
    let events = db.export_events(owner);
    assert_eq!(events.len(), if accounts == 2 { 2 } else { 1 });
    assert!(events.iter().all(|e| e.page == 7 && e.unit_id == parse_uuid(UNIT).unwrap()));
    assert_eq!(db.read_all_ids(owner).len(), 1);
    if accounts > 0 {
        assert_eq!(db.user_by_session(ALICE).unwrap().id, owner);
        assert!(db.export_events(SHARED).is_empty());
        if accounts == 2 {
            assert_eq!(db.user_by_session(DUPLICATE).unwrap().id, owner);
        }
    }
    events
}

#[test]
fn historical_upgrade_snapshot_and_reopen_preserve_history() {
    for accounts in [0usize, 1, 2] {
        let db = Db::connect(historical(accounts)).unwrap();
        let expected = assert_restored(&db, accounts);
        let mut kept = db.into_tables();
        if accounts == 2 {
            let owner = parse_uuid(ALICE).unwrap();
            assert_eq!(kept.identities.iter().filter(|i| i.user_id == owner).count(), 2);
        }
        for _ in 0..2 {
            let restored = Db::connect(kept).unwrap();
            assert_eq!(assert_restored(&restored, accounts), expected);
            kept = restored.into_tables();
        }
    }
}

#[test]
fn starting_with_identifiers_that_are_taken_fails() {
    assert!(matches!(Db::connect_at(historical(1), &vec![1000], at(9)), Err(DbError::Sqlx(_))));
    let db = Db::connect_at(historical(1), &vec![501], at(9)).unwrap();
    assert_eq!(db.export_events(parse_uuid(ALICE).unwrap())[0].id, 501);
}

#[test]
fn an_account_that_owns_nothing_goes_even_where_its_double_is_gone() {
    // The third account doubles the second, which doubles the first.
    let third = |tables: &mut Tables| {
        tables.users.push(Account {
            id: 0xe,
            subject: Some("x".to_string()),
            username: "alice-proxy-alice-x".to_string(),
            display_name: "x".to_string(),
            created_at: at(0),
        });
    };
    let mut tables = historical(2);
    third(&mut tables);
    let db = Db::connect(tables).unwrap();
    assert!(db.user_by_id(0xe).is_err());
    assert!(db.user_by_id(parse_uuid(DUPLICATE).unwrap()).is_err());

    let mut tables = historical(2);
    third(&mut tables);
    tables.identities.push(Identity { subject: "x".to_string(), user_id: 0xe, created_at: at(0) });
    assert!(Db::connect(tables).is_err());
}

#[test]
fn history_is_claimed_once() {
    let mut db = Db::open(historical(1)).unwrap();
    db.claim_shared_history_at(&vec![501, 502], at(9)).unwrap();
    let claim = Some(Claim { user_id: parse_uuid(ALICE).unwrap(), claimed_at: at(9) });
    let tables = db.into_tables();
    assert_eq!(tables.claim, claim);
    let mut db = Db::open(tables).unwrap();
    db.claim_shared_history_at(&vec![601, 602], at(10)).unwrap();
    assert_eq!(db.into_tables().claim, claim);
}

#[test]
fn interrupted_downloads_wait_again_after_opening() {
    let mut tables = historical(0);
    tables.units[0].download = DownloadState::Downloading;
    let db = Db::open(tables).unwrap();
    assert!(matches!(db.get_unit(parse_uuid(UNIT).unwrap()).unwrap().download, DownloadState::Pending));
}

#[test]
fn rows_that_break_constraints_are_refused() {
    let mut tables = historical(0);
    tables.units[0].publication_id = 999;
    assert!(matches!(Db::open(tables), Err(DbError::Corrupt(_))));

    let mut tables = historical(0);
    let twin = tables.units[0].clone();
    tables.units.push(twin);
    assert!(matches!(Db::open(tables), Err(DbError::Corrupt(_))));

    let mut tables = historical(0);
    tables.users.clear();
    assert!(matches!(Db::open(tables), Err(DbError::Corrupt(_))));

    let mut tables = historical(0);
    tables.next_seq = 1;
    assert!(matches!(Db::open(tables), Err(DbError::Corrupt(_))));
}

#[test]
fn unavailable_units_wait_for_the_reader() {
    let mut db = Db::in_memory();
    let publication = db
        .insert_publication("fixture", &details("m1", &[("c1", Some(1.0))]), false)
        .unwrap();
    let unit = db.list_units(publication.id).remove(0);
    db.mark_pending(&vec![unit.id]);
    db.finish_download(unit.id, Err(DownloadFailure::Unavailable("members only".to_string())));
    assert_eq!(db.mark_pending_new(&vec![unit.id]), 0);
    assert_eq!(db.mark_pending(&vec![unit.id]), 1);
}

#[test]
fn rows_are_taken_as_they_are() {
    let mut tables = historical(0);
    tables.units[0].download = DownloadState::Downloading;
    let db = Db::from_tables(tables).unwrap();
    assert!(matches!(db.get_unit(parse_uuid(UNIT).unwrap()).unwrap().download, DownloadState::Downloading));
    let mut broken = historical(0);
    broken.publications.clear();
    assert!(matches!(Db::from_tables(broken), Err(DbError::Corrupt(_))));
}
