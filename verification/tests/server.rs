//! Configuration, downloads, page lists, announcements.

use yomu::clock::{shifted_days, Timestamp};
use yomu::config::{books_config, round_interval, BooksSection, Config, NotifyConfig, OperationsConfig, UpdaterConfig};
use yomu::domain::publication::{DownloadState, Origin, ReadingUnit};
use yomu::downloader::{content_type_for, extension_for, page_file_name, page_files, source_for, unit_dir};
use yomu::live_pages::{LivePages, LIVE_PAGES_MAX, LIVE_PAGES_TTL};
use yomu::notifier::{message, notify_new_chapters};
use yomu::publishing::{recover, PublishStep, Recovery};

fn section(dir: &str) -> Option<BooksSection> {
    Some(BooksSection { enabled: None, dir: Some(dir.to_string()), scan_interval_secs: None })
}

#[test]
fn legacy_local_section_maps_to_books() {
    let books = books_config(None, section("/srv/media"));
    assert_eq!(books.dir, "/srv/media");
    assert!(books.enabled);
    assert_eq!(books.scan_interval_secs, 3600);
}

#[test]
fn books_section_parses() {
    let books = books_config(section("/srv/media"), None);
    assert_eq!(books.dir, "/srv/media");
    assert!(books.enabled);
    assert_eq!(books.scan_interval_secs, 3600);
}

#[test]
fn missing_section_yields_defaults() {
    let books = books_config(None, None);
    assert!(books.enabled);
    assert_eq!(books.dir, "local");
    assert_eq!(books.scan_interval_secs, 3600);
    let config = Config::default();
    assert_eq!(config.listen, "0.0.0.0:4700");
    assert_eq!(config.db_path, "yomu.db");
    assert_eq!(config.updater.interval_secs, 6 * 60 * 60);
    assert_eq!(config.catalog.ttl_secs, 6 * 60 * 60);
    assert_eq!(config.books, books);
    assert!(!config.auth.oidc_enabled());
}

#[test]
fn both_sections_present_books_wins() {
    assert_eq!(books_config(section("/new"), section("/old")).dir, "/new");
}

#[test]
fn intervals_are_clamped() {
    assert_eq!(round_interval(0), 60);
    assert_eq!(round_interval(61), 61);
    assert_eq!(UpdaterConfig { enabled: false, interval_secs: 100 }.period(), None);
    assert_eq!(UpdaterConfig { enabled: true, interval_secs: 0 }.period(), Some(60));
    let off = OperationsConfig { minimum_free_bytes: 0, maintenance_interval_secs: 0 };
    assert_eq!(off.period(), None);
    let on = OperationsConfig { minimum_free_bytes: 0, maintenance_interval_secs: 5 };
    assert_eq!(on.period(), Some(60));
    let t = Timestamp { secs: 100, nanos: 7 };
    assert_eq!(shifted_days(t, -1), Timestamp { secs: 100 - 86_400, nanos: 7 });
}

fn chapter(title: &str) -> ReadingUnit {
    ReadingUnit {
        id: 1,
        publication_id: 2,
        source_key: format!("k-{title}"),
        title: title.to_string(),
        number: None,
        source_order: 0,
        scanlator: None,
        fetched_at: Timestamp { secs: 0, nanos: 0 },
        published_at: None,
        download: DownloadState::Absent,
        page_count: None,
        read: false,
    }
}

#[test]
fn message_single_chapter_is_its_title() {
    assert_eq!(message(&vec![chapter("Chapter 171")]), "Chapter 171");
}

#[test]
fn message_many_chapters_shows_count_and_range() {
    let list = vec![chapter("Chapter 171"), chapter("Chapter 172"), chapter("Chapter 173")];
    assert_eq!(message(&list), "3 new chapters — Chapter 171 … Chapter 173");
}

#[test]
fn posts_to_the_topic_with_title_and_token() {
    let config = Some(NotifyConfig {
        url: "http://ntfy.example/yomu".to_string(),
        token: Some("tk_test".to_string()),
    });
    let push = notify_new_chapters(&config, "Some Manga", &vec![chapter("Chapter 5")]).unwrap();
    assert_eq!(push.title.as_deref(), Some("Some Manga"));
    assert_eq!(push.tags, "books");
    assert_eq!(push.token.as_deref(), Some("tk_test"));
    assert_eq!(push.body, "Chapter 5");
    assert_eq!(push.url, "http://ntfy.example/yomu");

    let push = notify_new_chapters(&config, "Two\nLines", &vec![chapter("Chapter 5")]).unwrap();
    assert_eq!(push.title, None);
    assert_eq!(push.body, "Two\nLines\nChapter 5");
    assert!(notify_new_chapters(&config, "Some Manga", &Vec::new()).is_none());
}

#[test]
fn unconfigured_notifier_is_a_noop() {
    assert!(notify_new_chapters(&None, "Some Manga", &vec![chapter("Chapter 5")]).is_none());
}

#[test]
fn page_files_are_named_and_typed() {
    assert_eq!(page_file_name(7, "png"), "0007.png");
    assert_eq!(page_file_name(12345, "jpg"), "12345.jpg");
    assert_eq!(extension_for("image/png", "https://c/x"), "png");
    assert_eq!(extension_for("image/jpeg", "https://c/x.png"), "jpg");
    assert_eq!(extension_for("application/octet-stream", "https://c/a.b/x.webp?y=.png"), "webp");
    assert_eq!(extension_for("", "https://c/x"), "jpg");
    assert_eq!(extension_for("", "nonsense"), "jpg");
    assert_eq!(content_type_for("/data/1/0000.png"), "image/png");
    assert_eq!(content_type_for("0000.webp"), "image/webp");
    assert_eq!(content_type_for("a.gif/"), "image/gif");
    assert_eq!(content_type_for("a.avif/."), "image/avif");
    assert_eq!(content_type_for("/x/.png"), "image/jpeg");
    assert_eq!(content_type_for("/x.png/.."), "image/jpeg");
    assert_eq!(content_type_for("x.PNG"), "image/jpeg");
    let sorted = page_files(vec!["0010.png".to_string(), "0002.jpg".to_string()]);
    assert_eq!(sorted, ["0002.jpg", "0010.png"]);
    assert_eq!(
        unit_dir("data", 1, 2),
        "data/00000000-0000-0000-0000-000000000001/00000000-0000-0000-0000-000000000002"
    );
}

#[test]
fn units_are_fetched_from_configured_sources() {
    let origin = Origin::Source { source_id: "s".to_string(), source_key: "k".to_string() };
    assert_eq!(source_for(&origin, true), Ok("s".to_string()));
    assert_eq!(source_for(&origin, false), Err("source \"s\" not configured".to_string()));
    let local = Origin::LocalFile { path: "p".to_string() };
    assert_eq!(source_for(&local, true), Err("publication is not source-backed".to_string()));
}

#[test]
fn page_lists_expire_and_are_bounded() {
    let mut live = LivePages::default();
    live.put(1, vec!["a".to_string()], 100);
    assert_eq!(live.get(1, 100 + LIVE_PAGES_TTL - 1), Some(vec!["a".to_string()]));
    assert_eq!(live.get(1, 100 + LIVE_PAGES_TTL), None);
    assert_eq!(live.get(1, 0), Some(vec!["a".to_string()]));
    for id in 2..=LIVE_PAGES_MAX as u128 {
        live.put(id, Vec::new(), 100 + id as u64);
    }
    live.put(1, vec!["b".to_string()], 101);
    assert!(live.get(2, 200).is_some());
    live.put(999, Vec::new(), 500);
    assert!(live.get(1, 200).is_none());
    assert!(live.get(999, 500).is_some());
    live.invalidate(999);
    live.invalidate_many(&vec![2, 3]);
    assert!(live.get(999, 500).is_none() && live.get(2, 200).is_none() && live.get(3, 200).is_none());
    assert!(live.get(4, 200).is_some());
}

/// The three places of a publication on disk, by what lies in them.
#[derive(Clone, Copy, Debug, PartialEq)]
struct Disk {
    target: Option<u8>,
    aside: Option<u8>,
    waiting: Option<u8>,
}

/// Does one step; `false` where there is nothing to move.
fn act(disk: &mut Disk, step: PublishStep) -> bool {
    match step {
        PublishStep::ClearAside | PublishStep::DropAside => {
            disk.aside = None;
            true
        }
        PublishStep::SetAside => {
            disk.aside = disk.target.take();
            disk.aside.is_some()
        }
        PublishStep::MoveIn { .. } => {
            if disk.waiting.is_none() {
                return false;
            }
            disk.target = disk.waiting.take();
            true
        }
        PublishStep::MoveBack => {
            disk.target = disk.aside.take();
            disk.target.is_some()
        }
        PublishStep::Done | PublishStep::Failed => true,
    }
}

fn publish(disk: &mut Disk) -> PublishStep {
    let mut step = PublishStep::first();
    while step != PublishStep::Done && step != PublishStep::Failed {
        let ok = act(disk, step);
        step = step.next(ok);
    }
    step
}

#[test]
fn failed_replacement_and_interrupted_publish_preserve_complete_pages() {
    // Nothing waits to move in: the good pages stay.
    let mut disk = Disk { target: Some(1), aside: None, waiting: None };
    assert_eq!(publish(&mut disk), PublishStep::Failed);
    assert_eq!(disk.target, Some(1));
    // A stop between setting the old copy aside and moving the new one in.
    disk.aside = disk.target.take();
    for _ in 0..2 {
        match recover(disk.target.is_some(), disk.aside.is_some()) {
            Recovery::MoveBack => disk.target = disk.aside.take(),
            Recovery::DropAside => disk.aside = None,
            Recovery::Nothing => {}
        }
    }
    assert_eq!(disk.target, Some(1));
    disk.waiting = Some(2);
    assert_eq!(publish(&mut disk), PublishStep::Done);
    assert_eq!(disk, Disk { target: Some(2), aside: None, waiting: None });
    assert_eq!(recover(true, true), Recovery::DropAside);
}
