//! The books directory.

use yomu::domain::source::ChapterNumber;
use yomu::streamer::keys::{check_key, image, lies_within, local_url, resolve};
use yomu::streamer::pages::{chapter_number, content_type_of, is_image_name, pages, sort_pages};
use yomu::streamer::series::{
    cover_candidates, discover, discover_entry, find_cover, series_chapters, series_details, shape_of, title_of, worth_a_look, Details, Entry,
    Probe, Shape,
};
use yomu::clock::Timestamp;
use yomu::db::Db;
use yomu::streamer::scan::{find_gone, find_known, note_missing, take_up, take_up_at};
use yomu::streamer::SourceError;

fn texts(items: &[&str]) -> Vec<String> {
    items.iter().map(|s| s.to_string()).collect()
}

fn value(title: &str) -> Option<f64> {
    chapter_number(title).and_then(|n| n.parse().ok())
}

fn number_of(title: &str) -> Option<ChapterNumber> {
    value(title).map(|v| ChapterNumber { rank: v.to_bits() as i64 })
}

fn entry(name: &str, is_dir: bool) -> Entry {
    Entry { name: name.to_string(), is_dir, number: number_of(&title_of(name)) }
}

#[test]
fn chapter_numbers_from_names() {
    assert_eq!(value("Chapter 12.5"), Some(12.5));
    assert_eq!(value("ch3"), Some(3.0));
    assert_eq!(value("0042 - The Tower"), Some(42.0));
    assert_eq!(value("Epilogue"), None);
}

#[test]
fn pages_sort_numerically() {
    let names = sort_pages(texts(&["10.png", "2.png", "1.png"]));
    assert_eq!(names, ["1.png", "2.png", "10.png"]);
}

#[test]
fn keys_cannot_escape_the_local_dir() {
    for key in ["../etc", "/etc/passwd", "a/../../b", ".hidden", ""] {
        assert!(check_key(key).is_err(), "key {key:?} must be rejected");
    }
    for key in ["Solo Farming", "a/b.cbz", "a//b", "a/./b"] {
        assert!(check_key(key).is_ok(), "{key:?}");
    }
    assert_eq!(
        check_key("../etc"),
        Err(SourceError::Parse("invalid local key \"../etc\"".to_string()))
    );
}

#[test]
fn symlinked_keys_cannot_escape_the_local_dir() {
    let dir = || Ok("/srv/books".to_string());
    assert_eq!(
        resolve("escape/secret", true, dir(), Ok("/srv/outside/secret".to_string())),
        Err(SourceError::Parse("local key \"escape/secret\" escapes the local dir".to_string()))
    );
    assert_eq!(
        resolve("a", true, dir(), Ok("/srv/books/a".to_string())),
        Ok("/srv/books/a".to_string())
    );
    assert!(resolve("a", true, dir(), Ok("/srv/books2/a".to_string())).is_err());
    assert_eq!(
        resolve("a", false, dir(), Ok("/srv/books/a".to_string())),
        Err(SourceError::Parse("local key \"a\" not found".to_string()))
    );
    assert_eq!(
        resolve("a", true, Err("gone".to_string()), Ok("/srv/books/a".to_string())),
        Err(SourceError::Parse("local dir not resolvable: gone".to_string()))
    );
    assert_eq!(
        resolve("a", true, dir(), Err("loop".to_string())),
        Err(SourceError::Parse("local key \"a\" not resolvable: loop".to_string()))
    );
    assert!(lies_within("/srv/books", "/srv/books/"));
}

#[test]
fn series_chapters_and_pages_from_disk() {
    let files = vec![entry("Chapter 2", true), entry("Chapter 1", true), entry("cover.png", false)];
    let chapters = series_chapters("Solo Farming", files).unwrap();
    let first = pages("Solo Farming/Chapter 1", texts(&["2.png", "10.png", "1.png"]), false).unwrap();
    let cover = find_cover("Solo Farming", &texts(&["cover.png"]), first.first().cloned());
    let details = series_details("Solo Farming", Details::default(), chapters, cover);
    assert_eq!(details.summary.title, "Solo Farming");
    assert_eq!(details.chapters.len(), 2);
    assert_eq!(details.chapters[0].number, number_of("1"));
    assert_eq!(details.chapters[0].source_order, 1);
    assert_eq!(details.chapters[1].source_order, 0);
    let cover = details.summary.cover_url.clone().unwrap();
    assert!(cover.starts_with("local:"));

    assert_eq!(first.len(), 3);
    let page = image(&first[0]).unwrap();
    assert_eq!(page.relative, "Solo Farming/Chapter 1/1.png");
    assert_eq!(page.entry, None);
    assert_eq!(page.content_type, "image/png");
    assert_eq!(image(&cover).unwrap().content_type, "image/png");
}

#[test]
fn archives_are_addressed_by_entry() {
    let urls = pages("One Shot.cbz", texts(&["p/10.jpg", "p/9.JPG", "notes.txt", ".hidden.png"]), true).unwrap();
    assert_eq!(urls.len(), 2);
    assert_eq!(urls[0], "local:///One%20Shot.cbz?entry=p%2F9.JPG");
    let page = image(&urls[0]).unwrap();
    assert_eq!(page.relative, "One Shot.cbz");
    assert_eq!(page.entry.as_deref(), Some("p/9.JPG"));
    assert_eq!(page.content_type, "image/jpeg");
    assert_eq!(
        pages("Empty", Vec::new(), false),
        Err(SourceError::Parse("no page images in \"Empty\"".to_string()))
    );
}

#[test]
fn addresses_read_back() {
    for (relative, entry) in [("a", None), ("a/b c/50%.png", None), ("a//b", Some("x & y=z")), ("é/ü", Some("ñ"))] {
        let page = image(&local_url(relative, entry)).unwrap();
        assert_eq!(page.relative, relative);
        assert_eq!(page.entry.as_deref(), entry);
    }
    // What an address drops does not read back.
    assert_eq!(image(&local_url("a/./b", None)).unwrap().relative, "a/b");
    assert_eq!(
        image("https://example.test/a"),
        Err(SourceError::Parse("not a local url: https://example.test/a".to_string()))
    );
    assert!(image("nonsense").is_err());
    assert!(image("local:///.hidden").is_err());
}

#[test]
fn images_are_told_by_their_names() {
    assert!(is_image_name("a.PNG"));
    assert!(is_image_name("a.jpeg"));
    assert!(!is_image_name(".a.png"));
    assert!(!is_image_name("png"));
    assert_eq!(content_type_of("a.WEBP"), "image/webp");
    assert_eq!(content_type_of("a.gif"), "image/gif");
    assert_eq!(content_type_of("a.avif"), "image/avif");
    assert_eq!(content_type_of("a"), "image/jpeg");
}

#[test]
fn units_without_numbers_follow_by_title() {
    let entries = vec![
        entry("Epilogue", true),
        entry("Chapter 10.cbz", false),
        entry("Afterword.CBZ", false),
        entry("chapter 9", true),
        entry(".git", true),
        entry("readme.txt", false),
    ];
    let chapters = series_chapters("S", entries).unwrap();
    let titles: Vec<&str> = chapters.iter().map(|c| c.title.as_str()).collect();
    assert_eq!(titles, ["chapter 9", "Chapter 10", "Afterword", "Epilogue"]);
    assert_eq!(chapters[1].key, "S/Chapter 10.cbz");
    assert_eq!(
        series_chapters("S", vec![entry("x.txt", false)]),
        Err(SourceError::Parse("no units (subdirectories or .cbz) in \"S\"".to_string()))
    );
}

#[test]
fn covers_are_looked_for_in_order() {
    let names = cover_candidates();
    assert_eq!(names.len(), 12);
    assert_eq!(names[0], "cover.jpg");
    assert_eq!(names[11], "folder.avif");
    assert_eq!(
        find_cover("S", &texts(&["folder.jpg", "cover.webp"]), None).as_deref(),
        Some("local:///S/cover.webp")
    );
    assert_eq!(find_cover("S", &Vec::new(), Some("p".to_string())).as_deref(), Some("p"));
}

#[test]
fn entries_become_publications_by_their_shape() {
    assert!(worth_a_look("A"));
    assert!(!worth_a_look(".A"));
    assert!(!worth_a_look("details.json"));
    assert_eq!(shape_of("a.cbz", false, &Vec::new()), Shape::Archive);
    assert_eq!(shape_of("a.epub", false, &Vec::new()), Shape::Nothing);
    assert_eq!(shape_of("A", true, &vec![entry("1.png", false), entry("c1", true)]), Shape::Series);
    assert_eq!(shape_of("A", true, &vec![entry("1.png", false)]), Shape::Images);
    assert_eq!(shape_of("A", true, &vec![entry("x.txt", false)]), Shape::Nothing);

    let single = discover_entry("B 3.cbz", false, Probe::Single(Ok(texts(&["p"])), number_of("B 3")));
    let images = discover_entry("A", true, Probe::Single(Ok(texts(&["p"])), None));
    let broken = discover_entry("C", true, Probe::Series(Err(SourceError::Http("x".to_string()))));
    let nothing = discover_entry("D", true, Probe::Skipped);
    assert_eq!(nothing, Ok(None));
    let found = discover(vec![single, broken, nothing, images]);
    let paths: Vec<&str> = found.iter().map(|d| d.path.as_str()).collect();
    assert_eq!(paths, ["A", "B 3.cbz"]);
    assert_eq!(found[1].details.summary.title, "B 3");
    assert_eq!(found[1].details.chapters[0].key, "B 3.cbz");
    assert_eq!(found[1].details.chapters[0].number, number_of("3"));
}

#[test]
fn looking_again_knows_what_was_there() {
    let book = |name: &str| discover_entry(name, true, Probe::Single(Ok(texts(&["p"])), None)).unwrap().unwrap();
    let mut db = Db::in_memory();
    let a = db.insert_local_publication("A", &book("A").details).unwrap().id;
    let b = db.insert_local_publication("B", &book("B").details).unwrap().id;
    let known = db.list_local_publications();
    assert_eq!(find_known(&known, "A"), Some(a));
    assert_eq!(find_known(&known, "C"), None);
    assert_eq!(find_gone(&known, &vec![book("A"), book("C")]), vec![b]);
    db.set_missing_since(b, Some(Timestamp { secs: 1, nanos: 0 }));
    assert!(find_gone(&db.list_local_publications(), &vec![book("A")]).is_empty());
}

#[test]
fn books_are_taken_up_once_and_missed_when_they_are_gone() {
    let book = |name: &str| discover_entry(name, true, Probe::Single(Ok(texts(&["p"])), None)).unwrap().unwrap();
    let at = |secs: i64| Timestamp { secs, nanos: 0 };
    let mut db = Db::in_memory();
    assert_eq!(take_up_at(&mut db, &book("A"), 5, &vec![51], at(1)), Ok(true));
    assert_eq!(db.list_units(5)[0].id, 51);
    assert_eq!(take_up(&mut db, &book("B")), Ok(true));
    assert!(take_up_at(&mut db, &book("C"), 5, &vec![71], at(1)).is_err());

    assert_eq!(note_missing(&mut db, &vec![book("B")], at(9)), 1);
    assert_eq!(db.get_publication(5).unwrap().missing_since, Some(at(9)));
    assert_eq!(note_missing(&mut db, &vec![book("B")], at(10)), 0);
    assert_eq!(db.get_publication(5).unwrap().missing_since, Some(at(9)));

    let mut again = book("A");
    again.details.description = Some("d".to_string());
    again.details.genres = texts(&["Drama"]);
    assert_eq!(take_up(&mut db, &again), Ok(false));
    let kept = db.get_publication(5).unwrap();
    assert_eq!((kept.missing_since, kept.description.as_deref()), (None, Some("d")));
    assert_eq!(kept.genres, ["Drama"]);
    assert_eq!(db.list_units(5).len(), 1);
    assert_eq!(db.list_units(5)[0].id, 51);
}
