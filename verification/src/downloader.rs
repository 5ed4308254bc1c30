//! Downloads: which source a unit is fetched from, how its pages are named on disk, and
//! what follows when the worker is done with it.

use vstd::prelude::*;

use crate::clock::Timestamp;
use crate::db::downloads::{all_finished, DownloadFailure};
use crate::db::{has_unit, Db, DbView};
use crate::domain::publication::Origin;
use crate::ids::{hyphenated_text, uuid_text, Uuid};
use crate::links::{read_url, url_parsed};
use crate::live_pages::LivePages;
use crate::numerals::{decimal, padded_text, zero_padded};
use crate::order::{lexical, lexical_before, sort_by, sorted};
use crate::streamer::pages::{after_dot, content_type_of_extension, extension_of, type_of_extension};
use crate::text::{
    chars_of, contains, debug_text, join3, last_index, lemma_last_index, occurs_in, pieces, quoted, rfind_char, same, split_on, text_opt,
    texts,
};

verus! {

// ---- file names ----

/// The extension of a page, by the content type that came with it, and otherwise by the
/// path it was fetched from.
pub open spec fn extension_text(content_type: Seq<char>, path: Option<Seq<char>>) -> Seq<char> {
    if occurs_in(content_type, "png"@) {
        "png"@
    } else if occurs_in(content_type, "webp"@) {
        "webp"@
    } else if occurs_in(content_type, "gif"@) {
        "gif"@
    } else if occurs_in(content_type, "avif"@) {
        "avif"@
    } else if occurs_in(content_type, "jpeg"@) || occurs_in(content_type, "jpg"@) {
        "jpg"@
    } else {
        let ext = match path {
            Some(p) => after_dot(p),
            None => None,
        };
        if ext == Some("png"@) {
            "png"@
        } else if ext == Some("webp"@) {
            "webp"@
        } else if ext == Some("gif"@) {
            "gif"@
        } else if ext == Some("avif"@) {
            "avif"@
        } else {
            "jpg"@
        }
    }
}

/// The path in an address, where it is one.
pub open spec fn path_in(url: Seq<char>) -> Option<Seq<char>> {
    match url_parsed(url) {
        Some(u) => Some(u.path),
        None => None,
    }
}

/// Chooses the extension of a page.
pub fn extension_for(content_type: &str, url: &str) -> (r: &'static str)
    ensures
        r@ == extension_text(content_type@, path_in(url@)),
{
    let path = match read_url(url) {
        Some(u) => Some(u.path),
        None => None,
    };
    assert(text_opt(path) == path_in(url@));
    choose_extension(content_type, path)
}

/// Chooses the extension of a page, by its content type and the path in its address.
pub fn choose_extension(content_type: &str, path: Option<String>) -> (r: &'static str)
    ensures
        r@ == extension_text(content_type@, text_opt(path)),
{
    if contains(content_type, "png") {
        return "png";
    }
    if contains(content_type, "webp") {
        return "webp";
    }
    if contains(content_type, "gif") {
        return "gif";
    }
    if contains(content_type, "avif") {
        return "avif";
    }
    if contains(content_type, "jpeg") || contains(content_type, "jpg") {
        return "jpg";
    }
    let ext = match &path {
        Some(p) => extension_of(p.as_str()),
        None => None,
    };
    match &ext {
        None => "jpg",
        Some(e) => {
            if same(e.as_str(), "png") {
                "png"
            } else if same(e.as_str(), "webp") {
                "webp"
            } else if same(e.as_str(), "gif") {
                "gif"
            } else if same(e.as_str(), "avif") {
                "avif"
            } else {
                "jpg"
            }
        },
    }
}

/// The name at the end of a path: what a path ignores does not count, and a way up is no
/// name.
pub open spec fn file_name(path: Seq<char>) -> Option<Seq<char>> {
    let names = pieces(path, '/').filter(|part: Seq<char>| part.len() > 0 && part != "."@);
    if names.len() == 0 || names.last() == ".."@ {
        None
    } else {
        Some(names.last())
    }
}

/// The extension of the name at the end of a path. A dot at the start of the name makes
/// it hidden, and opens no extension.
pub open spec fn path_extension(path: Seq<char>) -> Option<Seq<char>> {
    match file_name(path) {
        None => None,
        Some(name) => match last_index(name, '.') {
            Some(i) => if i > 0 {
                Some(name.skip(i + 1))
            } else {
                None
            },
            None => None,
        },
    }
}

/// Finds the name at the end of a path.
pub fn name_at_end(path: &str) -> (r: Option<String>)
    ensures
        text_opt(r) == file_name(path@),
{
    let parts = split_on(path, '/');
    let ghost all = pieces(path@, '/');
    let ghost p = |part: Seq<char>| part.len() > 0 && part != "."@;
    let mut found: Option<String> = None;
    let mut i: usize = 0;
    assert(all.take(0).filter(p) =~= Seq::empty());
    while i < parts.len()
        invariant
            texts(parts@) == all,
            p == (|part: Seq<char>| part.len() > 0 && part != "."@),
            i <= parts@.len(),
            found is None <==> all.take(i as int).filter(p).len() == 0,
            found matches Some(f) ==> f@ == all.take(i as int).filter(p).last(),
        decreases parts@.len() - i,
    {
        proof {
            assert(all.take(i + 1) =~= all.take(i as int).push(all[i as int]));
            crate::tables::lemma_filter_push(all.take(i as int), all[i as int], p);
        }
        let part = parts[i].as_str();
        assert(part@ == all[i as int]);
        if part.unicode_len() > 0 && !same(part, ".") {
            found = Some(parts[i].clone());
        }
        i += 1;
    }
    assert(all.take(all.len() as int) =~= all);
    match found {
        None => None,
        Some(name) => {
            if same(name.as_str(), "..") {
                None
            } else {
                Some(name)
            }
        },
    }
}

/// Gives the content type of a stored page, by its extension.
pub fn content_type_for(path: &str) -> (r: &'static str)
    ensures
        r@ == type_of_extension(path_extension(path@)),
{
    match name_at_end(path) {
        None => content_type_of_extension(None),
        Some(name) => {
            let chars = chars_of(name.as_str());
            proof {
                lemma_last_index(name@, '.');
            }
            match rfind_char(&chars, '.') {
                None => content_type_of_extension(None),
                Some(i) => {
                    if i == 0 {
                        return content_type_of_extension(None);
                    }
                    let n: usize = chars.len();
                    assert(name@.subrange(i + 1, n as int) =~= name@.skip(i + 1));
                    let ext = name.as_str().substring_char(i + 1, n);
                    content_type_of_extension(Some(ext))
                },
            }
        },
    }
}

/// The name of a page's file: its place, in at least four digits, and its extension.
pub open spec fn page_file_text(index: u32, ext: Seq<char>) -> Seq<char> {
    zero_padded(decimal(index as nat), 4) + "."@ + ext
}

/// Gives the name of a page's file.
pub fn page_file_name(index: u32, ext: &str) -> (r: String)
    ensures
        r@ == page_file_text(index, ext@),
{
    let number = padded_text(index as u64, 4);
    join3(number.as_str(), ".", ext)
}

/// The four digits of a number below ten thousand.
proof fn lemma_four_digits(n: nat)
    requires
        n < 10_000,
    ensures
        zero_padded(decimal(n), 4) == seq![
            crate::numerals::digit((n / 1000) as int),
            crate::numerals::digit((n / 100 % 10) as int),
            crate::numerals::digit((n / 10 % 10) as int),
            crate::numerals::digit((n % 10) as int),
        ],
{
    reveal_with_fuel(decimal, 5);
    let d = decimal(n);
    let all = seq![
        crate::numerals::digit((n / 1000) as int),
        crate::numerals::digit((n / 100 % 10) as int),
        crate::numerals::digit((n / 10 % 10) as int),
        crate::numerals::digit((n % 10) as int),
    ];
    assert(n / 10 / 10 == n / 100 && n / 100 / 10 == n / 1000);
    assert(crate::numerals::digit(0) == '0');
    assert(zero_padded(d, 4) =~= all);
}

/// A directory listing of a unit's pages, by name, is in reading order: the names of the
/// first ten thousand pages sort as the pages do, whatever their extensions.
pub proof fn law_page_files_sort_into_reading_order(i: u32, j: u32, a: Seq<char>, b: Seq<char>)
    requires
        i < j < 10_000,
    ensures
        lexical(page_file_text(i, a), page_file_text(j, b)),
        page_file_text(i, a) != page_file_text(j, b),
{
    let x = lemma_numbered_name(i, a);
    let y = lemma_numbered_name(j, b);
    lemma_names_in_order(page_file_text(i, a), page_file_text(j, b), x, y);
}

/// The four digits at the start of a page's name.
proof fn lemma_numbered_name(n: u32, ext: Seq<char>) -> (d: Seq<int>)
    requires
        n < 10_000,
    ensures
        d.len() == 4,
        page_file_text(n, ext).len() >= 4,
        forall|k: int|
            0 <= k < 4 ==> 0 <= #[trigger] d[k] <= 9 && page_file_text(n, ext)[k]
                == crate::numerals::digit(d[k]),
        n == d[0] * 1000 + d[1] * 100 + d[2] * 10 + d[3],
{
    lemma_four_digits(n as nat);
    let m = n as int;
    let d = seq![m / 1000, m / 100 % 10, m / 10 % 10, m % 10];
    let name = page_file_text(n, ext);
    assert(name[0] == crate::numerals::digit(d[0]));
    assert(name[1] == crate::numerals::digit(d[1]));
    assert(name[2] == crate::numerals::digit(d[2]));
    assert(name[3] == crate::numerals::digit(d[3]));
    assert(m / 100 == m / 10 / 10);
    assert(m / 1000 == m / 100 / 10);
    d
}

/// Names that start with four digits sort as the numbers that these make.
proof fn lemma_names_in_order(x: Seq<char>, y: Seq<char>, a: Seq<int>, b: Seq<int>)
    requires
        x.len() >= 4,
        y.len() >= 4,
        a.len() == 4,
        b.len() == 4,
        forall|k: int| 0 <= k < 4 ==> 0 <= #[trigger] a[k] <= 9 && x[k] == crate::numerals::digit(a[k]),
        forall|k: int| 0 <= k < 4 ==> 0 <= #[trigger] b[k] <= 9 && y[k] == crate::numerals::digit(b[k]),
        a[0] * 1000 + a[1] * 100 + a[2] * 10 + a[3] < b[0] * 1000 + b[1] * 100 + b[2] * 10 + b[3],
    ensures
        lexical(x, y),
        x != y,
{
    let at: int = if a[0] != b[0] {
        0
    } else if a[1] != b[1] {
        1
    } else if a[2] != b[2] {
        2
    } else {
        3
    };
    assert(a[at] < b[at]);
    assert forall|k: int| 0 <= k < at implies x[k] == #[trigger] y[k] by {
        assert(a[k] == b[k]);
    }
    crate::order::lemma_lexical_first_difference(x, y, at);
}

/// Puts the names of a unit's page files into reading order.
pub fn page_files(names: Vec<String>) -> (r: Vec<String>)
    ensures
        r@ == sorted(names@, |a: String, b: String| lexical(a@, b@)),
{
    let before = |a: &String, b: &String| -> (x: bool)
        ensures x == lexical(a@, b@)
    {
        lexical_before(a.as_str(), b.as_str())
    };
    sort_by(names, before, Ghost(|a: String, b: String| lexical(a@, b@)))
}

/// The directory of a downloaded unit's pages.
pub open spec fn unit_dir_text(data_dir: Seq<char>, publication_id: Uuid, unit_id: Uuid) -> Seq<char> {
    data_dir + "/"@ + hyphenated_text(publication_id) + "/"@ + hyphenated_text(unit_id)
}

/// Gives the directory of a downloaded unit's pages.
pub fn unit_dir(data_dir: &str, publication_id: Uuid, unit_id: Uuid) -> (r: String)
    ensures
        r@ == unit_dir_text(data_dir@, publication_id, unit_id),
{
    let own = join3(data_dir, "/", uuid_text(publication_id).as_str());
    join3(own.as_str(), "/", uuid_text(unit_id).as_str())
}

// ---- the worker ----

/// The unit that is being fetched, and how far it has come.
#[derive(Clone, Copy, Debug, PartialEq, Eq, Structural)]
pub struct ActiveDownload {
    pub unit_id: Uuid,
    /// The page that is being fetched, counted from one.
    pub page: u32,
    pub total: u32,
}

/// The source that a publication's units are fetched from, where it has one and it is
/// configured; and otherwise why they cannot be.
pub open spec fn fetched_from(origin: Origin, configured: bool) -> Result<Seq<char>, Seq<char>> {
    match origin {
        Origin::LocalFile { .. } => Err("publication is not source-backed"@),
        Origin::Source { source_id, .. } => if configured {
            Ok(source_id@)
        } else {
            Err("source "@ + debug_text(source_id@) + " not configured"@)
        },
    }
}

/// Finds the source that a publication's units are fetched from. Whether it is
/// configured is asked by its name.
pub fn source_for(origin: &Origin, configured: bool) -> (r: Result<String, String>)
    ensures
        match fetched_from(*origin, configured) {
            Ok(id) => r matches Ok(s) && s@ == id,
            Err(m) => r matches Err(e) && e@ == m,
        },
{
    match origin {
        Origin::LocalFile { .. } => Err("publication is not source-backed".to_owned()),
        Origin::Source { source_id, .. } => {
            if configured {
                Ok(source_id.clone())
            } else {
                Err(join3("source ", quoted(source_id.as_str()).as_str(), " not configured"))
            }
        },
    }
}

/// Records how a download ended, and says whether its files have to go: the unit was
/// deleted meanwhile and they belong to nothing. Readers of a unit that was fetched
/// turn to the copy on disk.
pub fn download_ended(
    db: &mut Db,
    live: &mut LivePages,
    unit_id: Uuid,
    outcome: Result<u32, DownloadFailure>,
    now: Timestamp,
) -> (r: bool)
    requires
        old(db).wf(),
        old(live).wf(),
    ensures
        final(db).wf(),
        final(live).wf(),
        final(db)@ == (DbView {
            units: all_finished(old(db)@.units, unit_id, outcome, now),
            ..old(db)@
        }),
        r == !has_unit(old(db)@.units, unit_id),
        final(live)@ == (if outcome is Ok && has_unit(old(db)@.units, unit_id) {
            old(live)@.remove(unit_id)
        } else {
            old(live)@
        }),
{
    let fetched = outcome.is_ok();
    let there = db.finish_download_at(unit_id, outcome, now);
    if there && fetched {
        live.invalidate(unit_id);
    }
    !there
}

/// Units of a local file are fetched from nowhere; those of a source's title from that source,
/// where it is configured.
pub proof fn law_units_are_fetched_from_their_source(origin: Origin, configured: bool)
    ensures
        fetched_from(origin, configured) is Ok <==> origin is Source && configured,
        configured ==> (origin matches Origin::Source { source_id, .. } ==> fetched_from(origin, configured)
            == Ok::<Seq<char>, Seq<char>>(source_id@)),
{
}

/// A content type that names one format alone decides the extension; where it names none, what
/// stands behind the last point of the path does, as far as it is a known format.
pub proof fn law_content_types_come_before_paths(content_type: Seq<char>, path: Option<Seq<char>>)
    ensures
        occurs_in(content_type, "png"@) ==> extension_text(content_type, path) == "png"@,
        !occurs_in(content_type, "png"@) && occurs_in(content_type, "webp"@) ==> extension_text(
            content_type,
            path,
        ) == "webp"@,
        !occurs_in(content_type, "png"@) && !occurs_in(content_type, "webp"@) && !occurs_in(
            content_type,
            "gif"@,
        ) && !occurs_in(content_type, "avif"@) ==> {
            &&& occurs_in(content_type, "jpeg"@) || occurs_in(content_type, "jpg"@) ==> extension_text(
                content_type,
                path,
            ) == "jpg"@
            &&& !occurs_in(content_type, "jpeg"@) && !occurs_in(content_type, "jpg"@) ==> {
                let ext = match path {
                    Some(p) => after_dot(p),
                    None => None,
                };
                if ext == Some("png"@) || ext == Some("webp"@) || ext == Some("gif"@) || ext == Some(
                    "avif"@,
                ) {
                    Some(extension_text(content_type, path)) == ext
                } else {
                    extension_text(content_type, path) == "jpg"@
                }
            }
        },
{
}

}
