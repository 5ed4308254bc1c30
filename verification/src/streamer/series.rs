//! What lies in the books directory: series with their units, and single books.

use vstd::prelude::*;

use crate::domain::source::{ChapterNumber, ChapterRef, MangaDetails, MangaSummary};
use crate::links::TEXT_LIMIT;
use crate::order::{in_order, is_ranking, lemma_sorted, lexical, lexical_before, sort_by, sorted};
use crate::streamer::keys::{local_text, local_url};
use crate::streamer::pages::{extensions, image_extensions, image_name, is_image_name};
use crate::streamer::{refusal, SourceError};
use crate::tables::{lemma_filter_len, retain};
use crate::text::{
    begins_with, debug_text, ends_with, finishes_with, join2, join3, lower_case, lowered, quoted, same, starts_with, text_opt, texts, trim_end_matches,
    without_suffixes,
};

verus! {

/// One entry of a directory.
#[derive(Debug, PartialEq, Eq)]
pub struct Entry {
    pub name: String,
    pub is_dir: bool,
    /// The number that its title holds (see `pages::chapter_number`), where it is one.
    pub number: Option<ChapterNumber>,
}

/// A series' own description, from the file beside its units.
#[derive(Debug, PartialEq, Eq)]
pub struct Details {
    pub title: Option<String>,
    pub description: Option<String>,
    pub genres: Vec<String>,
}

impl Default for Details {
    fn default() -> (r: Self)
        ensures
            r.title is None,
            r.description is None,
            r.genres@.len() == 0,
    {
        Details { title: None, description: None, genres: Vec::new() }
    }
}

/// A publication found in the books directory.
#[derive(Debug, PartialEq, Eq)]
pub struct Discovered {
    /// Where it lies, relative to the books directory. It is known by this.
    pub path: String,
    pub details: MangaDetails,
}

// ---- units ----

/// Whether a file is a comic archive, by its name.
pub open spec fn archive_name(name: Seq<char>) -> bool {
    finishes_with(lower_case(name), ".cbz"@)
}

/// Tells comic archives by their names.
pub fn is_archive_name(name: &str) -> (r: bool)
    ensures
        r == archive_name(name@),
{
    let lower = lowered(name);
    ends_with(lower.as_str(), ".cbz")
}

/// An entry that is read as a unit: a directory or an archive, not hidden.
pub open spec fn is_unit(e: Entry) -> bool {
    !begins_with(e.name@, "."@) && (e.is_dir || archive_name(e.name@))
}

/// Tells entries that are read as units.
pub fn unit_entry(e: &Entry) -> (r: bool)
    ensures
        r == is_unit(*e),
{
    !starts_with(e.name.as_str(), ".") && (e.is_dir || is_archive_name(e.name.as_str()))
}

/// The title of a unit or a single book, by its name: without the archive's extension.
pub open spec fn title_text(name: Seq<char>) -> Seq<char> {
    without_suffixes(without_suffixes(name, ".cbz"@), ".CBZ"@)
}

/// Gives the title of a unit or a single book, by its name.
pub fn title_of(name: &str) -> (r: String)
    ensures
        r@ == title_text(name@),
{
    let lower = trim_end_matches(name, ".cbz");
    trim_end_matches(lower.as_str(), ".CBZ")
}

/// One unit is read before another, or they rank alike: by their numbers, those without
/// one behind the others and by their titles.
pub open spec fn unit_before(a: Entry, b: Entry) -> bool {
    match (a.number, b.number) {
        (Some(x), Some(y)) => x.rank <= y.rank,
        (Some(_), None) => true,
        (None, Some(_)) => false,
        (None, None) => lexical(title_text(a.name@), title_text(b.name@)),
    }
}

/// The order in which units are read.
pub open spec fn unit_order() -> spec_fn(Entry, Entry) -> bool {
    |a: Entry, b: Entry| unit_before(a, b)
}

/// Whether one unit is read before another, or they rank alike.
pub fn reads_before(a: &Entry, b: &Entry) -> (r: bool)
    ensures
        r == unit_before(*a, *b),
{
    match (a.number, b.number) {
        (Some(x), Some(y)) => x.rank <= y.rank,
        (Some(_), None) => true,
        (None, Some(_)) => false,
        (None, None) => {
            let x = title_of(a.name.as_str());
            let y = title_of(b.name.as_str());
            lexical_before(x.as_str(), y.as_str())
        },
    }
}

/// A series' units, in reading order.
pub open spec fn units_of(entries: Seq<Entry>) -> Seq<Entry> {
    sorted(entries.filter(|e: Entry| is_unit(e)), unit_order())
}

/// A unit as the chapter of a series, so many places from the newest.
pub open spec fn chapter_is(c: ChapterRef, series: Seq<char>, e: Entry, place: int) -> bool {
    &&& c.key@ == series + "/"@ + e.name@
    &&& c.title@ == title_text(e.name@)
    &&& c.number == e.number
    &&& c.source_order == place
    &&& c.scanlator is None
    &&& c.published_at is None
}

/// What a series without units is answered.
pub open spec fn no_units_text(series: Seq<char>) -> Seq<char> {
    "no units (subdirectories or .cbz) in "@ + debug_text(series)
}

/// The chapters of a series: its units in reading order, with their places counted from
/// the newest.
pub fn series_chapters(series: &str, entries: Vec<Entry>) -> (r: Result<Vec<ChapterRef>, SourceError>)
    requires
        entries@.len() <= u32::MAX,
    ensures
        match r {
            Ok(chapters) => {
                &&& chapters@.len() == units_of(entries@).len() > 0
                &&& forall|i: int|
                    0 <= i < chapters@.len() ==> chapter_is(
                        #[trigger] chapters@[i],
                        series@,
                        units_of(entries@)[i],
                        chapters@.len() - 1 - i,
                    )
            },
            Err(e) => units_of(entries@).len() == 0 && refusal(e, no_units_text(series@)),
        },
{
    let ghost all = entries@;
    let ghost p = |e: Entry| is_unit(e);
    let unit = |e: &Entry| -> (b: bool)
        ensures b == is_unit(*e)
    {
        unit_entry(e)
    };
    let mut kept = entries;
    retain(&mut kept, unit, Ghost(p));
    proof {
        lemma_filter_len(all, p);
        crate::order::lemma_sorted_len(all.filter(p), unit_order());
    }
    let before = |a: &Entry, b: &Entry| -> (b2: bool)
        ensures b2 == unit_before(*a, *b)
    {
        reads_before(a, b)
    };
    let units = sort_by(kept, before, Ghost(unit_order()));
    assert(units@ == units_of(all));
    if units.len() == 0 {
        return Err(
            SourceError::Parse(join2("no units (subdirectories or .cbz) in ", quoted(series).as_str())),
        );
    }
    let last: u32 = (units.len() - 1) as u32;
    let mut chapters: Vec<ChapterRef> = Vec::new();
    let mut i: usize = 0;
    while i < units.len()
        invariant
            units@ == units_of(all),
            0 < units@.len() <= u32::MAX,
            last == units@.len() - 1,
            i <= units@.len(),
            chapters@.len() == i,
            forall|j: int|
                0 <= j < i ==> chapter_is(#[trigger] chapters@[j], series@, units@[j], last - j),
        decreases units@.len() - i,
    {
        chapters.push(
            ChapterRef {
                key: join3(series, "/", units[i].name.as_str()),
                title: title_of(units[i].name.as_str()),
                number: units[i].number,
                source_order: last - i as u32,
                scanlator: None,
                published_at: None,
            },
        );
        i += 1;
    }
    Ok(chapters)
}

/// Units come out in reading order, every unit among the entries and nothing else.
pub proof fn law_units_come_in_reading_order(entries: Seq<Entry>)
    ensures
        in_order(units_of(entries), unit_order()),
        units_of(entries).to_multiset() == entries.filter(|e: Entry| is_unit(e)).to_multiset(),
{
    let le = unit_order();
    assert(is_ranking(le)) by {
        assert forall|a: Entry, b: Entry| #[trigger] le(a, b) || le(b, a) by {
            crate::order::lemma_lexical_total(title_text(a.name@), title_text(b.name@));
        }
        assert forall|a: Entry, b: Entry, c: Entry| #[trigger] le(a, b) && #[trigger] le(b, c) implies le(
            a,
            c,
        ) by {
            let (x, y, z) = (title_text(a.name@), title_text(b.name@), title_text(c.name@));
            if lexical(x, y) && lexical(y, z) {
                crate::order::lemma_lexical_transitive(x, y, z);
            }
        }
    }
    lemma_sorted(entries.filter(|e: Entry| is_unit(e)), le);
}

// ---- covers ----

/// The names of a cover file, without the extension.
pub open spec fn cover_stems() -> Seq<Seq<char>> {
    seq!["cover"@, "folder"@]
}

/// The names under which a series' cover is looked for, in order.
pub open spec fn cover_names() -> Seq<Seq<char>> {
    Seq::new(12, |i: int| cover_stems()[i / 6] + "."@ + image_extensions()[i % 6])
}

/// Lists the names under which a series' cover is looked for, in order.
pub fn cover_candidates() -> (r: Vec<String>)
    ensures
        texts(r@) == cover_names(),
{
    let exts = extensions();
    let mut out: Vec<String> = Vec::new();
    let mut i: usize = 0;
    while i < 12
        invariant
            texts(exts@) == image_extensions(),
            i <= 12,
            out@.len() == i,
            forall|j: int| 0 <= j < i ==> (#[trigger] out@[j])@ == cover_names()[j],
        decreases 12 - i,
    {
        let stem = if i / 6 == 0 {
            "cover"
        } else {
            "folder"
        };
        assert(image_extensions().len() == 6);
        assert(texts(exts@)[i as int % 6] == exts@[i as int % 6]@);
        assert(stem@ == cover_stems()[i as int / 6]);
        out.push(join3(stem, ".", exts[i % 6].as_str()));
        i += 1;
    }
    assert(texts(out@) =~= cover_names());
    out
}

/// The first of the names that is there.
pub open spec fn first_there(names: Seq<Seq<char>>, there: Seq<Seq<char>>) -> Option<Seq<char>>
    decreases names.len(),
{
    if names.len() == 0 {
        None
    } else {
        match first_there(names.drop_last(), there) {
            Some(n) => Some(n),
            None => if there.contains(names.last()) {
                Some(names.last())
            } else {
                None
            },
        }
    }
}

proof fn lemma_first_there_stays(names: Seq<Seq<char>>, there: Seq<Seq<char>>, n: int)
    requires
        0 <= n <= names.len(),
        first_there(names.take(n), there) is Some,
    ensures
        first_there(names, there) == first_there(names.take(n), there),
    decreases names.len() - n,
{
    if n == names.len() {
        assert(names.take(n) =~= names);
    } else {
        assert(names.take(n + 1).drop_last() =~= names.take(n));
        lemma_first_there_stays(names, there, n + 1);
    }
}

/// Whether a text is among texts.
fn among(all: &Vec<String>, text: &str) -> (r: bool)
    ensures
        r == texts(all@).contains(text@),
{
    let mut i: usize = 0;
    while i < all.len()
        invariant
            i <= all@.len(),
            forall|j: int| 0 <= j < i ==> (#[trigger] all@[j])@ != text@,
        decreases all@.len() - i,
    {
        if same(all[i].as_str(), text) {
            assert(texts(all@)[i as int] == text@);
            return true;
        }
        i += 1;
    }
    assert(!texts(all@).contains(text@)) by {
        if texts(all@).contains(text@) {
            let k = choose|k: int| 0 <= k < texts(all@).len() && texts(all@)[k] == text@;
            assert(all@[k]@ == text@);
        }
    }
    false
}

/// A series' cover: the address of the first cover file that is there, and otherwise
/// the first page of its first unit.
pub open spec fn cover_of(
    series: Seq<char>,
    there: Seq<Seq<char>>,
    first_page: Option<Seq<char>>,
) -> Option<Seq<char>> {
    match first_there(cover_names(), there) {
        Some(name) => Some(local_text(series + "/"@ + name, None)),
        None => first_page,
    }
}

/// Chooses a series' cover, from the names of the files that are there and the first
/// page of its first unit.
pub fn find_cover(series: &str, there: &Vec<String>, first_page: Option<String>) -> (r: Option<String>)
    requires
        series@.len() + 13 <= TEXT_LIMIT,
    ensures
        text_opt(r) == cover_of(series@, texts(there@), text_opt(first_page)),
{
    let names = cover_candidates();
    let mut i: usize = 0;
    assert(cover_names().take(0) =~= Seq::empty());
    while i < names.len()
        invariant
            series@.len() + 13 <= TEXT_LIMIT,
            texts(names@) == cover_names(),
            i <= names@.len(),
            first_there(cover_names().take(i as int), texts(there@)) is None,
        decreases names@.len() - i,
    {
        assert(texts(names@)[i as int] == names@[i as int]@);
        assert(cover_names().take(i + 1).drop_last() =~= cover_names().take(i as int));
        if among(there, names[i].as_str()) {
            proof {
                lemma_first_there_stays(cover_names(), texts(there@), i + 1);
                lemma_cover_name_len(i as int);
                reveal_strlit("/");
            }
            let relative = join3(series, "/", names[i].as_str());
            return Some(local_url(relative.as_str(), None));
        }
        i += 1;
    }
    assert(cover_names().take(cover_names().len() as int) =~= cover_names());
    first_page
}

proof fn lemma_cover_name_len(i: int)
    requires
        0 <= i < 12,
    ensures
        cover_names()[i].len() <= 11,
{
    reveal_strlit("cover");
    reveal_strlit("folder");
    reveal_strlit(".");
    reveal_strlit("jpg");
    reveal_strlit("jpeg");
    reveal_strlit("png");
    reveal_strlit("webp");
    reveal_strlit("gif");
    reveal_strlit("avif");
    let stem = cover_stems()[i / 6];
    let ext = image_extensions()[i % 6];
    assert(stem.len() <= 6);
    assert(ext.len() <= 4);
}

/// All of a series: what its description says, its own name where that gives no title,
/// its cover and its chapters.
pub fn series_details(
    series: &str,
    details: Details,
    chapters: Vec<ChapterRef>,
    cover: Option<String>,
) -> (r: MangaDetails)
    ensures
        r.summary.key@ == series@,
        r.summary.title@ == (match details.title {
            Some(t) => t@,
            None => series@,
        }),
        r.summary.cover_url == cover,
        r.summary.in_library is None,
        r.description == details.description,
        r.genres == details.genres,
        r.chapters == chapters,
{
    MangaDetails {
        summary: MangaSummary {
            key: series.to_owned(),
            title: match details.title {
                Some(t) => t,
                None => series.to_owned(),
            },
            cover_url: cover,
            in_library: None,
        },
        description: details.description,
        genres: details.genres,
        chapters,
    }
}

// ---- discovery ----

/// What an entry at the top of the books directory is.
#[derive(Clone, Copy, Debug, PartialEq, Eq, Structural)]
pub enum Shape {
    /// A directory with units in it.
    Series,
    /// One archive: a book of its own.
    Archive,
    /// A directory of loose images: a book of its own.
    Images,
    /// Nothing that is read here.
    Nothing,
}

/// What an entry at the top of the books directory is, with what lies in it where it is
/// a directory.
pub open spec fn shape(name: Seq<char>, is_dir: bool, children: Seq<Entry>) -> Shape {
    if !is_dir {
        if archive_name(name) {
            Shape::Archive
        } else {
            Shape::Nothing
        }
    } else if exists|i: int| 0 <= i < children.len() && is_unit(#[trigger] children[i]) {
        Shape::Series
    } else if exists|i: int| 0 <= i < children.len() && image_name((#[trigger] children[i]).name@) {
        Shape::Images
    } else {
        Shape::Nothing
    }
}

/// Tells what an entry at the top of the books directory is.
pub fn shape_of(name: &str, is_dir: bool, children: &Vec<Entry>) -> (r: Shape)
    ensures
        r == shape(name@, is_dir, children@),
{
    if !is_dir {
        if is_archive_name(name) {
            return Shape::Archive;
        }
        return Shape::Nothing;
    }
    let mut images = false;
    let mut i: usize = 0;
    while i < children.len()
        invariant
            is_dir,
            i <= children@.len(),
            forall|j: int| 0 <= j < i ==> !is_unit(#[trigger] children@[j]),
            images == exists|j: int| 0 <= j < i && image_name((#[trigger] children@[j]).name@),
        decreases children@.len() - i,
    {
        if unit_entry(&children[i]) {
            assert(is_unit(children@[i as int]));
            return Shape::Series;
        }
        if is_image_name(children[i].name.as_str()) {
            assert(image_name(children@[i as int].name@));
            images = true;
        }
        i += 1;
    }
    if images {
        Shape::Images
    } else {
        Shape::Nothing
    }
}

/// Whether an entry at the top of the books directory is looked at: it is not hidden,
/// and not a series' description.
pub open spec fn looked_at(name: Seq<char>) -> bool {
    !begins_with(name, "."@) && name != "details.json"@
}

/// Tells whether an entry at the top of the books directory is looked at.
pub fn worth_a_look(name: &str) -> (r: bool)
    ensures
        r == looked_at(name@),
{
    !starts_with(name, ".") && !same(name, "details.json")
}

/// A book of its own: it and its only unit have the path for a key.
pub open spec fn single_is(d: MangaDetails, path: Seq<char>, title: Seq<char>, number: Option<ChapterNumber>) -> bool {
    &&& d.summary.key@ == path
    &&& d.summary.title@ == title
    &&& d.summary.cover_url is None
    &&& d.summary.in_library is None
    &&& d.description is None
    &&& d.genres@.len() == 0
    &&& d.chapters@.len() == 1
    &&& d.chapters@[0].key@ == path
    &&& d.chapters@[0].title@ == title
    &&& d.chapters@[0].number == number
    &&& d.chapters@[0].source_order == 0
    &&& d.chapters@[0].scanlator is None
    &&& d.chapters@[0].published_at is None
}

/// Describes a book of its own.
pub fn single_unit_details(path: &str, title: &str, number: Option<ChapterNumber>) -> (r: MangaDetails)
    ensures
        single_is(r, path@, title@, number),
{
    let mut chapters: Vec<ChapterRef> = Vec::new();
    chapters.push(
        ChapterRef {
            key: path.to_owned(),
            title: title.to_owned(),
            number,
            source_order: 0,
            scanlator: None,
            published_at: None,
        },
    );
    MangaDetails {
        summary: MangaSummary {
            key: path.to_owned(),
            title: title.to_owned(),
            cover_url: None,
            in_library: None,
        },
        description: None,
        genres: Vec::new(),
        chapters,
    }
}

/// What was read of an entry, by its shape.
#[derive(Debug, PartialEq, Eq)]
pub enum Probe {
    /// Of a series: all of it.
    Series(Result<MangaDetails, SourceError>),
    /// Of a book of its own: its pages, and the number in its title.
    Single(Result<Vec<String>, SourceError>, Option<ChapterNumber>),
    /// Nothing.
    Skipped,
}

/// The title of a book of its own: an archive's loses its extension.
pub open spec fn single_title(name: Seq<char>, is_dir: bool) -> Seq<char> {
    if is_dir {
        name
    } else {
        title_text(name)
    }
}

/// Makes a publication of what was read of an entry. A book of its own is taken up only
/// when its pages could be listed.
pub fn discover_entry(name: &str, is_dir: bool, probe: Probe) -> (r: Result<Option<Discovered>, SourceError>)
    ensures
        match probe {
            Probe::Series(Ok(details)) => r matches Ok(Some(d)) && d.path@ == name@ && d.details == details,
            Probe::Series(Err(e)) => r == Err::<Option<Discovered>, SourceError>(e),
            Probe::Single(Ok(_), number) => r matches Ok(Some(d)) && d.path@ == name@ && single_is(
                d.details,
                name@,
                single_title(name@, is_dir),
                number,
            ),
            Probe::Single(Err(e), _) => r == Err::<Option<Discovered>, SourceError>(e),
            Probe::Skipped => r matches Ok(None),
        },
{
    match probe {
        Probe::Series(Ok(details)) => Ok(Some(Discovered { path: name.to_owned(), details })),
        Probe::Series(Err(e)) => Err(e),
        Probe::Single(Ok(_), number) => {
            let title = if is_dir {
                name.to_owned()
            } else {
                title_of(name)
            };
            let details = single_unit_details(name, title.as_str(), number);
            Ok(Some(Discovered { path: name.to_owned(), details }))
        },
        Probe::Single(Err(e), _) => Err(e),
        Probe::Skipped => Ok(None),
    }
}

/// The publications among what came of the entries.
pub open spec fn found_among(outcomes: Seq<Result<Option<Discovered>, SourceError>>) -> Seq<Discovered>
    decreases outcomes.len(),
{
    if outcomes.len() == 0 {
        Seq::empty()
    } else {
        let before = found_among(outcomes.drop_last());
        match outcomes.last() {
            Ok(Some(d)) => before.push(d),
            _ => before,
        }
    }
}

/// Publications go by their paths.
pub open spec fn path_order() -> spec_fn(Discovered, Discovered) -> bool {
    |a: Discovered, b: Discovered| lexical(a.path@, b.path@)
}

/// Collects what was found in the books directory, by path. What could not be read is
/// left out.
pub fn discover(outcomes: Vec<Result<Option<Discovered>, SourceError>>) -> (r: Vec<Discovered>)
    ensures
        r@ == sorted(found_among(outcomes@), path_order()),
{
    let ghost all = outcomes@;
    let mut rest = outcomes;
    let mut found: Vec<Discovered> = Vec::new();
    let ghost mut done: int = 0;
    assert(all.take(0) =~= Seq::empty());
    assert(all.skip(0) =~= all);
    while rest.len() > 0
        invariant
            0 <= done <= all.len(),
            rest@ == all.skip(done),
            found@ == found_among(all.take(done)),
        decreases rest@.len(),
    {
        let next = rest.remove(0);
        assert(next == all[done]);
        assert(all.take(done + 1).drop_last() =~= all.take(done));
        assert(rest@ =~= all.skip(done + 1));
        match next {
            Ok(Some(d)) => {
                found.push(d);
            },
            _ => {},
        }
        proof {
            done = done + 1;
        }
    }
    assert(all.take(done) =~= all);
    let before = |a: &Discovered, b: &Discovered| -> (b2: bool)
        ensures b2 == lexical(a.path@, b.path@)
    {
        lexical_before(a.path.as_str(), b.path.as_str())
    };
    sort_by(found, before, Ghost(path_order()))
}

}
