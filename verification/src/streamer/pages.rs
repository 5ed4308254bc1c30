//! The pages of a unit: which files are images, and the order in which they are read.

use vstd::prelude::*;

use crate::links::TEXT_LIMIT;
use crate::numerals::{parse_u64, parsed_u64};
use crate::order::{lexical, lexical_before, sort_by, sorted};
use crate::streamer::keys::{local_text, local_url};
use crate::streamer::{refusal, SourceError};
use crate::text::{
    chars_of, debug_text, ends_with, finishes_with, begins_with, join2, join3, last_index, lemma_last_index, lower_case, lowered, quoted, rfind_char,
    same, starts_with, texts,
};

verus! {

/// The extensions of image files.
pub open spec fn image_extensions() -> Seq<Seq<char>> {
    seq!["jpg"@, "jpeg"@, "png"@, "webp"@, "gif"@, "avif"@]
}

/// Whether a file is an image that readers are shown, by its name: not hidden, and with
/// an image's extension in whatever case.
pub open spec fn image_name(name: Seq<char>) -> bool {
    &&& !begins_with(name, "."@)
    &&& exists|i: int|
        0 <= i < image_extensions().len() && finishes_with(
            lower_case(name),
            "."@ + #[trigger] image_extensions()[i],
        )
}

/// Tells image files by their names.
pub fn is_image_name(name: &str) -> (r: bool)
    ensures
        r == image_name(name@),
{
    if starts_with(name, ".") {
        return false;
    }
    let lower = lowered(name);
    let all = extensions();
    let mut i: usize = 0;
    while i < all.len()
        invariant
            texts(all@) == image_extensions(),
            lower@ == lower_case(name@),
            !begins_with(name@, "."@),
            i <= all@.len(),
            forall|j: int|
                0 <= j < i ==> !finishes_with(lower@, "."@ + #[trigger] image_extensions()[j]),
        decreases all@.len() - i,
    {
        let ext = join2(".", all[i].as_str());
        assert(texts(all@)[i as int] == all@[i as int]@);
        if ends_with(lower.as_str(), ext.as_str()) {
            assert(finishes_with(lower_case(name@), "."@ + image_extensions()[i as int]));
            return true;
        }
        i += 1;
    }
    false
}

/// The extensions of image files.
pub fn extensions() -> (r: Vec<String>)
    ensures
        texts(r@) == image_extensions(),
{
    let mut out: Vec<String> = Vec::new();
    out.push("jpg".to_owned());
    out.push("jpeg".to_owned());
    out.push("png".to_owned());
    out.push("webp".to_owned());
    out.push("gif".to_owned());
    out.push("avif".to_owned());
    assert(texts(out@) =~= image_extensions());
    out
}

/// What stands behind the last dot of a name.
pub open spec fn after_dot(name: Seq<char>) -> Option<Seq<char>> {
    match last_index(name, '.') {
        Some(i) => Some(name.skip(i + 1)),
        None => None,
    }
}

/// Finds what stands behind the last dot of a name.
pub fn extension_of(name: &str) -> (r: Option<String>)
    ensures
        crate::text::text_opt(r) == after_dot(name@),
{
    let chars = chars_of(name);
    match rfind_char(&chars, '.') {
        None => None,
        Some(i) => {
            proof {
                lemma_last_index(name@, '.');
            }
            let n: usize = chars.len();
            assert(name@.subrange(i + 1, n as int) =~= name@.skip(i + 1));
            Some(name.substring_char(i + 1, n).to_owned())
        },
    }
}

/// The content type of an extension. All that is not known is taken for JPEG.
pub open spec fn type_of_extension(ext: Option<Seq<char>>) -> Seq<char> {
    if ext == Some("png"@) {
        "image/png"@
    } else if ext == Some("webp"@) {
        "image/webp"@
    } else if ext == Some("gif"@) {
        "image/gif"@
    } else if ext == Some("avif"@) {
        "image/avif"@
    } else {
        "image/jpeg"@
    }
}

/// Gives the content type of an extension.
pub fn content_type_of_extension(ext: Option<&str>) -> (r: &'static str)
    ensures
        r@ == type_of_extension(crate::text::str_opt(ext)),
{
    match ext {
        None => "image/jpeg",
        Some(e) => {
            if same(e, "png") {
                "image/png"
            } else if same(e, "webp") {
                "image/webp"
            } else if same(e, "gif") {
                "image/gif"
            } else if same(e, "avif") {
                "image/avif"
            } else {
                "image/jpeg"
            }
        },
    }
}

/// The content type of a file in the books directory, by its name.
pub open spec fn content_type_text(name: Seq<char>) -> Seq<char> {
    type_of_extension(after_dot(lower_case(name)))
}

/// Gives the content type of a file in the books directory, by its name.
pub fn content_type_of(name: &str) -> (r: &'static str)
    ensures
        r@ == content_type_text(name@),
{
    let lower = lowered(name);
    let ext = extension_of(lower.as_str());
    match &ext {
        Some(e) => content_type_of_extension(Some(e.as_str())),
        None => content_type_of_extension(None),
    }
}

// ---- numbers in names ----

/// What a pattern's first group captures in a text, where the pattern matches.
pub uninterp spec fn first_capture(pattern: Seq<char>, text: Seq<char>) -> Option<Seq<char>>;

/// `regex::Regex`: the first match of a pattern in a text, and what its first group
/// captures. Nothing is claimed but that it depends on the pattern and the text alone;
/// a pattern that is none captures nothing.
#[verifier::external_body]
pub(crate) fn capture(pattern: &str, text: &str) -> (r: Option<String>)
    ensures
        crate::text::text_opt(r) == first_capture(pattern@, text@),
{
    let regex = regex::Regex::new(pattern).ok()?;
    Some(regex.captures(text)?.get(1)?.as_str().to_owned())
}

/// A number behind a chapter's word.
pub const CHAPTER_PATTERN: &'static str = r"(?i)ch(?:apter)?\.?\s*(\d+(?:\.\d+)?)";

/// Any number, with a fraction or without.
pub const NUMBER_PATTERN: &'static str = r"(\d+(?:\.\d+)?)";

/// Any whole number.
pub const INTEGER_PATTERN: &'static str = r"(\d+)";

/// The number in a chapter's title, as it stands there: the one behind "chapter" or
/// "ch", and otherwise the first.
pub open spec fn number_text(title: Seq<char>) -> Option<Seq<char>> {
    match first_capture(CHAPTER_PATTERN@, title) {
        Some(n) => Some(n),
        None => first_capture(NUMBER_PATTERN@, title),
    }
}

/// Finds the number in a chapter's title, as it stands there.
pub fn chapter_number(title: &str) -> (r: Option<String>)
    ensures
        crate::text::text_opt(r) == number_text(title@),
{
    match capture(CHAPTER_PATTERN, title) {
        Some(n) => Some(n),
        None => capture(NUMBER_PATTERN, title),
    }
}

/// The first whole number in a page's name, where it has one of a size that can be told.
pub open spec fn page_number(name: Seq<char>) -> Option<u64> {
    match first_capture(INTEGER_PATTERN@, name) {
        Some(n) => parsed_u64(n),
        None => None,
    }
}

/// Finds the first whole number in a page's name.
pub fn first_int(name: &str) -> (r: Option<u64>)
    ensures
        r == page_number(name@),
{
    match capture(INTEGER_PATTERN, name) {
        Some(n) => parse_u64(n.as_str()),
        None => None,
    }
}

/// Page names are read by their numbers where both have one and they differ, and in
/// dictionary order otherwise.
pub open spec fn page_before(
    a: Seq<char>,
    b: Seq<char>,
    x: Option<u64>,
    y: Option<u64>,
) -> bool {
    match (x, y) {
        (Some(x), Some(y)) => if x != y {
            x < y
        } else {
            lexical(a, b)
        },
        _ => lexical(a, b),
    }
}

/// The order in which pages are read.
pub open spec fn page_order() -> spec_fn(String, String) -> bool {
    |a: String, b: String| page_before(a@, b@, page_number(a@), page_number(b@))
}

/// Whether one page is read before another, or they are the same, by their names and the
/// numbers in them.
pub fn reads_before(a: &str, b: &str, x: Option<u64>, y: Option<u64>) -> (r: bool)
    ensures
        r == page_before(a@, b@, x, y),
{
    match (x, y) {
        (Some(x), Some(y)) => {
            if x != y {
                x < y
            } else {
                lexical_before(a, b)
            }
        },
        _ => lexical_before(a, b),
    }
}

/// Sorts page names into reading order.
pub fn sort_pages(names: Vec<String>) -> (r: Vec<String>)
    ensures
        r@ == sorted(names@, page_order()),
{
    let before = |a: &String, b: &String| -> (r: bool)
        ensures r == page_before(a@, b@, page_number(a@), page_number(b@))
    {
        reads_before(a.as_str(), b.as_str(), first_int(a.as_str()), first_int(b.as_str()))
    };
    sort_by(names, before, Ghost(page_order()))
}

/// The order in which pages are read, with those that have no number behind the others.
spec fn numbered_first() -> spec_fn(String, String) -> bool {
    |a: String, b: String|
        {
            let x = page_number(a@);
            let y = page_number(b@);
            if x is Some == y is Some {
                page_before(a@, b@, x, y)
            } else {
                x is Some
            }
        }
}

proof fn lemma_numbered_first_ranks()
    ensures
        crate::order::is_ranking(numbered_first()),
{
    let le = numbered_first();
    assert forall|a: String, b: String| #[trigger] le(a, b) || le(b, a) by {
        crate::order::lemma_lexical_total(a@, b@);
    }
    assert forall|a: String, b: String, c: String| #[trigger] le(a, b) && #[trigger] le(b, c) implies le(
        a,
        c,
    ) by {
        if lexical(a@, b@) && lexical(b@, c@) {
            crate::order::lemma_lexical_transitive(a@, b@, c@);
        }
    }
}

/// Pages that all have numbers in their names, or none of which has, come out in reading
/// order, each page once. (Between numbered and unnumbered pages the order has no say.)
pub proof fn law_pages_come_in_reading_order(names: Seq<String>)
    requires
        (forall|i: int| 0 <= i < names.len() ==> page_number((#[trigger] names[i])@) is Some) || (
        forall|i: int| 0 <= i < names.len() ==> page_number((#[trigger] names[i])@) is None),
    ensures
        sorted(names, page_order()).to_multiset() == names.to_multiset(),
        forall|i: int, j: int|
            0 <= i < j < names.len() ==> page_order()(
                #[trigger] sorted(names, page_order())[i],
                #[trigger] sorted(names, page_order())[j],
            ),
{
    let apart = numbered_first();
    lemma_numbered_first_ranks();
    assert forall|a: String, b: String| names.contains(a) && names.contains(b) implies #[trigger] apart(
        a,
        b,
    ) == page_order()(a, b) by {
        let i = choose|i: int| 0 <= i < names.len() && names[i] == a;
        let j = choose|j: int| 0 <= j < names.len() && names[j] == b;
        assert(page_number(names[i]@) is Some == page_number(names[j]@) is Some);
    }
    crate::order::lemma_sorted_agree(names, apart, page_order());
    crate::order::lemma_sorted(names, apart);
    let out = sorted(names, page_order());
    assert forall|i: int, j: int| 0 <= i < j < names.len() implies page_order()(
        #[trigger] out[i],
        #[trigger] out[j],
    ) by {
        assert(out.contains(out[i]) && out.contains(out[j]));
        assert(apart(out[i], out[j]));
    }
}

// ---- page lists ----

/// The images among a directory's files, in reading order.
pub open spec fn page_names(files: Seq<String>) -> Seq<String> {
    sorted(files.filter(|f: String| image_name(f@)), page_order())
}

/// Picks the images out of a directory's or an archive's files, in reading order.
pub fn pages_among(files: Vec<String>) -> (r: Vec<String>)
    ensures
        r@ == page_names(files@),
{
    let ghost all = files@;
    let shown = |f: &String| -> (b: bool)
        ensures b == image_name(f@)
    {
        is_image_name(f.as_str())
    };
    let mut kept = files;
    crate::tables::retain(&mut kept, shown, Ghost(|f: String| image_name(f@)));
    assert(kept@ =~= all.filter(|f: String| image_name(f@)));
    sort_pages(kept)
}

/// What a unit without pages is answered.
pub open spec fn no_pages_text(key: Seq<char>) -> Seq<char> {
    "no page images in "@ + debug_text(key)
}

/// The address of a page: a file of its own, or an entry of the unit's archive.
pub open spec fn page_address(key: Seq<char>, name: Seq<char>, archive: bool) -> Seq<char> {
    if archive {
        local_text(key, Some(name))
    } else {
        local_text(key + "/"@ + name, None)
    }
}

/// Lists the addresses of a unit's pages, in reading order. The files are those in the
/// unit's directory, or the file entries of its archive.
pub fn pages(key: &str, files: Vec<String>, archive: bool) -> (r: Result<Vec<String>, SourceError>)
    requires
        forall|i: int|
            0 <= i < files@.len() ==> key@.len() + (#[trigger] files@[i])@.len() + 2 <= TEXT_LIMIT,
    ensures
        match r {
            Ok(urls) => {
                &&& page_names(files@).len() > 0
                &&& texts(urls@) == page_names(files@).map_values(
                    |name: String| page_address(key@, name@, archive),
                )
            },
            Err(e) => page_names(files@).len() == 0 && refusal(e, no_pages_text(key@)),
        },
{
    let ghost all = files@;
    let names = pages_among(files);
    if names.len() == 0 {
        return Err(SourceError::Parse(join2("no page images in ", quoted(key).as_str())));
    }
    proof {
        lemma_page_names_bounded(all);
    }
    let mut urls: Vec<String> = Vec::new();
    let mut i: usize = 0;
    while i < names.len()
        invariant
            names@ == page_names(all),
            forall|j: int| 0 <= j < names@.len() ==> all.contains(#[trigger] names@[j]),
            forall|j: int|
                0 <= j < all.len() ==> key@.len() + (#[trigger] all[j])@.len() + 2 <= TEXT_LIMIT,
            i <= names@.len(),
            urls@.len() == i,
            forall|j: int|
                0 <= j < i ==> (#[trigger] urls@[j])@ == page_address(key@, names@[j]@, archive),
        decreases names@.len() - i,
    {
        assert(all.contains(names@[i as int]));
        proof {
            reveal_strlit("/");
        }
        if archive {
            urls.push(local_url(key, Some(names[i].as_str())));
        } else {
            let relative = join3(key, "/", names[i].as_str());
            urls.push(local_url(relative.as_str(), None));
        }
        i += 1;
    }
    assert(texts(urls@) =~= page_names(all).map_values(
        |name: String| page_address(key@, name@, archive),
    ));
    Ok(urls)
}

/// Every page is one of the files.
proof fn lemma_page_names_bounded(files: Seq<String>)
    ensures
        forall|j: int| 0 <= j < page_names(files).len() ==> files.contains(#[trigger] page_names(files)[j]),
{
    let kept = files.filter(|f: String| image_name(f@));
    crate::order::lemma_sorted_multiset(kept, page_order());
    assert forall|j: int| 0 <= j < page_names(files).len() implies files.contains(
        #[trigger] page_names(files)[j],
    ) by {
        let x = page_names(files)[j];
        assert(page_names(files).contains(x));
        broadcast use vstd::seq_lib::group_to_multiset_ensures;
        assert(page_names(files).to_multiset().contains(x));
        assert(kept.contains(x));
        crate::tables::lemma_filter_contains(files, |f: String| image_name(f@));
    }
}

}
