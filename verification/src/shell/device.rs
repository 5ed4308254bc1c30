//! What the shell keeps on the device: saved units and covers, and how the frontend asks
//! for them.

use vstd::prelude::*;

use crate::api::fingerprints::{page_hash, page_hash_text};
use crate::links::{read_url, url_parsed, UrlView};
use crate::numerals::{decimal, padded_text, parse_u64, parsed_u64, zero_padded};
use crate::order::{lexical, lexical_before, sort_by, sorted};
use crate::tables::{retain, to_count};
use crate::text::{
    alnum_char, begins_with, chars_of, is_alnum, join2, join3, last_index, lemma_last_index, pieces, rfind_char, same, split_on,
    starts_with, string_of, text_opt, texts, trim, trimmed,
};

verus! {

// ---- names ----

/// An identifier that can be a directory's name: letters, digits and hyphens.
pub open spec fn id_allowed(id: Seq<char>) -> bool {
    &&& id.len() > 0
    &&& forall|i: int| 0 <= i < id.len() ==> is_alnum(#[trigger] id[i]) || id[i] == '-'
}

/// Refuses an identifier that cannot be a directory's name.
pub fn checked_id(id: &str) -> (r: Result<String, String>)
    ensures
        if id_allowed(id@) {
            r matches Ok(s) && s@ == id@
        } else {
            r matches Err(m) && m@ == "invalid chapter id"@
        },
{
    let chars = chars_of(id);
    let mut i: usize = 0;
    let mut good = chars.len() > 0;
    while i < chars.len()
        invariant
            chars@ == id@,
            i <= chars@.len(),
            good == (id@.len() > 0 && forall|j: int|
                0 <= j < i ==> is_alnum(#[trigger] id@[j]) || id@[j] == '-'),
        decreases chars@.len() - i,
    {
        let c = chars[i];
        assert(c == id@[i as int]);
        good = good && (alnum_char(c) || c == '-');
        i += 1;
    }
    if good {
        Ok(id.to_owned())
    } else {
        Err("invalid chapter id".to_owned())
    }
}

/// An allowed identifier leads nowhere but to its own directory: it holds no slash and no
/// dot.
pub proof fn law_allowed_ids_stay_put(id: Seq<char>)
    requires
        id_allowed(id),
    ensures
        !id.contains('/'),
        !id.contains('.'),
{
    if id.contains('/') {
        let k = choose|k: int| 0 <= k < id.len() && id[k] == '/';
        assert(is_alnum(id[k]) || id[k] == '-');
    }
    if id.contains('.') {
        let k = choose|k: int| 0 <= k < id.len() && id[k] == '.';
        assert(is_alnum(id[k]) || id[k] == '-');
    }
}

/// The extension of a page that is saved on the device, by its content type.
pub open spec fn extension_text(content_type: Option<Seq<char>>) -> Seq<char> {
    if content_type == Some("image/png"@) {
        "png"@
    } else if content_type == Some("image/webp"@) {
        "webp"@
    } else if content_type == Some("image/gif"@) {
        "gif"@
    } else if content_type == Some("image/avif"@) {
        "avif"@
    } else {
        "jpg"@
    }
}

/// Chooses the extension of a page that is saved on the device.
pub fn extension_for(content_type: Option<&str>) -> (r: &'static str)
    ensures
        r@ == extension_text(crate::text::str_opt(content_type)),
{
    match content_type {
        None => "jpg",
        Some(t) => {
            if same(t, "image/png") {
                "png"
            } else if same(t, "image/webp") {
                "webp"
            } else if same(t, "image/gif") {
                "gif"
            } else if same(t, "image/avif") {
                "avif"
            } else {
                "jpg"
            }
        },
    }
}

/// The directory of a unit that is being saved, until it is complete.
pub open spec fn partial_text(id: Seq<char>) -> Seq<char> {
    ".partial-"@ + id
}

/// Gives the directory of a unit that is being saved.
pub fn partial_dir(id: &str) -> (r: String)
    ensures
        r@ == partial_text(id@),
{
    join2(".partial-", id)
}

/// The directories on the device that are saved units: all but those being saved, by name.
pub open spec fn saved_units(dirs: Seq<String>) -> Seq<String> {
    sorted(
        dirs.filter(|d: String| !begins_with(d@, ".partial-"@)),
        |a: String, b: String| lexical(a@, b@),
    )
}

/// Lists the saved units, by what directories there are.
pub fn list_chapters(dirs: Vec<String>) -> (r: Vec<String>)
    ensures
        r@ == saved_units(dirs@),
{
    let ghost all = dirs@;
    let mut kept = dirs;
    let whole = |d: &String| -> (b: bool)
        ensures b == !begins_with(d@, ".partial-"@)
    {
        !starts_with(d.as_str(), ".partial-")
    };
    retain(&mut kept, whole, Ghost(|d: String| !begins_with(d@, ".partial-"@)));
    assert(kept@ =~= all.filter(|d: String| !begins_with(d@, ".partial-"@)));
    let before = |a: &String, b: &String| -> (x: bool)
        ensures x == lexical(a@, b@)
    {
        lexical_before(a.as_str(), b.as_str())
    };
    sort_by(kept, before, Ghost(|a: String, b: String| lexical(a@, b@)))
}

/// A unit that is being saved is not listed.
pub proof fn law_partial_saves_are_not_listed(dirs: Seq<String>, id: Seq<char>)
    ensures
        forall|i: int|
            0 <= i < saved_units(dirs).len() ==> (#[trigger] saved_units(dirs)[i])@ != partial_text(id),
{
    let p = |d: String| !begins_with(d@, ".partial-"@);
    let le = |a: String, b: String| lexical(a@, b@);
    let kept = dirs.filter(p);
    crate::order::lemma_sorted_multiset(kept, le);
    crate::tables::lemma_filter_contains(dirs, p);
    assert forall|i: int| 0 <= i < saved_units(dirs).len() implies (#[trigger] saved_units(dirs)[i])@
        != partial_text(id) by {
        broadcast use vstd::seq_lib::group_to_multiset_ensures;
        let x = saved_units(dirs)[i];
        assert(saved_units(dirs).contains(x));
        assert(saved_units(dirs).to_multiset().contains(x));
        assert(kept.contains(x));
        assert(p(x));
        assert(partial_text(id).take(".partial-"@.len() as int) =~= ".partial-"@);
    }
}

// ---- what is stored ----

/// What a unit on the device is known by: how many pages it has, and the hashes of its
/// first and its last.
#[derive(Debug, PartialEq, Eq)]
pub struct DeviceFingerprint {
    pub page_count: u32,
    pub sha256_first: String,
    pub sha256_last: String,
}

/// The first and the last of a unit's page files, by name; or that it has none.
pub fn page_ends(id: &str, files: Vec<String>) -> (r: Result<(String, String), String>)
    ensures
        ({
            let pages = sorted(files@, |a: String, b: String| lexical(a@, b@));
            if pages.len() == 0 {
                r matches Err(m) && m@ == "chapter "@ + id@ + " has no pages"@
            } else {
                r matches Ok(x) && x.0 == pages[0] && x.1 == pages.last()
            }
        }),
{
    let pages = crate::downloader::page_files(files);
    let n: usize = pages.len();
    if n == 0 {
        return Err(join3("chapter ", id, " has no pages"));
    }
    Ok((pages[0].clone(), pages[n - 1].clone()))
}

/// Fingerprints a unit on the device, by how many pages it has and what its first and its
/// last hold. It is what the server gives for the same pages.
pub fn fingerprint(page_count: usize, first: &[u8], last: &[u8]) -> (r: DeviceFingerprint)
    ensures
        r.page_count == crate::tables::count32(page_count as int),
        r.sha256_first@ == page_hash_text(first@),
        r.sha256_last@ == page_hash_text(last@),
{
    DeviceFingerprint {
        page_count: to_count(page_count),
        sha256_first: page_hash(first),
        sha256_last: page_hash(last),
    }
}

/// Decides whether a unit on the device may take another identifier: both have to be
/// ones, and nothing may be stored under the new one.
pub fn may_rename(from: &str, to: &str, taken: bool) -> (r: Result<(), String>)
    ensures
        if !id_allowed(from@) || !id_allowed(to@) {
            r matches Err(m) && m@ == "invalid chapter id"@
        } else if taken {
            r matches Err(m) && m@ == "chapter "@ + to@ + " is already stored on this device"@
        } else {
            r is Ok
        },
{
    match checked_id(from) {
        Ok(_) => {},
        Err(m) => {
            return Err(m);
        },
    }
    match checked_id(to) {
        Ok(_) => {},
        Err(m) => {
            return Err(m);
        },
    }
    if taken {
        Err(join3("chapter ", to, " is already stored on this device"))
    } else {
        Ok(())
    }
}

/// The first of the names that meets a condition.
pub open spec fn first_such(names: Seq<String>, p: spec_fn(Seq<char>) -> bool) -> Option<String>
    decreases names.len(),
{
    if names.len() == 0 {
        None
    } else {
        match first_such(names.drop_last(), p) {
            Some(n) => Some(n),
            None => if p(names.last()@) {
                Some(names.last())
            } else {
                None
            },
        }
    }
}

/// What a page's file name starts with.
pub open spec fn page_prefix(n: u32) -> Seq<char> {
    zero_padded(decimal(n as nat), 4) + "."@
}

/// Finds the file of a saved page, among the files of its unit.
pub fn find_page(files: &Vec<String>, n: u32) -> (r: Option<String>)
    ensures
        r == first_such(files@, |name: Seq<char>| begins_with(name, page_prefix(n))),
{
    let number = padded_text(n as u64, 4);
    let prefix = join2(number.as_str(), ".");
    let ghost p = |name: Seq<char>| begins_with(name, page_prefix(n));
    let mut found: Option<String> = None;
    let mut i: usize = 0;
    assert(files@.take(0) =~= Seq::empty());
    while i < files.len()
        invariant
            prefix@ == page_prefix(n),
            p == (|name: Seq<char>| begins_with(name, page_prefix(n))),
            i <= files@.len(),
            found == first_such(files@.take(i as int), p),
        decreases files@.len() - i,
    {
        assert(files@.take(i + 1).drop_last() =~= files@.take(i as int));
        if found.is_none() && starts_with(files[i].as_str(), prefix.as_str()) {
            found = Some(files[i].clone());
        }
        i += 1;
    }
    assert(files@.take(files@.len() as int) =~= files@);
    found
}

/// The name of a file without its extension. A dot at the start opens no extension.
pub open spec fn file_stem(name: Seq<char>) -> Seq<char> {
    match last_index(name, '.') {
        Some(i) => if i > 0 {
            name.take(i)
        } else {
            name
        },
        None => name,
    }
}

/// Whether a file is the one of a stem, whatever its extension.
fn has_stem(name: &str, stem: &str) -> (r: bool)
    ensures
        r == (file_stem(name@) == stem@),
{
    let chars = chars_of(name);
    proof {
        lemma_last_index(name@, '.');
    }
    match rfind_char(&chars, '.') {
        None => same(name, stem),
        Some(i) => {
            if i == 0 {
                return same(name, stem);
            }
            assert(name@.subrange(0, i as int) =~= name@.take(i as int));
            same(name.substring_char(0, i), stem)
        },
    }
}

/// Finds the file of a saved cover, among all covers.
pub fn find_cover(files: &Vec<String>, id: &str) -> (r: Option<String>)
    ensures
        r == first_such(files@, |name: Seq<char>| file_stem(name) == id@),
{
    let ghost p = |name: Seq<char>| file_stem(name) == id@;
    let mut found: Option<String> = None;
    let mut i: usize = 0;
    assert(files@.take(0) =~= Seq::empty());
    while i < files.len()
        invariant
            p == (|name: Seq<char>| file_stem(name) == id@),
            i <= files@.len(),
            found == first_such(files@.take(i as int), p),
        decreases files@.len() - i,
    {
        assert(files@.take(i + 1).drop_last() =~= files@.take(i as int));
        if found.is_none() && has_stem(files[i].as_str(), id) {
            found = Some(files[i].clone());
        }
        i += 1;
    }
    assert(files@.take(files@.len() as int) =~= files@);
    found
}

// ---- what the frontend asks for ----

/// What the frontend asks of the device.
#[derive(Debug, PartialEq, Eq)]
pub enum DeviceRequest {
    /// A page of a saved unit.
    Page { chapter: String, page: u32 },
    /// A saved cover.
    Cover { manga: String },
    /// Nothing that there is.
    Unknown,
}

/// A text without the slashes at its start.
pub open spec fn without_slashes(s: Seq<char>) -> Seq<char>
    decreases s.len(),
{
    if s.len() > 0 && s[0] == '/' {
        without_slashes(s.drop_first())
    } else {
        s
    }
}

/// What a path of the device's own scheme asks for.
pub open spec fn asks_for(path: Seq<char>, r: DeviceRequest) -> bool {
    let parts = pieces(without_slashes(path), '/');
    if parts.len() == 3 && parts[0] == "chapter"@ && parsed_u64(parts[2]) is Some && parsed_u64(
        parts[2],
    )->0 <= u32::MAX {
        r matches DeviceRequest::Page { chapter, page } && chapter@ == parts[1] && page == parsed_u64(
            parts[2],
        )->0
    } else if parts.len() == 2 && parts[0] == "cover"@ {
        r matches DeviceRequest::Cover { manga } && manga@ == parts[1]
    } else {
        r == DeviceRequest::Unknown
    }
}

/// Takes the slashes off a text's start.
fn skip_slashes(s: &str) -> (r: String)
    ensures
        r@ == without_slashes(s@),
{
    let chars = chars_of(s);
    let n: usize = chars.len();
    let mut from: usize = 0;
    assert(s@.skip(0) =~= s@);
    while from < n && chars[from] == '/'
        invariant
            chars@ == s@,
            n == s@.len(),
            from <= n,
            without_slashes(s@) == without_slashes(s@.skip(from as int)),
        decreases n - from,
    {
        assert(s@.skip(from as int).drop_first() =~= s@.skip(from + 1));
        from += 1;
    }
    assert(s@.subrange(from as int, n as int) =~= s@.skip(from as int));
    s.substring_char(from, n).to_owned()
}

/// Reads a path of the device's own scheme.
pub fn device_request(path: &str) -> (r: DeviceRequest)
    ensures
        asks_for(path@, r),
{
    let inner = skip_slashes(path);
    let parts = split_on(inner.as_str(), '/');
    let ghost all = pieces(without_slashes(path@), '/');
    assert(texts(parts@) == all);
    if parts.len() == 3 {
        assert(all[0] == parts@[0]@ && all[1] == parts@[1]@ && all[2] == parts@[2]@);
        if same(parts[0].as_str(), "chapter") {
            match parse_u64(parts[2].as_str()) {
                Some(n) => {
                    if n <= u32::MAX as u64 {
                        return DeviceRequest::Page { chapter: parts[1].clone(), page: n as u32 };
                    }
                },
                None => {},
            }
        }
        return DeviceRequest::Unknown;
    }
    if parts.len() == 2 {
        assert(all[0] == parts@[0]@ && all[1] == parts@[1]@);
        if same(parts[0].as_str(), "cover") {
            return DeviceRequest::Cover { manga: parts[1].clone() };
        }
    }
    DeviceRequest::Unknown
}

// ---- where the server is ----

/// The server's address, by the environment and by the configuration file: the former
/// counts even where it is empty.
pub open spec fn server_text(env: Option<Seq<char>>, file: Option<Seq<char>>) -> Option<Seq<char>> {
    match env {
        Some(url) => Some(trimmed(url)),
        None => match file {
            Some(raw) => if trimmed(raw).len() > 0 {
                Some(trimmed(raw))
            } else {
                None
            },
            None => None,
        },
    }
}

/// Finds the server's address.
pub fn configured_server(env: Option<&str>, file: Option<&str>) -> (r: Option<String>)
    ensures
        text_opt(r) == server_text(crate::text::str_opt(env), crate::text::str_opt(file)),
{
    match env {
        Some(url) => Some(trim(url)),
        None => match file {
            Some(raw) => {
                let url = trim(raw);
                if url.as_str().unicode_len() > 0 {
                    Some(url)
                } else {
                    None
                }
            },
            None => None,
        },
    }
}

/// A text inside single quotes: quotes and backslashes behind a backslash.
pub open spec fn quoted_inside(s: Seq<char>) -> Seq<char>
    decreases s.len(),
{
    if s.len() == 0 {
        Seq::empty()
    } else {
        let c = s.last();
        quoted_inside(s.drop_last()) + (if c == '\\' || c == '\'' {
            seq!['\\', c]
        } else {
            seq![c]
        })
    }
}

/// Writes a text for inside single quotes.
pub fn escape_quotes(s: &str) -> (r: String)
    ensures
        r@ == quoted_inside(s@),
{
    let chars = chars_of(s);
    let mut out: Vec<char> = Vec::new();
    let mut i: usize = 0;
    assert(s@.take(0) =~= Seq::empty());
    while i < chars.len()
        invariant
            chars@ == s@,
            i <= chars@.len(),
            out@ == quoted_inside(s@.take(i as int)),
        decreases chars@.len() - i,
    {
        let c = chars[i];
        assert(s@.take(i + 1).drop_last() =~= s@.take(i as int));
        let ghost had = out@;
        if c == '\\' || c == '\'' {
            out.push('\\');
            out.push(c);
            assert(out@ =~= had + seq!['\\', c]);
        } else {
            out.push(c);
            assert(out@ =~= had + seq![c]);
        }
        i += 1;
    }
    assert(s@.take(s@.len() as int) =~= s@);
    string_of(out)
}

/// What stands in single quotes, read up to the closing quote: a backslash takes the next
/// character as it is. `None` where the quote is not closed.
pub open spec fn read_quoted(s: Seq<char>) -> Option<Seq<char>>
    decreases s.len(),
{
    if s.len() == 0 {
        None
    } else if s[0] == '\'' {
        Some(Seq::empty())
    } else if s[0] == '\\' {
        if s.len() < 2 {
            None
        } else {
            match read_quoted(s.skip(2)) {
                Some(rest) => Some(seq![s[1]] + rest),
                None => None,
            }
        }
    } else {
        match read_quoted(s.skip(1)) {
            Some(rest) => Some(seq![s[0]] + rest),
            None => None,
        }
    }
}

/// An escaped text never ends its quotes early: read back, with whatever stands behind
/// the closing quote, it is the text.
pub proof fn law_escaped_text_reads_back(s: Seq<char>, behind: Seq<char>)
    ensures
        read_quoted(quoted_inside(s) + seq!['\''] + behind) == Some(s),
{
    lemma_escaped_front(s, seq!['\''] + behind);
    assert(quoted_inside(s) + (seq!['\''] + behind) =~= quoted_inside(s) + seq!['\''] + behind);
    assert(read_quoted(seq!['\''] + behind) == Some(Seq::<char>::empty()));
    assert(s + Seq::<char>::empty() =~= s);
}

/// Reading an escaped text and then a rest gives the text and what the rest reads as.
proof fn lemma_escaped_front(s: Seq<char>, rest: Seq<char>)
    requires
        read_quoted(rest) is Some,
    ensures
        read_quoted(quoted_inside(s) + rest) == Some(s + read_quoted(rest)->0),
    decreases s.len(),
{
    if s.len() == 0 {
        assert(quoted_inside(s) + rest =~= rest);
        assert(s + read_quoted(rest)->0 =~= read_quoted(rest)->0);
    } else {
        let c = s.last();
        let d = s.drop_last();
        let own = if c == '\\' || c == '\'' {
            seq!['\\', c]
        } else {
            seq![c]
        };
        let more = own + rest;
        if c == '\\' || c == '\'' {
            assert(more.skip(2) =~= rest);
        } else {
            assert(more.skip(1) =~= rest);
        }
        assert(read_quoted(more) == Some(seq![c] + read_quoted(rest)->0));
        lemma_escaped_front(d, more);
        assert(quoted_inside(s) + rest =~= quoted_inside(d) + more);
        assert(d + (seq![c] + read_quoted(rest)->0) =~= s + read_quoted(rest)->0);
    }
}

/// The script that tells the frontend where the server is. There is none where no server
/// is configured, or its address is none.
pub fn server_script(server: Option<String>) -> (r: Option<String>)
    ensures
        text_opt(r) == (match server {
            Some(s) => if url_parsed(s@) is Some {
                Some("window.YOMU_API_BASE = '"@ + quoted_inside(s@) + "';"@)
            } else {
                None
            },
            None => None,
        }),
{
    match server {
        None => None,
        Some(s) => match read_url(s.as_str()) {
            None => None,
            Some(_) => {
                let inner = escape_quotes(s.as_str());
                Some(join3("window.YOMU_API_BASE = '", inner.as_str(), "';"))
            },
        },
    }
}

/// Why a link is not opened outside the shell.
#[derive(Clone, Copy, Debug, PartialEq, Eq, Structural)]
pub enum LinkRefusal {
    /// It is no address.
    NoAddress,
    /// It is none of the web.
    NotWeb,
}

impl LinkRefusal {
    /// The refusal of a link that is none of the web, in words.
    pub fn not_web() -> (r: &'static str)
        ensures
            r@ == "only http(s) links open externally"@,
    {
        "only http(s) links open externally"
    }
}

/// Whether a link may be opened outside the shell.
pub open spec fn link_verdict(parsed: Option<UrlView>) -> Result<(), LinkRefusal> {
    match parsed {
        None => Err(LinkRefusal::NoAddress),
        Some(u) => if u.scheme == "http"@ || u.scheme == "https"@ {
            Ok(())
        } else {
            Err(LinkRefusal::NotWeb)
        },
    }
}

/// Decides whether a link may be opened outside the shell: only those of the web may.
pub fn open_external(url: &str) -> (r: Result<(), LinkRefusal>)
    ensures
        r == link_verdict(url_parsed(url@)),
{
    match read_url(url) {
        None => Err(LinkRefusal::NoAddress),
        Some(u) => {
            if same(u.scheme.as_str(), "http") || same(u.scheme.as_str(), "https") {
                Ok(())
            } else {
                Err(LinkRefusal::NotWeb)
            }
        },
    }
}

}
