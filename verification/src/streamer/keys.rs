//! Keys relative to the books directory, and the addresses made of them.

use vstd::prelude::*;

use crate::links::{
    append_pairs, bare_base, decode_to, is_hostless, pair_texts, pairs_len, percent_decoded, percent_plain, plain_scheme, plain_segments, put_segments,
    read_url, total_len, url_parsed, url_with_pairs, url_with_segments, UrlView, TEXT_LIMIT,
};
use crate::streamer::pages::{content_type_of, content_type_text};
use crate::streamer::{refusal, SourceError};
use crate::text::{
    begins_with, debug_text, first_char, join2, join3, join_all, joined, lemma_pieces_join, lemma_pieces_nonempty, opt_len, pieces, quoted, same,
    split_on, str_opt, text_opt, texts,
};

verus! {

// ---- what a key may be ----

/// A part of a key that leads no way but down, and to nothing hidden. The parts that
/// paths ignore are no harm, but for the first.
pub open spec fn part_allowed(part: Seq<char>, place: int) -> bool {
    if part.len() == 0 || part == "."@ {
        place > 0
    } else {
        part[0] != '.'
    }
}

/// A key of something below the books directory.
pub open spec fn key_allowed(key: Seq<char>) -> bool {
    &&& key.len() > 0
    &&& forall|i: int|
        0 <= i < pieces(key, '/').len() ==> part_allowed(#[trigger] pieces(key, '/')[i], i)
}

/// What a key that may not be is answered.
pub open spec fn bad_key_text(key: Seq<char>) -> Seq<char> {
    "invalid local key "@ + debug_text(key)
}

/// Refuses a key that could lead out of the books directory.
pub fn check_key(key: &str) -> (r: Result<(), SourceError>)
    ensures
        r is Ok <==> key_allowed(key@),
        r matches Err(e) ==> refusal(e, bad_key_text(key@)),
{
    let parts = split_on(key, '/');
    let mut good = key.unicode_len() > 0;
    let mut i: usize = 0;
    while i < parts.len()
        invariant
            texts(parts@) == pieces(key@, '/'),
            i <= parts@.len(),
            good == (key@.len() > 0 && forall|j: int|
                0 <= j < i ==> part_allowed(#[trigger] pieces(key@, '/')[j], j)),
        decreases parts@.len() - i,
    {
        let part = parts[i].as_str();
        assert(part@ == pieces(key@, '/')[i as int]);
        let fine = if part.unicode_len() == 0 || same(part, ".") {
            i > 0
        } else {
            first_char(part) != '.'
        };
        assert(fine == part_allowed(pieces(key@, '/')[i as int], i as int));
        good = good && fine;
        i += 1;
    }
    if good {
        Ok(())
    } else {
        Err(SourceError::Parse(join2("invalid local key ", quoted(key).as_str())))
    }
}

/// An allowed key never climbs: none of its parts is `..`, and it does not start at the
/// root.
pub proof fn law_allowed_keys_do_not_climb(key: Seq<char>)
    requires
        key_allowed(key),
    ensures
        forall|i: int| 0 <= i < pieces(key, '/').len() ==> #[trigger] pieces(key, '/')[i] != ".."@,
        key[0] != '/',
{
    reveal_strlit(".");
    reveal_strlit("..");
    let parts = pieces(key, '/');
    assert forall|i: int| 0 <= i < parts.len() implies #[trigger] parts[i] != ".."@ by {
        assert(part_allowed(parts[i], i));
        assert(".."@[0] == '.' && ".."@.len() == 2 && "."@.len() == 1);
    }
    if key[0] == '/' {
        lemma_leading_separator(key, '/');
        assert(part_allowed(parts[0], 0));
    }
}

/// A text that starts with the separator has an empty first piece.
proof fn lemma_leading_separator(s: Seq<char>, sep: char)
    requires
        s.len() > 0,
        s[0] == sep,
    ensures
        pieces(s, sep).len() >= 2,
        pieces(s, sep)[0].len() == 0,
    decreases s.len(),
{
    let t = s.drop_last();
    if t.len() > 0 {
        lemma_leading_separator(t, sep);
    } else {
        assert(pieces(t, sep) =~= seq![Seq::<char>::empty()]);
    }
}

// ---- where a key leads ----

/// The names along a path.
pub open spec fn path_names(path: Seq<char>) -> Seq<Seq<char>> {
    pieces(path, '/').filter(|part: Seq<char>| part.len() > 0)
}

/// Whether a path starts at the root.
pub open spec fn rooted(path: Seq<char>) -> bool {
    path.len() > 0 && path[0] == '/'
}

/// A resolved path is a resolved directory, or lies below it.
pub open spec fn within(path: Seq<char>, dir: Seq<char>) -> bool {
    &&& rooted(path) == rooted(dir)
    &&& path_names(dir).len() <= path_names(path).len()
    &&& path_names(path).take(path_names(dir).len() as int) == path_names(dir)
}

/// The names along a path.
fn names_of(path: &str) -> (r: Vec<String>)
    ensures
        texts(r@) == path_names(path@),
{
    let parts = split_on(path, '/');
    let mut out: Vec<String> = Vec::new();
    let mut i: usize = 0;
    let ghost all = pieces(path@, '/');
    let ghost named = |part: Seq<char>| part.len() > 0;
    assert(all.take(0).filter(named) =~= Seq::empty());
    while i < parts.len()
        invariant
            texts(parts@) == all,
            named == (|part: Seq<char>| part.len() > 0),
            i <= parts@.len(),
            texts(out@) == all.take(i as int).filter(named),
        decreases parts@.len() - i,
    {
        assert(parts@[i as int]@ == all[i as int]);
        proof {
            assert(all.take(i + 1) =~= all.take(i as int).push(all[i as int]));
            crate::tables::lemma_filter_push(all.take(i as int), all[i as int], named);
        }
        if parts[i].as_str().unicode_len() > 0 {
            let ghost had = texts(out@);
            out.push(parts[i].clone());
            assert(texts(out@) =~= had.push(all[i as int]));
        }
        i += 1;
    }
    assert(all.take(all.len() as int) =~= all);
    out
}

/// Whether a resolved path is a resolved directory, or lies below it.
pub fn lies_within(path: &str, dir: &str) -> (r: bool)
    ensures
        r == within(path@, dir@),
{
    let a = names_of(path);
    let b = names_of(dir);
    proof {
        reveal_strlit("/");
    }
    let path_rooted = path.unicode_len() > 0 && first_char(path) == '/';
    let dir_rooted = dir.unicode_len() > 0 && first_char(dir) == '/';
    if path_rooted != dir_rooted || b.len() > a.len() {
        return false;
    }
    let mut i: usize = 0;
    while i < b.len()
        invariant
            texts(a@) == path_names(path@),
            texts(b@) == path_names(dir@),
            b@.len() <= a@.len(),
            i <= b@.len(),
            forall|j: int| 0 <= j < i ==> #[trigger] path_names(path@)[j] == path_names(dir@)[j],
        decreases b@.len() - i,
    {
        assert(texts(a@)[i as int] == a@[i as int]@);
        assert(texts(b@)[i as int] == b@[i as int]@);
        if !same(a[i].as_str(), b[i].as_str()) {
            assert(path_names(path@).take(b@.len() as int)[i as int] != path_names(dir@)[i as int]);
            return false;
        }
        i += 1;
    }
    assert(path_names(path@).take(b@.len() as int) =~= path_names(dir@));
    true
}

/// Where a key leads: the resolved path, or why there is none. What the file system
/// says comes with it: whether the path is there, and the books directory and the path
/// with all links followed, or why they cannot be.
pub open spec fn resolved(
    key: Seq<char>,
    exists: bool,
    dir: Result<Seq<char>, Seq<char>>,
    path: Result<Seq<char>, Seq<char>>,
) -> Result<Seq<char>, Seq<char>> {
    if !key_allowed(key) {
        Err(bad_key_text(key))
    } else if !exists {
        Err("local key "@ + debug_text(key) + " not found"@)
    } else {
        match (dir, path) {
            (Err(why), _) => Err("local dir not resolvable: "@ + why),
            (Ok(_), Err(why)) => Err("local key "@ + debug_text(key) + " not resolvable: "@ + why),
            (Ok(dir), Ok(path)) => if within(path, dir) {
                Ok(path)
            } else {
                Err("local key "@ + debug_text(key) + " escapes the local dir"@)
            },
        }
    }
}

/// What the file system said, as texts.
pub open spec fn said(r: Result<String, String>) -> Result<Seq<char>, Seq<char>> {
    match r {
        Ok(s) => Ok(s@),
        Err(e) => Err(e@),
    }
}

/// Decides where a key leads. A path is given only when it lies in the books directory,
/// links followed.
pub fn resolve(
    key: &str,
    exists: bool,
    dir: Result<String, String>,
    path: Result<String, String>,
) -> (r: Result<String, SourceError>)
    ensures
        match resolved(key@, exists, said(dir), said(path)) {
            Ok(p) => r matches Ok(q) && q@ == p,
            Err(m) => r matches Err(e) && refusal(e, m),
        },
        r matches Ok(q) ==> dir is Ok && within(q@, dir->Ok_0@),
{
    match check_key(key) {
        Ok(()) => {},
        Err(e) => {
            return Err(e);
        },
    }
    let shown = join2("local key ", quoted(key).as_str());
    if !exists {
        return Err(SourceError::Parse(join2(shown.as_str(), " not found")));
    }
    match dir {
        Err(why) => Err(SourceError::Parse(join2("local dir not resolvable: ", why.as_str()))),
        Ok(dir) => match path {
            Err(why) => Err(
                SourceError::Parse(join3(shown.as_str(), " not resolvable: ", why.as_str())),
            ),
            Ok(path) => {
                if lies_within(path.as_str(), dir.as_str()) {
                    Ok(path)
                } else {
                    Err(SourceError::Parse(join2(shown.as_str(), " escapes the local dir")))
                }
            },
        },
    }
}

// ---- addresses ----

/// All pieces together are as long as the text, and one more.
proof fn lemma_pieces_len(s: Seq<char>, sep: char)
    ensures
        total_len(pieces(s, sep)) == s.len() + 1,
    decreases s.len(),
{
    if s.len() == 0 {
        assert(pieces(s, sep).drop_last() =~= Seq::empty());
        assert(total_len(Seq::<Seq<char>>::empty()) == 0);
    } else {
        let t = s.drop_last();
        let done = pieces(t, sep);
        let p = pieces(s, sep);
        lemma_pieces_len(t, sep);
        lemma_pieces_nonempty(t, sep);
        if s.last() == sep {
            assert(p.drop_last() =~= done);
        } else {
            assert(p.drop_last() =~= done.drop_last());
        }
    }
}

/// The address of the books directory itself.
pub const BOOKS_BASE: &'static str = "local:///";

/// The name in an address's query under which an archive's entry stands.
pub const ENTRY_PARAM: &'static str = "entry";

/// The address of a file under the books directory, or of an entry of an archive there:
/// the file's path fills that of the books directory, and the entry stands in the query.
pub open spec fn local_text(relative: Seq<char>, entry: Option<Seq<char>>) -> Seq<char> {
    let file = url_with_segments(BOOKS_BASE@, pieces(relative, '/'))->0;
    match entry {
        Some(e) => url_with_pairs(file, seq![(ENTRY_PARAM@, e)])->0,
        None => file,
    }
}

/// The file, and the entry in it, that an address names.
pub open spec fn address_file(u: UrlView) -> (Seq<char>, Option<Seq<char>>) {
    (
        match u.segments {
            Some(parts) => joined(parts.map_values(|part: Seq<char>| percent_plain(part)), "/"@),
            None => Seq::empty(),
        },
        value_of(u.pairs, ENTRY_PARAM@),
    )
}

/// The value that the first pair of a name gives it.
pub open spec fn value_of(pairs: Seq<(Seq<char>, Seq<char>)>, name: Seq<char>) -> Option<Seq<char>>
    decreases pairs.len(),
{
    if pairs.len() == 0 {
        None
    } else {
        match value_of(pairs.drop_last(), name) {
            Some(v) => Some(v),
            None => if pairs.last().0 == name {
                Some(pairs.last().1)
            } else {
                None
            },
        }
    }
}

/// Writes the address of a file under the books directory, or of an entry of an archive
/// there. Read again, it names the same file and the same entry, unless a part of the
/// path is a dot part, the first of several is empty, or one holds a tab or a line break.
pub fn local_url(relative: &str, entry: Option<&str>) -> (r: String)
    requires
        relative@.len() + 1 + opt_len(str_opt(entry)) <= TEXT_LIMIT,
    ensures
        r@ == local_text(relative@, str_opt(entry)),
        plain_segments(pieces(relative@, '/')) ==> url_parsed(r@) is Some && url_parsed(r@)->0.scheme
            == "local"@ && address_file(url_parsed(r@)->0) == (relative@, str_opt(entry)),
{
    let parts = split_on(relative, '/');
    let ghost segments = pieces(relative@, '/');
    proof {
        lemma_pieces_len(relative@, '/');
        lemma_books_base();
    }
    let base = read_url(BOOKS_BASE);
    proof {
        let whole = bare_base("local"@);
        assert(base is Some);
        assert(base->0@.segments is Some);
        assert(whole.take(whole.len() as int) =~= whole);
        assert(begins_with(base->0@.text, bare_base(base->0@.scheme)));
        assert(is_hostless(url_parsed(BOOKS_BASE@)));
    }
    let file = put_segments(BOOKS_BASE, &parts).unwrap();
    proof {
        if plain_segments(segments) {
            lemma_decoded_path(url_parsed(file@)->0, relative@);
        }
    }
    match entry {
        None => file,
        Some(e) => {
            let mut pairs: Vec<(String, String)> = Vec::new();
            pairs.push((ENTRY_PARAM.to_owned(), e.to_owned()));
            proof {
                reveal_strlit("entry");
                let one = pair_texts(pairs@);
                assert(one =~= seq![(ENTRY_PARAM@, e@)]);
                assert(one.drop_last() =~= Seq::empty());
                assert(pairs_len(one.drop_last()) == 0);
                assert(value_of(Seq::empty(), ENTRY_PARAM@) is None);
                assert(value_of(one, ENTRY_PARAM@) == Some(e@));
            }
            let r = append_pairs(file.as_str(), &pairs).unwrap();
            proof {
                if plain_segments(segments) {
                    let u = url_parsed(file@)->0;
                    assert(u.pairs + pair_texts(pairs@) =~= pair_texts(pairs@));
                }
            }
            r
        },
    }
}

/// The address of the books directory is the shortest one of its scheme.
proof fn lemma_books_base()
    ensures
        BOOKS_BASE@ == bare_base("local"@),
        plain_scheme("local"@),
        BOOKS_BASE@.len() == 9,
        "local"@ != "file"@,
{
    reveal_strlit("local:///");
    reveal_strlit("local");
    reveal_strlit(":///");
    reveal_strlit("http");
    reveal_strlit("https");
    reveal_strlit("ws");
    reveal_strlit("wss");
    reveal_strlit("ftp");
    reveal_strlit("file");
    assert(BOOKS_BASE@ =~= bare_base("local"@));
    assert("local"@[0] == 'l' && "https"@[0] == 'h');
}

/// Segments that decode to the pieces of a path name that path.
proof fn lemma_decoded_path(u: UrlView, relative: Seq<char>)
    requires
        decode_to(u.segments, pieces(relative, '/')),
    ensures
        address_file(u).0 == relative,
{
    let read = u.segments->0.map_values(|part: Seq<char>| percent_plain(part));
    assert(read =~= pieces(relative, '/'));
    reveal_strlit("/");
    assert("/"@ =~= seq!['/']);
    lemma_pieces_join(relative, '/');
}

/// What an address of books leads to.
#[derive(Debug, PartialEq, Eq)]
pub struct BookImage {
    /// The file, by its key.
    pub relative: String,
    /// The entry in it, where it is an archive.
    pub entry: Option<String>,
    pub content_type: &'static str,
}

/// The image that an address names: the file, the entry and the content type; or the
/// refusal.
pub open spec fn image_named(
    text: Seq<char>,
    parsed: Option<UrlView>,
) -> Result<(Seq<char>, Option<Seq<char>>, Seq<char>), Seq<char>> {
    match parsed {
        None => Err("not a local url: "@ + text),
        Some(u) => if u.scheme != "local"@ {
            Err("not a local url: "@ + u.text)
        } else {
            let (relative, entry) = address_file(u);
            if !key_allowed(relative) {
                Err(bad_key_text(relative))
            } else {
                Ok(
                    (
                        relative,
                        entry,
                        content_type_text(
                            match entry {
                                Some(e) => e,
                                None => relative,
                            },
                        ),
                    ),
                )
            }
        },
    }
}

/// Finds the value that the first pair of a name gives it.
pub fn first_value(pairs: &Vec<(String, String)>, name: &str) -> (r: Option<String>)
    ensures
        text_opt(r) == value_of(pair_texts(pairs@), name@),
{
    let ghost all = pair_texts(pairs@);
    let mut i: usize = 0;
    assert(all.take(0) =~= Seq::empty());
    while i < pairs.len()
        invariant
            all == pair_texts(pairs@),
            i <= pairs@.len(),
            value_of(all.take(i as int), name@) is None,
        decreases pairs@.len() - i,
    {
        assert(all.take(i + 1).drop_last() =~= all.take(i as int));
        assert(all.take(i + 1).last() == (pairs@[i as int].0@, pairs@[i as int].1@));
        if same(pairs[i].0.as_str(), name) {
            proof {
                lemma_value_stays(all, name@, i + 1);
            }
            return Some(pairs[i].1.clone());
        }
        i += 1;
    }
    assert(all.take(all.len() as int) =~= all);
    None
}

/// What the first pairs give a name, more pairs do not change.
proof fn lemma_value_stays(pairs: Seq<(Seq<char>, Seq<char>)>, name: Seq<char>, n: int)
    requires
        0 <= n <= pairs.len(),
        value_of(pairs.take(n), name) is Some,
    ensures
        value_of(pairs, name) == value_of(pairs.take(n), name),
    decreases pairs.len() - n,
{
    if n == pairs.len() {
        assert(pairs.take(n) =~= pairs);
    } else {
        assert(pairs.take(n + 1).drop_last() =~= pairs.take(n));
        lemma_value_stays(pairs, name, n + 1);
    }
}

/// Finds what an address of books leads to. The file still has to be resolved.
pub fn image(url: &str) -> (r: Result<BookImage, SourceError>)
    ensures
        match image_named(url@, url_parsed(url@)) {
            Ok((relative, entry, content_type)) => r matches Ok(i) && i.relative@ == relative && text_opt(
                i.entry,
            ) == entry && i.content_type@ == content_type,
            Err(m) => r matches Err(e) && refusal(e, m),
        },
{
    match read_url(url) {
        None => Err(SourceError::Parse(join2("not a local url: ", url))),
        Some(u) => {
            if !same(u.scheme.as_str(), "local") {
                return Err(SourceError::Parse(join2("not a local url: ", u.text.as_str())));
            }
            let relative = match &u.segments {
                None => String::new(),
                Some(parts) => {
                    let plain = decoded_parts(parts);
                    join_all(&plain, "/")
                },
            };
            let entry = first_value(&u.pairs, ENTRY_PARAM);
            assert(u@.pairs == pair_texts(u.pairs@));
            assert(address_file(u@) == (relative@, text_opt(entry)));
            match check_key(relative.as_str()) {
                Ok(()) => {},
                Err(e) => {
                    return Err(e);
                },
            }
            let content_type = match &entry {
                Some(e) => content_type_of(e.as_str()),
                None => content_type_of(relative.as_str()),
            };
            Ok(BookImage { relative, entry, content_type })
        },
    }
}

/// Path segments, decoded.
fn decoded_parts(parts: &Vec<String>) -> (r: Vec<String>)
    ensures
        texts(r@) == texts(parts@).map_values(|part: Seq<char>| percent_plain(part)),
{
    let mut out: Vec<String> = Vec::new();
    let mut i: usize = 0;
    while i < parts.len()
        invariant
            i <= parts@.len(),
            out@.len() == i,
            forall|j: int| 0 <= j < i ==> (#[trigger] out@[j])@ == percent_plain(parts@[j]@),
        decreases parts@.len() - i,
    {
        out.push(percent_decoded(parts[i].as_str()));
        i += 1;
    }
    assert(texts(out@) =~= texts(parts@).map_values(|part: Seq<char>| percent_plain(part)));
    out
}

}
