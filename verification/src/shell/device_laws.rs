//! What the shell finds on the device, and what it believes.

use vstd::prelude::*;

use crate::links::UrlView;
use crate::numerals::parsed_u64;
use crate::order::{is_ranking, lemma_lexical_total, lemma_lexical_transitive, lemma_sorted, lexical};
use crate::shell::auth::{callback_of, last_value_of};
use crate::shell::device::{asks_for, file_stem, first_such, link_verdict, saved_units, server_text, without_slashes, DeviceRequest};
use crate::tables::lemma_filter_contains;
use crate::text::{begins_with, last_index, lemma_last_index, lemma_last_index_is, pieces, trimmed};

verus! {

/// The saved units are all directories but those whose name says that they are being saved, by
/// name.
pub proof fn law_saved_units_are_listed(dirs: Seq<String>, d: String, i: int, j: int)
    ensures
        saved_units(dirs).contains(d) <==> dirs.contains(d) && !begins_with(d@, ".partial-"@),
        0 <= i < j < saved_units(dirs).len() ==> lexical(saved_units(dirs)[i]@, saved_units(dirs)[j]@),
{
    let p = |d: String| !begins_with(d@, ".partial-"@);
    let le = |a: String, b: String| lexical(a@, b@);
    assert(is_ranking(le)) by {
        assert forall|a: String, b: String| #[trigger] le(a, b) || le(b, a) by {
            lemma_lexical_total(a@, b@);
        }
        assert forall|a: String, b: String, c: String| #[trigger] le(a, b) && #[trigger] le(b, c) implies le(
            a,
            c,
        ) by {
            lemma_lexical_transitive(a@, b@, c@);
        }
    }
    lemma_filter_contains(dirs, p);
    lemma_sorted(dirs.filter(p), le);
    if 0 <= i < j < saved_units(dirs).len() {
        assert(le(saved_units(dirs)[i], saved_units(dirs)[j]));
    }
}

/// Of the names that meet a condition the first is found, and none where none does.
pub proof fn law_the_first_such_name_is_found(names: Seq<String>, p: spec_fn(Seq<char>) -> bool)
    ensures
        match first_such(names, p) {
            Some(n) => exists|k: int|
                0 <= k < names.len() && #[trigger] names[k] == n && p(n@) && forall|j: int|
                    0 <= j < k ==> !p((#[trigger] names[j])@),
            None => forall|j: int| 0 <= j < names.len() ==> !p((#[trigger] names[j])@),
        },
    decreases names.len(),
{
    if names.len() > 0 {
        let d = names.drop_last();
        law_the_first_such_name_is_found(d, p);
        assert(names[names.len() - 1] == names.last());
        assert(forall|j: int| 0 <= j < d.len() ==> #[trigger] names[j] == d[j]);
        match first_such(d, p) {
            Some(n) => {
                let k = choose|k: int|
                    0 <= k < d.len() && #[trigger] d[k] == n && p(n@) && forall|j: int|
                        0 <= j < k ==> !p((#[trigger] d[j])@);
                assert(names[k] == n);
                assert forall|j: int| 0 <= j < k implies !p((#[trigger] names[j])@) by {
                    assert(d[j] == names[j]);
                }
            },
            None => {
                assert forall|j: int| 0 <= j < d.len() implies !p((#[trigger] names[j])@) by {
                    assert(d[j] == names[j]);
                }
            },
        }
    }
}

/// A name loses what stands behind its last point and the point itself, unless the name starts
/// with it; one without a point loses nothing.
pub proof fn law_stems_stand_before_the_last_point(stem: Seq<char>, ext: Seq<char>)
    requires
        forall|i: int| 0 <= i < ext.len() ==> #[trigger] ext[i] != '.',
    ensures
        stem.len() > 0 ==> file_stem(stem + seq!['.'] + ext) == stem,
        stem.len() == 0 ==> file_stem(stem + seq!['.'] + ext) == stem + seq!['.'] + ext,
        file_stem(ext) == ext,
{
    let name = stem + seq!['.'] + ext;
    let at = stem.len() as int;
    assert(name[at] == '.');
    assert forall|j: int| at < j < name.len() implies name[j] != '.' by {
        assert(name[j] == ext[j - at - 1]);
    }
    lemma_last_index_is(name, '.', at);
    assert(name.take(at) =~= stem);
    lemma_last_index(ext, '.');
    if last_index(ext, '.') is Some {
        let i = last_index(ext, '.')->0;
        assert(ext[i] == '.');
    }
}

/// A page is asked for by its unit and its number, which has to fit; a cover by its title; and
/// all else asks for nothing.
pub proof fn law_paths_ask_for_pages_and_covers(path: Seq<char>, r: DeviceRequest)
    requires
        asks_for(path, r),
    ensures
        ({
            let parts = pieces(without_slashes(path), '/');
            &&& r matches DeviceRequest::Page { chapter, page } ==> parts.len() == 3 && parts[0] == "chapter"@
                && chapter@ == parts[1] && parsed_u64(parts[2]) == Some(page as u64)
            &&& r matches DeviceRequest::Cover { manga } ==> parts.len() == 2 && parts[0] == "cover"@
                && manga@ == parts[1]
            &&& parts.len() == 2 && parts[0] == "cover"@ ==> r is Cover
            &&& parts.len() == 3 && parts[0] == "chapter"@ && parsed_u64(parts[2]) is Some && parsed_u64(
                parts[2],
            )->0 <= 0xffff_ffff ==> r is Page
        }),
{
}

/// Slashes at the start of a path do not count, and nothing else is taken off it.
pub proof fn law_leading_slashes_do_not_count(path: Seq<char>)
    ensures
        without_slashes(seq!['/'] + path) == without_slashes(path),
        path.len() == 0 || path[0] != '/' ==> without_slashes(path) == path,
{
    assert((seq!['/'] + path).drop_first() =~= path);
}

/// The environment tells the server's address before the file does, even where it is empty; a
/// file that is empty tells none. White space around either does not count.
pub proof fn law_the_environment_comes_first(env: Seq<char>, file: Option<Seq<char>>)
    ensures
        server_text(Some(env), file) == Some(trimmed(env)),
        file is Some && trimmed(file->0).len() > 0 ==> server_text(None, file) == Some(trimmed(file->0)),
        file is Some && trimmed(file->0).len() == 0 ==> server_text(None, file) is None,
        server_text(None, None) is None,
{
}

/// Links of the web are opened outside the shell, and no others.
pub proof fn law_only_links_of_the_web_are_opened(u: UrlView)
    ensures
        link_verdict(Some(u)) is Ok <==> u.scheme == "http"@ || u.scheme == "https"@,
        link_verdict(None) is Err,
{
}

/// Of several pairs with a name the last gives the value.
pub proof fn law_the_last_pair_gives_the_value(pairs: Seq<(Seq<char>, Seq<char>)>, name: Seq<char>, k: int)
    requires
        0 <= k < pairs.len(),
        pairs[k].0 == name,
        forall|j: int| k < j < pairs.len() ==> (#[trigger] pairs[j]).0 != name,
    ensures
        last_value_of(pairs, name) == Some(pairs[k].1),
    decreases pairs.len(),
{
    let d = pairs.drop_last();
    assert(pairs[pairs.len() - 1] == pairs.last());
    if k < d.len() {
        assert(pairs[pairs.len() - 1].0 != name);
        assert(d[k] == pairs[k]);
        assert forall|j: int| k < j < d.len() implies (#[trigger] d[j]).0 != name by {
            assert(d[j] == pairs[j]);
        }
        law_the_last_pair_gives_the_value(d, name, k);
    }
}

/// A browser is believed to come back only through the shell's own address, and only with both a
/// code and a state; it then brings these.
pub proof fn law_only_the_own_address_comes_back(u: UrlView)
    ensures
        callback_of(Some(u)) is Some <==> u.scheme == "xyz.tdbm.yomu"@ && u.host == Some("auth"@) && u.path
            == "/callback"@ && last_value_of(u.pairs, "code"@) is Some && last_value_of(
            u.pairs,
            "state"@,
        ) is Some,
        callback_of(Some(u)) matches Some(x) ==> Some(x.0) == last_value_of(u.pairs, "code"@) && Some(x.1)
            == last_value_of(u.pairs, "state"@),
        callback_of(None) is None,
{
}

}
