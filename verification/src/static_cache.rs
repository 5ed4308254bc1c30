//! Cache headers of the static frontend. Files whose names hold a fingerprint of their
//! content can be kept for a year, because a change arrives under another name. All
//! else has to be asked for again.

use vstd::prelude::*;

use crate::text::{chars_of, hex_char, is_hex, last_index, lemma_last_index, rfind_char};

verus! {

/// For files that never change under their names.
pub const IMMUTABLE: &'static str = "public, max-age=31536000, immutable";

/// For everything else.
pub const REVALIDATE: &'static str = "public, max-age=0, must-revalidate";

/// The shortest run of digits that counts as a fingerprint: a fingerprint is a 64-bit
/// number without its leading zeros.
pub const FINGERPRINT_MIN: usize = 8;

/// The longest run of digits that counts as a fingerprint.
pub const FINGERPRINT_MAX: usize = 16;

/// What parts a file name.
pub open spec fn parts_name(c: char) -> bool {
    c == '-' || c == '_' || c == '.'
}

/// A whole part of a file name, from one place to another, is a fingerprint.
pub open spec fn fingerprint_at(name: Seq<char>, from: int, to: int) -> bool {
    &&& 0 <= from <= to <= name.len()
    &&& from == 0 || parts_name(name[from - 1])
    &&& to == name.len() || parts_name(name[to])
    &&& FINGERPRINT_MIN <= to - from <= FINGERPRINT_MAX
    &&& forall|k: int| from <= k < to ==> is_hex(#[trigger] name[k])
}

/// What stands behind the last slash of a path.
pub open spec fn last_name(path: Seq<char>) -> Seq<char> {
    match last_index(path, '/') {
        Some(i) => path.skip(i + 1),
        None => path,
    }
}

/// Whether an address looks like that of a file with a fingerprint in its name.
pub open spec fn looks_fingerprinted(path: Seq<char>) -> bool {
    exists|from: int, to: int| fingerprint_at(last_name(path), from, to)
}

/// Tells whether an address looks like that of a file with a fingerprint in its name.
/// It is a guess about an address, and says nothing of what is served under it.
pub fn fingerprinted(path: &str) -> (r: bool)
    ensures
        r == looks_fingerprinted(path@),
{
    let chars = chars_of(path);
    let n: usize = chars.len();
    proof {
        lemma_last_index(path@, '/');
    }
    let first: usize = match rfind_char(&chars, '/') {
        Some(i) => i + 1,
        None => 0,
    };
    let ghost name = last_name(path@);
    assert(name =~= path@.skip(first as int));
    let mut from: usize = first;
    let mut hex = true;
    let mut i: usize = first;
    while i < n
        invariant
            chars@ == path@,
            n == path@.len(),
            name == last_name(path@),
            name == path@.skip(first as int),
            first <= from <= i <= n,
            from == first || parts_name(path@[from - 1]),
            forall|k: int| from <= k < i ==> !parts_name(#[trigger] path@[k]),
            hex == forall|k: int| from <= k < i ==> is_hex(#[trigger] path@[k]),
            forall|a: int, b: int| 0 <= a <= b && b < from - first ==> !#[trigger] fingerprint_at(name, a, b),
        decreases n - i,
    {
        let c = chars[i];
        if c == '-' || c == '_' || c == '.' {
            let len: usize = i - from;
            if hex && len >= FINGERPRINT_MIN && len <= FINGERPRINT_MAX {
                assert(fingerprint_at(name, from - first, i - first));
                return true;
            }
            proof {
                assert forall|a: int, b: int| 0 <= a <= b && b < i + 1 - first implies !#[trigger] fingerprint_at(
                    name,
                    a,
                    b,
                ) by {
                    if fingerprint_at(name, a, b) {
                        if b >= from - first {
                            assert(forall|k: int| from - first <= k < i - first ==> #[trigger] name[k] == path@[k + first]);
                            lemma_part(name, from - first, i - first, a, b);
                            assert forall|k: int| from <= k < i implies is_hex(#[trigger] path@[k]) by {
                                assert(path@[k] == name[k - first]);
                            }
                        }
                    }
                }
            }
            from = i + 1;
            hex = true;
        } else {
            hex = hex && hex_char(c);
        }
        i += 1;
    }
    let len: usize = n - from;
    if hex && len >= FINGERPRINT_MIN && len <= FINGERPRINT_MAX {
        assert(fingerprint_at(name, from - first, n - first));
        return true;
    }
    proof {
        assert forall|a: int, b: int| !#[trigger] fingerprint_at(name, a, b) by {
                    if fingerprint_at(name, a, b) {
                if b >= from - first {
                    assert(forall|k: int| from - first <= k < n - first ==> #[trigger] name[k] == path@[k + first]);
                    lemma_part(name, from - first, n - first, a, b);
                    assert forall|k: int| from <= k < n implies is_hex(#[trigger] path@[k]) by {
                        assert(path@[k] == name[k - first]);
                    }
                }
            }
        }
    }
    false
}

/// A fingerprint that ends at or behind the start of a part, and no further than the
/// part, is the whole part.
proof fn lemma_part(name: Seq<char>, from: int, to: int, a: int, b: int)
    requires
        0 <= from <= to <= name.len(),
        from == 0 || parts_name(name[from - 1]),
        forall|k: int| from <= k < to ==> !parts_name(#[trigger] name[k]),
        fingerprint_at(name, a, b),
        from <= b <= to,
    ensures
        a == from,
        b == to,
{
    if b < to {
        assert(parts_name(name[b]));
    }
    if a < from {
        assert(is_hex(name[from - 1]));
    }
    if a > from {
        assert(parts_name(name[a - 1]));
    }
}

/// Whether an answer of this status may be kept for good: it was a success, or says
/// that nothing changed. A miss describes today's files, not tomorrow's.
pub open spec fn may_be_pinned(status: u16) -> bool {
    (200 <= status < 300) || status == 304
}

/// The cache header of an answer. One that is set already stays: whoever set it knew
/// what was served.
pub open spec fn cache_control_for(path: Seq<char>, status: u16, already: Option<Seq<char>>) -> Seq<char> {
    match already {
        Some(value) => value,
        None => if looks_fingerprinted(path) && may_be_pinned(status) {
            IMMUTABLE@
        } else {
            REVALIDATE@
        },
    }
}

/// The headers that decide how an answer is cached.
#[derive(Debug, PartialEq, Eq)]
pub struct CacheHeaders {
    pub cache_control: Option<String>,
    pub vary: Vec<String>,
}

/// Gives an answer of the static files its cache headers. What it varies by is added to
/// what it varied by before.
pub fn cache_headers(path: &str, status: u16, headers: CacheHeaders) -> (r: CacheHeaders)
    ensures
        crate::text::text_opt(r.cache_control) == Some(
            cache_control_for(path@, status, crate::text::text_opt(headers.cache_control)),
        ),
        crate::text::texts(r.vary@) == crate::text::texts(headers.vary@).push("accept-encoding"@),
{
    let cache_control = match headers.cache_control {
        Some(value) => value,
        None => {
            if fingerprinted(path) && ((status >= 200 && status < 300) || status == 304) {
                IMMUTABLE.to_owned()
            } else {
                REVALIDATE.to_owned()
            }
        },
    };
    let mut vary = headers.vary;
    let ghost had = crate::text::texts(vary@);
    vary.push("accept-encoding".to_owned());
    assert(crate::text::texts(vary@) =~= had.push("accept-encoding"@));
    CacheHeaders { cache_control: Some(cache_control), vary }
}

/// Marks an answer of the frontend's own page: it has to be asked for again, whatever
/// the address it is given under.
pub fn shell_cache_headers(headers: CacheHeaders) -> (r: CacheHeaders)
    ensures
        crate::text::text_opt(r.cache_control) == Some(REVALIDATE@),
        r.vary == headers.vary,
{
    CacheHeaders { cache_control: Some(REVALIDATE.to_owned()), vary: headers.vary }
}

/// The frontend's own page is never kept for good: not under an address that looks like
/// a file with a fingerprint, and with no status.
pub proof fn law_the_shell_is_never_pinned(path: Seq<char>, status: u16)
    ensures
        cache_control_for(path, status, Some(REVALIDATE@)) == REVALIDATE@,
        REVALIDATE@ != IMMUTABLE@,
{
    reveal_strlit("public, max-age=31536000, immutable");
    reveal_strlit("public, max-age=0, must-revalidate");
    assert(REVALIDATE@.len() != IMMUTABLE@.len());
}

/// A miss is never kept for good.
pub proof fn law_misses_are_never_pinned(path: Seq<char>, status: u16)
    requires
        status >= 400,
    ensures
        cache_control_for(path, status, None) == REVALIDATE@,
{
}

}
