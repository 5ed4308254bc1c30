//! Strings as sequences of characters: searching, splitting, joining, and the
//! decimal and hexadecimal notations that the rest of the library reads and writes.

use vstd::prelude::*;

verus! {

/// The characters of each string of a sequence.
pub open spec fn texts(v: Seq<String>) -> Seq<Seq<char>> {
    v.map_values(|s: String| s@)
}

/// The characters of an optional string.
pub open spec fn text_opt(o: Option<String>) -> Option<Seq<char>> {
    match o {
        Some(s) => Some(s@),
        None => None,
    }
}

/// The characters of an optional string slice.
pub open spec fn str_opt(o: Option<&str>) -> Option<Seq<char>> {
    match o {
        Some(s) => Some(s@),
        None => None,
    }
}

/// The length of a text that may be missing.
pub open spec fn opt_len(o: Option<Seq<char>>) -> int {
    match o {
        Some(s) => s.len() as int,
        None => 0,
    }
}

/// The characters of a string, in order.
pub fn chars_of(s: &str) -> (r: Vec<char>)
    ensures
        r@ == s@,
{
    let mut out: Vec<char> = Vec::new();
    for c in it: s.chars()
        invariant
            it.seq() == s@,
            out@ == s@.take(it.index()),
    {
        out.push(c);
        assert(out@ =~= s@.take(it.index() + 1));
    }
    assert(s@.take(s@.len() as int) =~= s@);
    out
}

/// A string of the given characters. `String::from_iter` collects an iterator of
/// characters into a string; the claim is that it keeps all of them, in order.
#[verifier::external_body]
pub(crate) fn string_of(chars: Vec<char>) -> (r: String)
    ensures
        r@ == chars@,
{
    String::from_iter(chars)
}

/// Whether two strings hold the same characters.
pub fn same(a: &str, b: &str) -> (r: bool)
    ensures
        r == (a@ == b@),
{
    a.to_owned() == b.to_owned()
}

/// `a` followed by `b`.
pub fn join2(a: &str, b: &str) -> (r: String)
    ensures
        r@ == a@ + b@,
{
    a.to_owned().concat(b)
}

/// `a`, `b` and `c`, one after the other.
pub fn join3(a: &str, b: &str, c: &str) -> (r: String)
    ensures
        r@ == a@ + b@ + c@,
{
    a.to_owned().concat(b).concat(c)
}

/// The first character of a string that has one.
pub fn first_char(s: &str) -> (r: char)
    requires
        s@.len() > 0,
    ensures
        r == s@[0],
{
    s.get_char(0)
}

/// How `Debug` writes a string: in double quotes, with escapes.
pub uninterp spec fn debug_text(s: Seq<char>) -> Seq<char>;

/// A string as `Debug` writes it. `str`'s `Debug` puts it in double quotes and
/// escapes some characters; the claim is that the text depends on the string alone.
#[verifier::external_body]
pub(crate) fn quoted(s: &str) -> (r: String)
    ensures
        r@ == debug_text(s@),
{
    format!("{s:?}")
}

// ---- searching ----

/// Where `c` first occurs in `s`.
pub open spec fn first_index(s: Seq<char>, c: char) -> Option<int>
    decreases s.len(),
{
    if s.len() == 0 {
        None
    } else {
        match first_index(s.drop_last(), c) {
            Some(i) => Some(i),
            None => if s.last() == c {
                Some(s.len() - 1)
            } else {
                None
            },
        }
    }
}

/// Where `c` last occurs in `s`.
pub open spec fn last_index(s: Seq<char>, c: char) -> Option<int>
    decreases s.len(),
{
    if s.len() == 0 {
        None
    } else if s.last() == c {
        Some(s.len() - 1)
    } else {
        last_index(s.drop_last(), c)
    }
}

/// The position that `first_index` gives is the only one that holds the
/// character with no earlier occurrence before it.
pub proof fn lemma_first_index(s: Seq<char>, c: char)
    ensures
        first_index(s, c) matches Some(i) ==> 0 <= i < s.len() && s[i] == c && forall|j: int|
            0 <= j < i ==> s[j] != c,
        first_index(s, c) is None ==> forall|j: int| 0 <= j < s.len() ==> s[j] != c,
    decreases s.len(),
{
    if s.len() > 0 {
        lemma_first_index(s.drop_last(), c);
        assert(forall|j: int| 0 <= j < s.len() - 1 ==> s[j] == s.drop_last()[j]);
    }
}

/// A position that holds `c`, with no `c` before it, is what `first_index` gives.
pub proof fn lemma_first_index_is(s: Seq<char>, c: char, i: int)
    requires
        0 <= i < s.len(),
        s[i] == c,
        forall|j: int| 0 <= j < i ==> s[j] != c,
    ensures
        first_index(s, c) == Some(i),
{
    lemma_first_index(s, c);
}

/// The position that `last_index` gives holds the character, and no later one does.
pub proof fn lemma_last_index(s: Seq<char>, c: char)
    ensures
        last_index(s, c) matches Some(i) ==> 0 <= i < s.len() && s[i] == c && forall|j: int|
            i < j < s.len() ==> s[j] != c,
        last_index(s, c) is None ==> forall|j: int| 0 <= j < s.len() ==> s[j] != c,
    decreases s.len(),
{
    if s.len() > 0 && s.last() != c {
        lemma_last_index(s.drop_last(), c);
        assert(forall|j: int| 0 <= j < s.len() - 1 ==> s[j] == s.drop_last()[j]);
    }
}

/// A position that holds `c`, with no `c` after it, is what `last_index` gives.
pub proof fn lemma_last_index_is(s: Seq<char>, c: char, i: int)
    requires
        0 <= i < s.len(),
        s[i] == c,
        forall|j: int| i < j < s.len() ==> s[j] != c,
    ensures
        last_index(s, c) == Some(i),
{
    lemma_last_index(s, c);
}

/// Finds the first occurrence of `c`.
pub fn find_char(s: &Vec<char>, c: char) -> (r: Option<usize>)
    ensures
        match r {
            Some(i) => first_index(s@, c) == Some(i as int) && i < s@.len(),
            None => first_index(s@, c) is None,
        },
{
    let mut i: usize = 0;
    while i < s.len()
        invariant
            i <= s@.len(),
            forall|j: int| 0 <= j < i ==> s@[j] != c,
        decreases s@.len() - i,
    {
        if s[i] == c {
            proof {
                lemma_first_index_is(s@, c, i as int);
            }
            return Some(i);
        }
        i += 1;
    }
    proof {
        lemma_first_index(s@, c);
    }
    None
}

/// Finds the last occurrence of `c`.
pub fn rfind_char(s: &Vec<char>, c: char) -> (r: Option<usize>)
    ensures
        match r {
            Some(i) => last_index(s@, c) == Some(i as int) && i < s@.len(),
            None => last_index(s@, c) is None,
        },
{
    let mut i: usize = s.len();
    while i > 0
        invariant
            i <= s@.len(),
            forall|j: int| i <= j < s@.len() ==> s@[j] != c,
        decreases i,
    {
        i -= 1;
        if s[i] == c {
            proof {
                lemma_last_index_is(s@, c, i as int);
            }
            return Some(i);
        }
    }
    proof {
        lemma_last_index(s@, c);
    }
    None
}

/// `s` begins with `p`.
pub open spec fn begins_with(s: Seq<char>, p: Seq<char>) -> bool {
    p.len() <= s.len() && s.take(p.len() as int) == p
}

/// `s` ends with `p`.
pub open spec fn finishes_with(s: Seq<char>, p: Seq<char>) -> bool {
    p.len() <= s.len() && s.skip(s.len() - p.len()) == p
}

/// `p` stands in `s` at position `i`.
pub open spec fn stands_at(s: Seq<char>, p: Seq<char>, i: int) -> bool {
    0 <= i && i + p.len() <= s.len() && s.subrange(i, i + p.len()) == p
}

/// `p` stands somewhere in `s`.
pub open spec fn occurs_in(s: Seq<char>, p: Seq<char>) -> bool {
    exists|i: int| stands_at(s, p, i)
}

/// Whether the characters of `p` stand in `s` at `at`.
pub fn matches_at(s: &Vec<char>, p: &Vec<char>, at: usize) -> (r: bool)
    ensures
        r == stands_at(s@, p@, at as int),
{
    if at > s.len() || p.len() > s.len() - at {
        return false;
    }
    let mut i: usize = 0;
    while i < p.len()
        invariant
            i <= p@.len(),
            at + p.len() <= s.len(),
            forall|j: int| 0 <= j < i ==> s@[at + j] == p@[j],
        decreases p@.len() - i,
    {
        if s[at + i] != p[i] {
            proof {
                assert(s@.subrange(at as int, at + p@.len())[i as int] != p@[i as int]);
            }
            return false;
        }
        i += 1;
    }
    assert(s@.subrange(at as int, at + p@.len()) =~= p@);
    true
}

/// Whether `s` begins with `p`.
pub fn starts_with(s: &str, p: &str) -> (r: bool)
    ensures
        r == begins_with(s@, p@),
{
    let sc = chars_of(s);
    let pc = chars_of(p);
    let r = matches_at(&sc, &pc, 0);
    assert(p@.len() <= s@.len() ==> s@.subrange(0, p@.len() as int) =~= s@.take(p@.len() as int));
    r
}

/// Whether `s` ends with `p`.
pub fn ends_with(s: &str, p: &str) -> (r: bool)
    ensures
        r == finishes_with(s@, p@),
{
    let sc = chars_of(s);
    let pc = chars_of(p);
    if pc.len() > sc.len() {
        return false;
    }
    let at: usize = sc.len() - pc.len();
    let r = matches_at(&sc, &pc, at);
    assert(s@.subrange(at as int, at + p@.len()) =~= s@.skip(s@.len() - p@.len()));
    r
}

/// Whether `p` stands somewhere in `s`.
pub fn contains(s: &str, p: &str) -> (r: bool)
    ensures
        r == occurs_in(s@, p@),
{
    let sc = chars_of(s);
    let pc = chars_of(p);
    if pc.len() > sc.len() {
        return false;
    }
    let last: usize = sc.len() - pc.len();
    let mut i: usize = 0;
    while i < last
        invariant
            i <= last,
            last == s@.len() - p@.len(),
            sc@ == s@,
            pc@ == p@,
            forall|j: int| 0 <= j < i ==> !stands_at(s@, p@, j),
        decreases last - i,
    {
        if matches_at(&sc, &pc, i) {
            return true;
        }
        i += 1;
    }
    matches_at(&sc, &pc, last)
}

// ---- splitting ----

/// The pieces of `s` between occurrences of `sep`: a separator closes one piece
/// and opens the next, so there is always one piece more than separators.
pub open spec fn pieces(s: Seq<char>, sep: char) -> Seq<Seq<char>>
    decreases s.len(),
{
    if s.len() == 0 {
        seq![Seq::empty()]
    } else {
        let done = pieces(s.drop_last(), sep);
        if s.last() == sep {
            done.push(Seq::empty())
        } else {
            done.update(done.len() - 1, done.last().push(s.last()))
        }
    }
}

/// There is at least one piece.
pub proof fn lemma_pieces_nonempty(s: Seq<char>, sep: char)
    ensures
        pieces(s, sep).len() >= 1,
    decreases s.len(),
{
    if s.len() > 0 {
        lemma_pieces_nonempty(s.drop_last(), sep);
    }
}

/// Splits `s` at every `sep`.
pub fn split_on(s: &str, sep: char) -> (r: Vec<String>)
    ensures
        texts(r@) == pieces(s@, sep),
{
    let sc = chars_of(s);
    let mut out: Vec<String> = Vec::new();
    let mut cur: Vec<char> = Vec::new();
    let mut i: usize = 0;
    assert(s@.take(0) =~= Seq::empty());
    assert(texts(out@).push(cur@) =~= pieces(s@.take(0), sep));
    while i < sc.len()
        invariant
            sc@ == s@,
            i <= sc@.len(),
            texts(out@).push(cur@) == pieces(s@.take(i as int), sep),
        decreases sc@.len() - i,
    {
        let c = sc[i];
        assert(s@.take(i + 1).drop_last() =~= s@.take(i as int));
        let ghost before = pieces(s@.take(i as int), sep);
        let ghost made = texts(out@);
        if c == sep {
            let piece = string_of(cur);
            out.push(piece);
            cur = Vec::new();
            assert(texts(out@) =~= before);
            assert(texts(out@).push(cur@) =~= pieces(s@.take(i + 1), sep));
        } else {
            let ghost old_cur = cur@;
            cur.push(c);
            assert(before.update(before.len() - 1, before.last().push(c)) =~= made.push(cur@));
        }
        i += 1;
    }
    assert(s@.take(s@.len() as int) =~= s@);
    let ghost made = texts(out@);
    let ghost rest = cur@;
    let piece = string_of(cur);
    out.push(piece);
    assert(texts(out@) =~= made.push(rest));
    out
}

/// Texts with a separator between them.
pub open spec fn joined(parts: Seq<Seq<char>>, sep: Seq<char>) -> Seq<char>
    decreases parts.len(),
{
    if parts.len() == 0 {
        Seq::empty()
    } else if parts.len() == 1 {
        parts[0]
    } else {
        joined(parts.drop_last(), sep) + sep + parts.last()
    }
}

/// The pieces of a text, with the separator between them, are the text.
pub proof fn lemma_pieces_join(s: Seq<char>, sep: char)
    ensures
        joined(pieces(s, sep), seq![sep]) == s,
    decreases s.len(),
{
    if s.len() > 0 {
        let t = s.drop_last();
        let done = pieces(t, sep);
        lemma_pieces_nonempty(t, sep);
        lemma_pieces_join(t, sep);
        assert(s =~= t.push(s.last()));
        if s.last() == sep {
            assert(pieces(s, sep).drop_last() =~= done);
            assert(t + seq![sep] + Seq::<char>::empty() =~= s);
        } else {
            let p = pieces(s, sep);
            if done.len() == 1 {
                assert(p[0] == done[0].push(s.last()));
            } else {
                assert(p.drop_last() =~= done.drop_last());
                assert(joined(done.drop_last(), seq![sep]) + seq![sep] + done.last().push(s.last())
                    =~= (joined(done.drop_last(), seq![sep]) + seq![sep] + done.last()).push(s.last()));
            }
        }
    }
}

/// No piece holds the separator.
pub proof fn lemma_pieces_hold_no_separator(s: Seq<char>, sep: char)
    ensures
        forall|i: int| 0 <= i < pieces(s, sep).len() ==> !(#[trigger] pieces(s, sep)[i]).contains(sep),
    decreases s.len(),
{
    if s.len() > 0 {
        let t = s.drop_last();
        let done = pieces(t, sep);
        lemma_pieces_nonempty(t, sep);
        lemma_pieces_hold_no_separator(t, sep);
        if s.last() != sep {
            let grown = done.last().push(s.last());
            assert(!grown.contains(sep)) by {
                if grown.contains(sep) {
                    let k = choose|k: int| 0 <= k < grown.len() && grown[k] == sep;
                    assert(k < done.last().len());
                    assert(done.last()[k] == sep);
                    assert(done.last().contains(sep));
                }
            }
        }
    }
}

/// Joins texts, with a separator between them.
pub fn join_all(parts: &Vec<String>, sep: &str) -> (r: String)
    ensures
        r@ == joined(texts(parts@), sep@),
{
    let mut out = String::new();
    let mut i: usize = 0;
    assert(texts(parts@).take(0) =~= Seq::empty());
    while i < parts.len()
        invariant
            i <= parts@.len(),
            out@ == joined(texts(parts@).take(i as int), sep@),
        decreases parts@.len() - i,
    {
        let ghost all = texts(parts@);
        assert(all.take(i + 1).drop_last() =~= all.take(i as int));
        assert(all.take(i + 1).last() == parts@[i as int]@);
        if i == 0 {
            out = parts[i].clone();
            assert(all.take(1)[0] == parts@[0]@);
        } else {
            out = join3(out.as_str(), sep, parts[i].as_str());
        }
        i += 1;
    }
    assert(texts(parts@).take(parts@.len() as int) =~= texts(parts@));
    out
}

// ---- ASCII classes ----

/// An ASCII decimal digit.
pub open spec fn is_digit(c: char) -> bool {
    '0' <= c && c <= '9'
}

/// An ASCII hexadecimal digit.
pub open spec fn is_hex(c: char) -> bool {
    is_digit(c) || ('a' <= c && c <= 'f') || ('A' <= c && c <= 'F')
}

/// An ASCII letter or digit.
pub open spec fn is_alnum(c: char) -> bool {
    is_digit(c) || ('a' <= c && c <= 'z') || ('A' <= c && c <= 'Z')
}

/// Tells ASCII hexadecimal digits.
pub fn hex_char(c: char) -> (r: bool)
    ensures
        r == is_hex(c),
{
    (c >= '0' && c <= '9') || (c >= 'a' && c <= 'f') || (c >= 'A' && c <= 'F')
}

/// Tells ASCII letters and digits.
pub fn alnum_char(c: char) -> (r: bool)
    ensures
        r == is_alnum(c),
{
    (c >= '0' && c <= '9') || (c >= 'a' && c <= 'z') || (c >= 'A' && c <= 'Z')
}

/// An ASCII capital's small letter; any other character as it is.
pub open spec fn small(c: char) -> char {
    if 'A' <= c && c <= 'Z' {
        (c as u32 + 32) as char
    } else {
        c
    }
}

/// `small` on every character.
pub open spec fn ascii_small(s: Seq<char>) -> Seq<char> {
    s.map_values(|c: char| small(c))
}

/// An ASCII capital's small letter; any other character as it is.
pub fn small_char(c: char) -> (r: char)
    ensures
        r == small(c),
{
    if c >= 'A' && c <= 'Z' {
        ((c as u8) + 32) as char
    } else {
        c
    }
}

/// The string with every ASCII capital replaced by its small letter.
pub fn ascii_lowercase(s: &str) -> (r: Vec<char>)
    ensures
        r@ == ascii_small(s@),
{
    let sc = chars_of(s);
    let mut out: Vec<char> = Vec::new();
    let mut i: usize = 0;
    while i < sc.len()
        invariant
            sc@ == s@,
            i <= sc@.len(),
            out@ == ascii_small(s@.take(i as int)),
        decreases sc@.len() - i,
    {
        out.push(small_char(sc[i]));
        i += 1;
        assert(out@ =~= ascii_small(s@.take(i as int)));
    }
    assert(s@.take(s@.len() as int) =~= s@);
    out
}

// ---- white space and case ----

/// Whether Unicode counts a character as white space: its property `White_Space`.
pub open spec fn white_space(c: char) -> bool {
    let n = c as u32;
    ||| 0x9 <= n <= 0xd
    ||| n == 0x20
    ||| n == 0x85
    ||| n == 0xa0
    ||| n == 0x1680
    ||| 0x2000 <= n <= 0x200a
    ||| n == 0x2028
    ||| n == 0x2029
    ||| n == 0x202f
    ||| n == 0x205f
    ||| n == 0x3000
}

/// Tells white space, by `char::is_whitespace`. The claim is that it goes by Unicode's
/// property `White_Space`, which these characters have and no others.
#[verifier::external_body]
pub(crate) fn is_white(c: char) -> (r: bool)
    ensures
        r == white_space(c),
{
    c.is_whitespace()
}

/// A text of ASCII characters.
pub open spec fn is_ascii_text(s: Seq<char>) -> bool {
    forall|i: int| 0 <= i < s.len() ==> (#[trigger] s[i]) as u32 <= 127
}

/// What a string with characters beyond ASCII is in lower case.
pub uninterp spec fn wide_lower_case(s: Seq<char>) -> Seq<char>;

/// What a string is in lower case.
pub open spec fn lower_case(s: Seq<char>) -> Seq<char> {
    if is_ascii_text(s) {
        ascii_small(s)
    } else {
        wide_lower_case(s)
    }
}

/// A string in lower case, by `str::to_lowercase`. Unicode's tables decide; the claim
/// is that the result depends on the string alone, and that where all of it is ASCII the
/// letters `A` to `Z` become `a` to `z` and nothing else changes.
#[verifier::external_body]
pub(crate) fn lowered(s: &str) -> (r: String)
    ensures
        r@ == (if is_ascii_text(s@) {
            ascii_small(s@)
        } else {
            wide_lower_case(s@)
        }),
{
    s.to_lowercase()
}

/// `s` without the white space at its end.
pub open spec fn trimmed_end(s: Seq<char>) -> Seq<char>
    decreases s.len(),
{
    if s.len() > 0 && white_space(s.last()) {
        trimmed_end(s.drop_last())
    } else {
        s
    }
}

/// `s` without the white space at its start.
pub open spec fn trimmed_start(s: Seq<char>) -> Seq<char>
    decreases s.len(),
{
    if s.len() > 0 && white_space(s[0]) {
        trimmed_start(s.drop_first())
    } else {
        s
    }
}

/// `s` without the white space at both ends.
pub open spec fn trimmed(s: Seq<char>) -> Seq<char> {
    trimmed_end(trimmed_start(s))
}

/// A string without the white space at both ends.
pub fn trim(s: &str) -> (r: String)
    ensures
        r@ == trimmed(s@),
{
    let sc = chars_of(s);
    let mut from: usize = 0;
    assert(s@.skip(0) =~= s@);
    while from < sc.len() && is_white(sc[from])
        invariant
            sc@ == s@,
            from <= sc@.len(),
            trimmed_start(s@) == trimmed_start(s@.skip(from as int)),
        decreases sc@.len() - from,
    {
        assert(s@.skip(from as int).drop_first() =~= s@.skip(from + 1));
        from += 1;
    }
    let ghost rest = s@.skip(from as int);
    assert(trimmed_start(s@) == rest);
    let mut to: usize = sc.len();
    assert(rest.take(rest.len() as int) =~= rest);
    while to > from && is_white(sc[to - 1])
        invariant
            sc@ == s@,
            from <= to <= sc@.len(),
            rest == s@.skip(from as int),
            trimmed_end(rest) == trimmed_end(rest.take(to - from)),
        decreases to - from,
    {
        assert(rest.take(to - from).drop_last() =~= rest.take(to - from - 1));
        assert(rest.take(to - from).last() == s@[to - 1]);
        to -= 1;
    }
    assert(to > from ==> rest.take(to - from).last() == s@[to - 1]);
    assert(s@.subrange(from as int, to as int) =~= rest.take(to - from));
    s.substring_char(from, to).to_owned()
}

/// A string with every occurrence of `suffix` at its end taken off.
pub open spec fn without_suffixes(s: Seq<char>, suffix: Seq<char>) -> Seq<char>
    decreases s.len(),
{
    if suffix.len() > 0 && finishes_with(s, suffix) {
        without_suffixes(s.take(s.len() - suffix.len()), suffix)
    } else {
        s
    }
}

/// Takes every occurrence of `suffix` off a string's end.
pub fn trim_end_matches(s: &str, suffix: &str) -> (r: String)
    ensures
        r@ == without_suffixes(s@, suffix@),
{
    let sc = chars_of(s);
    let pc = chars_of(suffix);
    let mut to: usize = sc.len();
    assert(s@.take(s@.len() as int) =~= s@);
    if pc.len() == 0 {
        return s.to_owned();
    }
    loop
        invariant
            sc@ == s@,
            pc@ == suffix@,
            pc@.len() > 0,
            to <= sc@.len(),
            without_suffixes(s@, suffix@) == without_suffixes(s@.take(to as int), suffix@),
        ensures
            to <= sc@.len(),
            without_suffixes(s@, suffix@) == s@.take(to as int),
        decreases to,
    {
        let ghost cur = s@.take(to as int);
        if pc.len() > to {
            break;
        }
        let at: usize = to - pc.len();
        if !matches_at(&sc, &pc, at) {
            assert(cur.skip(cur.len() - suffix@.len()) =~= s@.subrange(at as int, to as int));
            break;
        }
        assert(cur.skip(cur.len() - suffix@.len()) =~= s@.subrange(at as int, to as int));
        assert(cur.take(cur.len() - suffix@.len()) =~= s@.take(at as int));
        to = at;
    }
    assert(s@.subrange(0, to as int) =~= s@.take(to as int));
    s.substring_char(0, to).to_owned()
}

}
