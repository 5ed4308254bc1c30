//! What is left of a text when its ends are taken off.

use vstd::prelude::*;

use crate::db::users::normalized;
use crate::text::{ascii_small, finishes_with, is_ascii_text, small, trimmed, trimmed_end, trimmed_start, white_space, without_suffixes};

verus! {

/// What is left of a text without the white space at its end.
proof fn lemma_trimmed_end(s: Seq<char>)
    ensures
        trimmed_end(s).len() <= s.len(),
        trimmed_end(s) == s.take(trimmed_end(s).len() as int),
        forall|i: int| trimmed_end(s).len() <= i < s.len() ==> white_space(#[trigger] s[i]),
        trimmed_end(s).len() > 0 ==> !white_space(trimmed_end(s).last()),
    decreases s.len(),
{
    if s.len() > 0 && white_space(s.last()) {
        let d = s.drop_last();
        lemma_trimmed_end(d);
        let n = trimmed_end(s).len() as int;
        assert(d.take(n) =~= s.take(n));
        assert forall|i: int| n <= i < s.len() implies white_space(#[trigger] s[i]) by {
            if i < d.len() {
                assert(d[i] == s[i]);
            }
        }
    } else {
        assert(s.take(s.len() as int) =~= s);
    }
}

/// What is left of a text without the white space at its start.
proof fn lemma_trimmed_start(s: Seq<char>)
    ensures
        trimmed_start(s).len() <= s.len(),
        trimmed_start(s) == s.skip(s.len() - trimmed_start(s).len()),
        forall|i: int| 0 <= i < s.len() - trimmed_start(s).len() ==> white_space(#[trigger] s[i]),
        trimmed_start(s).len() > 0 ==> !white_space(trimmed_start(s)[0]),
    decreases s.len(),
{
    if s.len() > 0 && white_space(s[0]) {
        let d = s.drop_first();
        lemma_trimmed_start(d);
        let out = trimmed_start(s);
        assert(d.skip(d.len() - out.len()) =~= s.skip(s.len() - out.len()));
        assert forall|i: int| 0 <= i < s.len() - out.len() implies white_space(#[trigger] s[i]) by {
            if i > 0 {
                assert(d[i - 1] == s[i]);
            }
        }
    } else {
        assert(s.skip(0) =~= s);
    }
}

/// A trimmed text is a part of the text; all around it is white space, and neither its first nor
/// its last character is.
pub proof fn law_trimming_takes_the_space_around(s: Seq<char>)
    ensures
        exists|from: int|
            {
                &&& 0 <= from
                &&& from + trimmed(s).len() <= s.len()
                &&& #[trigger] s.subrange(from, from + trimmed(s).len()) == trimmed(s)
                &&& forall|i: int| 0 <= i < from ==> white_space(#[trigger] s[i])
                &&& forall|i: int| from + trimmed(s).len() <= i < s.len() ==> white_space(#[trigger] s[i])
            },
        trimmed(s).len() > 0 ==> !white_space(trimmed(s)[0]) && !white_space(trimmed(s).last()),
{
    let t = trimmed_start(s);
    let u = trimmed(s);
    lemma_trimmed_start(s);
    lemma_trimmed_end(t);
    let from = s.len() - t.len();
    assert(s.subrange(from, from + u.len()) =~= u) by {
        assert forall|i: int| 0 <= i < u.len() implies s.subrange(from, from + u.len())[i] == #[trigger] u[i] by {
            assert(u[i] == t[i]);
            assert(t[i] == s[from + i]);
        }
    }
    assert forall|i: int| from + u.len() <= i < s.len() implies white_space(#[trigger] s[i]) by {
        assert(t[i - from] == s[i]);
    }
    if u.len() > 0 {
        assert(u[0] == t[0]);
    }
}

/// A text with no white space at either end stays as it is, and one of nothing but white space
/// becomes empty.
pub proof fn law_trimming_leaves_the_rest(s: Seq<char>)
    ensures
        s.len() == 0 || (!white_space(s[0]) && !white_space(s.last())) ==> trimmed(s) == s,
        (forall|i: int| 0 <= i < s.len() ==> white_space(#[trigger] s[i])) ==> trimmed(s).len() == 0,
        trimmed(trimmed(s)) == trimmed(s),
{
    law_trimming_takes_the_space_around(s);
    lemma_trimmed_start(s);
    if forall|i: int| 0 <= i < s.len() ==> white_space(#[trigger] s[i]) {
        let u = trimmed(s);
        let from = choose|from: int|
            0 <= from && from + u.len() <= s.len() && #[trigger] s.subrange(from, from + u.len()) == u;
        if u.len() > 0 {
            assert(s.subrange(from, from + u.len())[0] == s[from]);
        }
    }
}

/// What is left once a suffix is taken off a text as often as it stands at its end.
pub proof fn law_suffixes_are_taken_off(s: Seq<char>, suffix: Seq<char>)
    requires
        suffix.len() > 0,
    ensures
        without_suffixes(s + suffix, suffix) == without_suffixes(s, suffix),
        !finishes_with(without_suffixes(s, suffix), suffix),
        !finishes_with(s, suffix) ==> without_suffixes(s, suffix) == s,
    decreases s.len(),
{
    let t = s + suffix;
    assert(t.skip(t.len() - suffix.len()) =~= suffix);
    assert(t.take(t.len() - suffix.len()) =~= s);
    if finishes_with(s, suffix) {
        law_suffixes_are_taken_off(s.take(s.len() - suffix.len()), suffix);
    }
}

/// Capitals become small letters and nothing else changes; small letters stay.
pub proof fn law_small_letters_stay_small(c: char)
    ensures
        'A' <= c && c <= 'Z' ==> small(c) as u32 == c as u32 + ('a' as u32 - 'A' as u32),
        !('A' <= c && c <= 'Z') ==> small(c) == c,
        small(small(c)) == small(c),
{
}

/// A name of ASCII letters is kept in small letters and without the white space around it,
/// however it was typed.
pub proof fn law_names_are_kept_alike(a: Seq<char>, b: Seq<char>, i: int)
    requires
        is_ascii_text(trimmed(a)),
        is_ascii_text(trimmed(b)),
    ensures
        ascii_small(trimmed(a)) == ascii_small(trimmed(b)) ==> normalized(a) == normalized(b),
        normalized(a).len() == trimmed(a).len(),
        0 <= i < trimmed(a).len() ==> normalized(a)[i] == small(trimmed(a)[i]),
{
}

}
