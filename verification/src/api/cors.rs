//! Which other origins may call the API.

use vstd::prelude::*;

use crate::notifier::{fits_header, header_value};
use crate::text::{texts, trim_end_matches, without_suffixes};

verus! {

/// Who may call.
#[derive(Debug, PartialEq, Eq)]
pub enum CorsPolicy {
    /// Everyone, but without credentials.
    Permissive,
    /// These origins, with credentials.
    Credentialed(Vec<String>),
}

/// An origin as browsers name it: without a slash at its end.
pub open spec fn origin_text(listed: Seq<char>) -> Seq<char> {
    without_suffixes(listed, "/"@)
}

/// The listed origins that can be named in a header.
pub open spec fn usable_origins(listed: Seq<Seq<char>>) -> Seq<Seq<char>>
    decreases listed.len(),
{
    if listed.len() == 0 {
        Seq::empty()
    } else {
        let before = usable_origins(listed.drop_last());
        if header_value(origin_text(listed.last())) {
            before.push(origin_text(listed.last()))
        } else {
            before
        }
    }
}

/// Decides who may call. Without a usable origin everyone may, without credentials; an
/// origin that cannot be named in a header is passed over. Origins have to be named: none
/// may be the wildcard.
pub fn cors_policy(allowed_origins: &Vec<String>) -> (r: CorsPolicy)
    requires
        forall|i: int|
            0 <= i < allowed_origins@.len() ==> origin_text((#[trigger] allowed_origins@[i])@) != "*"@,
    ensures
        ({
            let usable = usable_origins(texts(allowed_origins@));
            if usable.len() == 0 {
                r == CorsPolicy::Permissive
            } else {
                r matches CorsPolicy::Credentialed(list) && texts(list@) == usable
            }
        }),
{
    let ghost all = texts(allowed_origins@);
    let mut list: Vec<String> = Vec::new();
    let mut i: usize = 0;
    assert(all.take(0) =~= Seq::empty());
    assert(texts(list@) =~= Seq::empty());
    while i < allowed_origins.len()
        invariant
            all == texts(allowed_origins@),
            i <= allowed_origins@.len(),
            texts(list@) == usable_origins(all.take(i as int)),
        decreases allowed_origins@.len() - i,
    {
        assert(all.take(i + 1).drop_last() =~= all.take(i as int));
        assert(all.take(i + 1).last() == allowed_origins@[i as int]@);
        let origin = trim_end_matches(allowed_origins[i].as_str(), "/");
        if fits_header(origin.as_str()) {
            let ghost had = texts(list@);
            let ghost named = origin@;
            list.push(origin);
            assert(texts(list@) =~= had.push(named));
        }
        i += 1;
    }
    assert(all.take(all.len() as int) =~= all);
    if list.len() == 0 {
        CorsPolicy::Permissive
    } else {
        CorsPolicy::Credentialed(list)
    }
}

}
