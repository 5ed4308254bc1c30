//! Cached browse pages: when one is served as it is, when it is refreshed behind the
//! reader's back, and when the source has to be asked first.

use vstd::prelude::*;

use crate::clock::{nanos_between, seconds_between, whole_seconds, Timestamp};
use crate::text::{same, texts};

verus! {

/// What is done for one request of a listing.
#[derive(Clone, Copy, Debug, PartialEq, Eq, Structural)]
pub enum CachePlan {
    /// The cached page is served, and that is all.
    Fresh,
    /// The cached page is served, and refreshed in the background.
    Revalidate,
    /// There is no page to serve: the source is asked first.
    Live,
}

/// The age of a page in seconds. One from the future counts as very old.
pub open spec fn page_age(at: Timestamp, now: Timestamp) -> int {
    let seconds = whole_seconds(nanos_between(at, now));
    if seconds >= 0 {
        seconds
    } else {
        seconds + 0x1_0000_0000_0000_0000
    }
}

/// What is done for a page cached at a time, with pages living so many seconds. A
/// lifetime of zero turns caching off.
pub open spec fn plan_for(cached_at: Option<Timestamp>, ttl_secs: u64, now: Timestamp) -> CachePlan {
    match cached_at {
        None => CachePlan::Live,
        Some(at) => if ttl_secs == 0 {
            CachePlan::Live
        } else if page_age(at, now) <= ttl_secs {
            CachePlan::Fresh
        } else {
            CachePlan::Revalidate
        },
    }
}

impl CachePlan {
    /// Decides what is done for one request.
    pub fn decide(cached_at: Option<Timestamp>, ttl_secs: u64, now: Timestamp) -> (r: CachePlan)
        requires
            now.valid(),
            cached_at matches Some(at) ==> at.valid(),
        ensures
            r == plan_for(cached_at, ttl_secs, now),
    {
        match cached_at {
            None => CachePlan::Live,
            Some(at) => {
                if ttl_secs == 0 {
                    return CachePlan::Live;
                }
                let seconds: i64 = seconds_between(at, now);
                let age: u64 = if seconds >= 0 {
                    seconds as u64
                } else {
                    (seconds as i128 + 0x1_0000_0000_0000_0000) as u64
                };
                if age <= ttl_secs {
                    CachePlan::Fresh
                } else {
                    CachePlan::Revalidate
                }
            },
        }
    }
}

/// A page is served from the cache only where there is one, and only where caching is on.
pub proof fn law_cached_pages_are_there(cached_at: Option<Timestamp>, ttl_secs: u64, now: Timestamp)
    requires
        plan_for(cached_at, ttl_secs, now) != CachePlan::Live,
    ensures
        cached_at is Some,
        ttl_secs > 0,
{
}

/// The refreshes that are under way, so that none is started twice.
#[derive(Debug)]
pub struct Inflight {
    keys: Vec<String>,
}

impl View for Inflight {
    type V = Set<Seq<char>>;

    closed spec fn view(&self) -> Set<Seq<char>> {
        texts(self.keys@).to_set()
    }
}

impl Default for Inflight {
    fn default() -> (r: Self)
        ensures
            r@ == Set::<Seq<char>>::empty(),
    {
        let r = Inflight { keys: Vec::new() };
        assert(r@ =~= Set::<Seq<char>>::empty());
        r
    }
}

impl Inflight {
    /// Takes the slot of a key. `true` where it was free; it is held until `finish`.
    pub fn start(&mut self, key: &str) -> (r: bool)
        ensures
            r == !old(self)@.contains(key@),
            final(self)@ == old(self)@.insert(key@),
    {
        let mut i: usize = 0;
        while i < self.keys.len()
            invariant
                *self == *old(self),
                i <= self.keys@.len(),
                forall|j: int| 0 <= j < i ==> (#[trigger] self.keys@[j])@ != key@,
            decreases self.keys@.len() - i,
        {
            if same(self.keys[i].as_str(), key) {
                assert(texts(self.keys@)[i as int] == key@);
                assert(self@ =~= old(self)@.insert(key@));
                return false;
            }
            i += 1;
        }
        let ghost had = texts(self.keys@);
        assert(!had.contains(key@)) by {
            if had.contains(key@) {
                let k = choose|k: int| 0 <= k < had.len() && had[k] == key@;
                assert(self.keys@[k]@ == key@);
            }
        }
        self.keys.push(key.to_owned());
        assert(texts(self.keys@) =~= had.push(key@));
        assert(self@ =~= old(self)@.insert(key@)) by {
            assert forall|k: Seq<char>| had.push(key@).contains(k) <==> had.contains(k) || k == key@ by {
                if had.contains(k) {
                    let n = choose|n: int| 0 <= n < had.len() && had[n] == k;
                    assert(had.push(key@)[n] == k);
                }
                if k == key@ {
                    assert(had.push(key@)[had.len() as int] == k);
                }
            }
        }
        true
    }

    /// Gives the slot of a key back.
    pub fn finish(&mut self, key: &str)
        ensures
            final(self)@ == old(self)@.remove(key@),
    {
        let keep = |k: &String| -> (b: bool)
            ensures b == (k@ != key@)
        {
            !same(k.as_str(), key)
        };
        let ghost p = |k: String| k@ != key@;
        let ghost had = self.keys@;
        crate::tables::retain(&mut self.keys, keep, Ghost(p));
        assert(self@ =~= old(self)@.remove(key@)) by {
            let now = self.keys@;
            crate::tables::lemma_filter_contains(had, p);
            assert forall|k: Seq<char>| texts(now).contains(k) <==> texts(had).contains(k) && k != key@ by {
                if texts(now).contains(k) {
                    let n = choose|n: int| 0 <= n < now.len() && texts(now)[n] == k;
                    assert(now.contains(now[n]));
                    assert(had.contains(now[n]));
                    let m = choose|m: int| 0 <= m < had.len() && had[m] == now[n];
                    assert(texts(had)[m] == k);
                }
                if texts(had).contains(k) && k != key@ {
                    let m = choose|m: int| 0 <= m < had.len() && texts(had)[m] == k;
                    assert(had.contains(had[m]));
                    assert(now.contains(had[m]));
                    let n = choose|n: int| 0 <= n < now.len() && now[n] == had[m];
                    assert(texts(now)[n] == k);
                }
            }
        }
    }
}

}
