//! Listings of sources, as readers get them: marked with what the library already
//! tracks, with covers that go through the server, and from the cache where it will do.

use vstd::prelude::*;

use crate::catalog::{plan_for, CachePlan, Inflight};
use crate::api::error::ApiError;
use crate::clock::Timestamp;
use crate::db::catalog::{all_recorded, keys_in, page_of, titles_of, written};
use crate::db::publications::{key_moved, keys_of};
use crate::db::{CatalogPageView, Db, DbView};
use crate::domain::api::SourceSearchResults;
use crate::domain::source::{BrowseSort, MangaSummary};
use crate::ids::Uuid;
use crate::links::{percent_encoded, percent_text};
use crate::numerals::{decimal, decimal_text};
use crate::text::{chars_of, hex_char, is_hex, join2, join3, last_index, lemma_last_index, rfind_char, same, text_opt};
use vstd::utf8::encode_utf8;

verus! {

/// A search among titles.
#[derive(Debug, PartialEq, Eq)]
pub struct SearchQuery {
    pub q: String,
}

/// A page of a listing.
#[derive(Clone, Copy, Debug, PartialEq, Eq, Structural)]
pub struct BrowseQuery {
    pub sort: BrowseSort,
    pub page: u32,
}

/// A cover, by the address that its source gave it.
#[derive(Debug, PartialEq, Eq)]
pub struct CoverQuery {
    pub src: String,
}

/// The page of a request that names none.
pub fn first_page() -> (r: u32)
    ensures
        r == 1,
{
    1
}

// ---- keys that drift ----

/// A key without the hash that some sources append to it and change over time: a hyphen
/// and at least six hexadecimal digits at its end.
pub open spec fn stem(key: Seq<char>) -> Seq<char> {
    match last_index(key, '-') {
        Some(i) => {
            let suffix = key.skip(i + 1);
            if suffix.len() >= 6 && forall|j: int| 0 <= j < suffix.len() ==> is_hex(#[trigger] suffix[j]) {
                key.take(i)
            } else {
                key
            }
        },
        None => key,
    }
}

/// Takes the drifting hash off a key.
pub fn slug_stem(key: &str) -> (r: String)
    ensures
        r@ == stem(key@),
{
    let chars = chars_of(key);
    proof {
        lemma_last_index(key@, '-');
    }
    let at: usize = match rfind_char(&chars, '-') {
        Some(i) => i,
        None => {
            return key.to_owned();
        },
    };
    let n: usize = chars.len();
    let ghost suffix = key@.skip(at + 1);
    if n - at - 1 < 6 {
        return key.to_owned();
    }
    let mut i: usize = at + 1;
    while i < n
        invariant
            chars@ == key@,
            n == key@.len(),
            at < i <= n,
            last_index(key@, '-') == Some(at as int),
            suffix == key@.skip(at + 1),
            suffix.len() >= 6,
            forall|j: int| 0 <= j < i - at - 1 ==> is_hex(#[trigger] suffix[j]),
        decreases n - i,
    {
        assert(chars@[i as int] == suffix[i - at - 1]);
        if !hex_char(chars[i]) {
            return key.to_owned();
        }
        i += 1;
    }
    assert(key@.subrange(0, at as int) =~= key@.take(at as int));
    key.substring_char(0, at).to_owned()
}

/// A key keeps its stem whatever hash stands behind it: two keys that differ in nothing
/// else have the same stem.
pub proof fn law_rotated_hashes_share_a_stem(base: Seq<char>, a: Seq<char>, b: Seq<char>)
    requires
        a.len() >= 6,
        b.len() >= 6,
        forall|j: int| 0 <= j < a.len() ==> is_hex(#[trigger] a[j]),
        forall|j: int| 0 <= j < b.len() ==> is_hex(#[trigger] b[j]),
    ensures
        stem(base + seq!['-'] + a) == base,
        stem(base + seq!['-'] + b) == base,
{
    lemma_stem_of(base, a);
    lemma_stem_of(base, b);
}

proof fn lemma_stem_of(base: Seq<char>, hash: Seq<char>)
    requires
        hash.len() >= 6,
        forall|j: int| 0 <= j < hash.len() ==> is_hex(#[trigger] hash[j]),
    ensures
        stem(base + seq!['-'] + hash) == base,
{
    let key = base + seq!['-'] + hash;
    let at = base.len() as int;
    assert(key[at] == '-');
    assert forall|j: int| at < j < key.len() implies key[j] != '-' by {
        assert(key[j] == hash[j - at - 1]);
        assert(is_hex(hash[j - at - 1]));
    }
    crate::text::lemma_last_index_is(key, '-', at);
    assert(key.skip(at + 1) =~= hash);
    assert(key.take(at) =~= base);
}

// ---- what the library tracks ----

/// The publication that tracks exactly this key.
pub open spec fn exact_match(keys: Seq<(String, Uuid)>, key: Seq<char>) -> Option<Uuid>
    decreases keys.len(),
{
    if keys.len() == 0 {
        None
    } else {
        match exact_match(keys.drop_last(), key) {
            Some(id) => Some(id),
            None => if keys.last().0@ == key {
                Some(keys.last().1)
            } else {
                None
            },
        }
    }
}

/// The tracked keys with this stem.
pub open spec fn stem_rows(keys: Seq<(String, Uuid)>, key: Seq<char>) -> Seq<(String, Uuid)> {
    keys.filter(|row: (String, Uuid)| stem(row.0@) == stem(key))
}

/// The publication that tracks a key with this stem, where it is the only one.
pub open spec fn stem_match(keys: Seq<(String, Uuid)>, key: Seq<char>) -> Option<Uuid> {
    let rows = stem_rows(keys, key);
    if rows.len() == 1 {
        Some(rows[0].1)
    } else {
        None
    }
}

/// The publication that tracks a title of a listing: by its key, and otherwise by its
/// stem.
pub open spec fn tracked_by(keys: Seq<(String, Uuid)>, key: Seq<char>) -> Option<Uuid> {
    match exact_match(keys, key) {
        Some(id) => Some(id),
        None => stem_match(keys, key),
    }
}

/// A title of a listing, marked.
pub open spec fn marked(keys: Seq<(String, Uuid)>, item: MangaSummary) -> MangaSummary {
    match tracked_by(keys, item.key@) {
        Some(id) => MangaSummary { in_library: Some(id), ..item },
        None => item,
    }
}

/// The publications whose keys have drifted, and the keys they have now.
pub open spec fn drifted(keys: Seq<(String, Uuid)>, items: Seq<MangaSummary>) -> Seq<(Uuid, String)>
    decreases items.len(),
{
    if items.len() == 0 {
        Seq::empty()
    } else {
        let before = drifted(keys, items.drop_last());
        let key = items.last().key;
        if exact_match(keys, key@) is None && stem_match(keys, key@) is Some {
            before.push((stem_match(keys, key@)->0, key))
        } else {
            before
        }
    }
}

/// Finds the publication that tracks exactly this key.
fn find_exact(keys: &Vec<(String, Uuid)>, key: &str) -> (r: Option<Uuid>)
    ensures
        r == exact_match(keys@, key@),
{
    let mut found: Option<Uuid> = None;
    let mut i: usize = 0;
    assert(keys@.take(0) =~= Seq::empty());
    while i < keys.len()
        invariant
            i <= keys@.len(),
            found == exact_match(keys@.take(i as int), key@),
        decreases keys@.len() - i,
    {
        assert(keys@.take(i + 1).drop_last() =~= keys@.take(i as int));
        if found.is_none() && same(keys[i].0.as_str(), key) {
            found = Some(keys[i].1);
        }
        i += 1;
    }
    assert(keys@.take(keys@.len() as int) =~= keys@);
    found
}

/// Finds the publication that tracks a key with this stem, where it is the only one.
fn find_stem(keys: &Vec<(String, Uuid)>, key: &str) -> (r: Option<Uuid>)
    ensures
        r == stem_match(keys@, key@),
{
    let own = slug_stem(key);
    let ghost p = |row: (String, Uuid)| stem(row.0@) == stem(key@);
    let mut found: Option<Uuid> = None;
    let mut more = false;
    let mut i: usize = 0;
    assert(keys@.take(0).filter(p) =~= Seq::empty());
    while i < keys.len()
        invariant
            own@ == stem(key@),
            p == (|row: (String, Uuid)| stem(row.0@) == stem(key@)),
            i <= keys@.len(),
            more == (keys@.take(i as int).filter(p).len() > 1),
            found is None <==> keys@.take(i as int).filter(p).len() == 0,
            found is Some ==> found->0 == keys@.take(i as int).filter(p)[0].1,
        decreases keys@.len() - i,
    {
        let ghost seen = keys@.take(i as int);
        proof {
            assert(keys@.take(i + 1) =~= seen.push(keys@[i as int]));
            crate::tables::lemma_filter_push(seen, keys@[i as int], p);
        }
        let other = slug_stem(keys[i].0.as_str());
        if same(other.as_str(), own.as_str()) {
            if found.is_some() {
                more = true;
            } else {
                found = Some(keys[i].1);
            }
        }
        i += 1;
    }
    assert(keys@.take(keys@.len() as int) =~= keys@);
    if more {
        None
    } else {
        found
    }
}

/// Marks the titles of a listing that the library tracks. A title is known by its key;
/// failing that, by its stem, so that a key that drifted is still found. Gives back the
/// publications whose keys have drifted, with the keys they have now.
pub fn annotate(keys: &Vec<(String, Uuid)>, items: &mut Vec<MangaSummary>) -> (r: Vec<(Uuid, String)>)
    ensures
        final(items)@ == old(items)@.map_values(|item: MangaSummary| marked(keys@, item)),
        r@ == drifted(keys@, old(items)@),
{
    let ghost all = items@;
    let mut heals: Vec<(Uuid, String)> = Vec::new();
    let mut i: usize = 0;
    assert(all.take(0) =~= Seq::empty());
    while i < items.len()
        invariant
            all == old(items)@,
            items@.len() == all.len(),
            i <= items@.len(),
            forall|j: int| 0 <= j < i ==> #[trigger] items@[j] == marked(keys@, all[j]),
            forall|j: int| i <= j < items@.len() ==> #[trigger] items@[j] == all[j],
            heals@ == drifted(keys@, all.take(i as int)),
        decreases items@.len() - i,
    {
        assert(all.take(i + 1).drop_last() =~= all.take(i as int));
        let mut item = items[i].clone();
        match find_exact(keys, item.key.as_str()) {
            Some(id) => {
                item.in_library = Some(id);
            },
            None => match find_stem(keys, item.key.as_str()) {
                Some(id) => {
                    heals.push((id, item.key.clone()));
                    item.in_library = Some(id);
                },
                None => {},
            },
        }
        items.set(i, item);
        i += 1;
    }
    assert(all.take(all.len() as int) =~= all);
    assert(items@ =~= all.map_values(|item: MangaSummary| marked(keys@, item)));
    heals
}

/// Where two tracked keys share a stem, that stem moves neither of them: it is not said
/// whose title it is.
pub proof fn law_shared_stems_heal_nothing(
    keys: Seq<(String, Uuid)>,
    items: Seq<MangaSummary>,
    i: int,
    j: int,
    n: int,
)
    requires
        0 <= i < j < keys.len(),
        stem(keys[i].0@) == stem(keys[j].0@),
        0 <= n < drifted(keys, items).len(),
    ensures
        stem(drifted(keys, items)[n].1@) != stem(keys[i].0@),
    decreases items.len(),
{
    if items.len() > 0 {
        let before = drifted(keys, items.drop_last());
        if n < before.len() {
            law_shared_stems_heal_nothing(keys, items.drop_last(), i, j, n);
        } else {
            let key = items.last().key@;
            let rows = stem_rows(keys, key);
            let p = |row: (String, Uuid)| stem(row.0@) == stem(key);
            if stem(key) == stem(keys[i].0@) {
                crate::tables::lemma_filter_two(keys, p, i, j);
                assert(rows.len() >= 2);
            }
        }
    }
}

/// The tables with drifted keys moved on, one after the other, where they can be.
pub open spec fn healed(db: DbView, heals: Seq<(Uuid, String)>) -> DbView
    decreases heals.len(),
{
    if heals.len() == 0 {
        db
    } else {
        key_moved(healed(db, heals.drop_last()), heals.last().0, heals.last().1)
    }
}

/// Marks the titles of a source's listing that the library tracks, and moves keys that
/// have drifted. A key that cannot be moved is left as it is.
pub fn annotate_in_library(db: &mut Db, source_id: &str, items: &mut Vec<MangaSummary>)
    requires
        old(db).wf(),
    ensures
        final(db).wf(),
        final(items)@ == old(items)@.map_values(
            |item: MangaSummary| marked(keys_of(old(db)@.publications, source_id@), item),
        ),
        final(db)@ == healed(
            old(db)@,
            drifted(keys_of(old(db)@.publications, source_id@), old(items)@),
        ),
{
    let keys = db.library_keys(source_id);
    let mut heals = annotate(&keys, items);
    let ghost all = heals@;
    let ghost mut done: int = 0;
    assert(all.take(0) =~= Seq::empty());
    assert(all.skip(0) =~= all);
    while heals.len() > 0
        invariant
            db.wf(),
            0 <= done <= all.len(),
            heals@ == all.skip(done),
            db@ == healed(old(db)@, all.take(done)),
        decreases heals@.len(),
    {
        let next = heals.remove(0);
        assert(next == all[done]);
        assert(all.take(done + 1).drop_last() =~= all.take(done));
        assert(heals@ =~= all.skip(done + 1));
        let _ = db.move_source_key(next.0, next.1);
        proof {
            done = done + 1;
        }
    }
    assert(all.take(done) =~= all);
}

// ---- covers ----

/// The server's address of a cover.
pub open spec fn proxy_text(cover: Seq<char>) -> Seq<char> {
    "/api/v1/covers?src="@ + percent_text(encode_utf8(cover))
}

/// A title of a listing, with its cover behind the server.
pub open spec fn proxied(was: MangaSummary, is: MangaSummary) -> bool {
    &&& is.key == was.key
    &&& is.title == was.title
    &&& is.in_library == was.in_library
    &&& text_opt(is.cover_url) == (match was.cover_url {
        Some(c) => Some(proxy_text(c@)),
        None => None,
    })
}

/// Points covers at the server, so that readers never turn to the source's own hosts.
pub fn proxy_covers(items: &mut Vec<MangaSummary>)
    ensures
        final(items)@.len() == old(items)@.len(),
        forall|i: int|
            0 <= i < final(items)@.len() ==> proxied(old(items)@[i], #[trigger] final(items)@[i]),
{
    let ghost all = items@;
    let mut i: usize = 0;
    while i < items.len()
        invariant
            all == old(items)@,
            items@.len() == all.len(),
            i <= items@.len(),
            forall|j: int| 0 <= j < i ==> proxied(all[j], #[trigger] items@[j]),
            forall|j: int| i <= j < items@.len() ==> #[trigger] items@[j] == all[j],
        decreases items@.len() - i,
    {
        let mut item = items[i].clone();
        let cover = match &item.cover_url {
            Some(c) => Some(join2("/api/v1/covers?src=", percent_encoded(c.as_str()).as_str())),
            None => None,
        };
        item.cover_url = cover;
        items.set(i, item);
        i += 1;
    }
}

// ---- listings ----

/// A listing as readers get it: marked, and with covers behind the server.
pub open spec fn served(keys: Seq<(String, Uuid)>, items: Seq<MangaSummary>, out: Seq<MangaSummary>) -> bool {
    &&& out.len() == items.len()
    &&& forall|i: int| 0 <= i < out.len() ==> proxied(marked(keys, items[i]), #[trigger] out[i])
}

/// Makes a listing ready for readers.
pub fn serve(db: &mut Db, source_id: &str, items: Vec<MangaSummary>) -> (r: Vec<MangaSummary>)
    requires
        old(db).wf(),
    ensures
        final(db).wf(),
        served(keys_of(old(db)@.publications, source_id@), items@, r@),
        final(db)@ == healed(old(db)@, drifted(keys_of(old(db)@.publications, source_id@), items@)),
{
    let mut out = items;
    annotate_in_library(db, source_id, &mut out);
    proxy_covers(&mut out);
    out
}

/// The tables with titles of a source recorded, and the listing's page that they make.
pub open spec fn page_stored(
    db: DbView,
    source: String,
    sort: Seq<char>,
    page: u32,
    items: Seq<MangaSummary>,
    now: Timestamp,
) -> DbView {
    DbView {
        catalog: all_recorded(db.catalog, source, items, now),
        pages: written(
            db.pages,
            CatalogPageView { source_id: source@, sort, page, keys: keys_in(items), fetched_at: now },
        ),
        ..db
    }
}

/// Records the titles of a fetched page, and the page that they make.
pub fn store_page(
    db: &mut Db,
    source_id: &str,
    query: BrowseQuery,
    items: &Vec<MangaSummary>,
    now: Timestamp,
)
    requires
        old(db).wf(),
        now.valid(),
    ensures
        final(db).wf(),
        exists|s: String|
            s@ == source_id@ && final(db)@ == #[trigger] page_stored(
                old(db)@,
                s,
                query.sort.key_text(),
                query.page,
                items@,
                now,
            ),
{
    db.upsert_catalog_entries(source_id, items, now);
    let ghost s = choose|s: String|
        s@ == source_id@ && db@ == (DbView {
            catalog: #[trigger] all_recorded(old(db)@.catalog, s, items@, now),
            ..old(db)@
        });
    let mut keys: Vec<String> = Vec::new();
    let mut i: usize = 0;
    while i < items.len()
        invariant
            i <= items@.len(),
            keys@.len() == i,
            forall|j: int| 0 <= j < i ==> #[trigger] keys@[j] == items@[j].key,
        decreases items@.len() - i,
    {
        keys.push(items[i].key.clone());
        i += 1;
    }
    assert(keys@ =~= keys_in(items@));
    db.write_catalog_page(source_id, query.sort.key(), query.page, &keys, now);
    assert(db@ == page_stored(old(db)@, s, query.sort.key_text(), query.page, items@, now));
}

/// The name under which a page's refresh is under way.
pub open spec fn flight_text(source_id: Seq<char>, query: BrowseQuery) -> Seq<char> {
    source_id + "/"@ + query.sort.key_text() + "/"@ + decimal(query.page as nat)
}

/// Gives the name under which a page's refresh is under way.
pub fn flight_key(source_id: &str, query: BrowseQuery) -> (r: String)
    ensures
        r@ == flight_text(source_id@, query),
{
    let front = join3(source_id, "/", query.sort.key());
    let number = decimal_text(query.page as u64);
    join3(front.as_str(), "/", number.as_str())
}

/// What is done with a request of a listing.
#[derive(Debug, PartialEq, Eq)]
pub enum BrowseStep {
    /// These titles are served. Where there is a name, the page is also refreshed under
    /// it, and the name given back with `browse_refreshed`.
    Serve(Vec<MangaSummary>, Option<String>),
    /// The source is asked first, and its answer given to `browse_fetched`.
    Fetch,
}

/// The plan for a page of a listing, by what the cache holds of it.
pub open spec fn page_plan(
    db: DbView,
    source_id: Seq<char>,
    query: BrowseQuery,
    ttl_secs: u64,
    now: Timestamp,
) -> CachePlan {
    plan_for(
        match page_of(db.pages, source_id, query.sort.key_text(), query.page) {
            Some(p) => Some(p.fetched_at),
            None => None,
        },
        ttl_secs,
        now,
    )
}

/// The titles of a page that the cache holds.
pub open spec fn cached_titles(db: DbView, source_id: Seq<char>, query: BrowseQuery) -> Seq<MangaSummary> {
    titles_of(
        db.catalog,
        source_id,
        page_of(db.pages, source_id, query.sort.key_text(), query.page)->0.keys,
    )
}

/// Answers a request of a listing from the cache where it can. A fresh page is served. A
/// stale one is served too, and refreshed unless its refresh is under way already. Only
/// a page that was never seen, or with caching off, waits for the source.
pub fn browse(
    db: &mut Db,
    inflight: &mut Inflight,
    source_id: &str,
    query: BrowseQuery,
    ttl_secs: u64,
    now: Timestamp,
) -> (r: BrowseStep)
    requires
        old(db).wf(),
        now.valid(),
    ensures
        final(db).wf(),
        match page_plan(old(db)@, source_id@, query, ttl_secs, now) {
            CachePlan::Live => {
                &&& r == BrowseStep::Fetch
                &&& final(db)@ == old(db)@
                &&& final(inflight)@ == old(inflight)@
            },
            plan => {
                let keys = keys_of(old(db)@.publications, source_id@);
                let items = cached_titles(old(db)@, source_id@, query);
                let key = flight_text(source_id@, query);
                &&& r is Serve
                &&& served(keys, items, r->Serve_0@)
                &&& final(db)@ == healed(old(db)@, drifted(keys, items))
                &&& text_opt(r->Serve_1) == (if plan == CachePlan::Revalidate
                    && !old(inflight)@.contains(key) {
                    Some(key)
                } else {
                    None
                })
                &&& final(inflight)@ == (if plan == CachePlan::Revalidate {
                    old(inflight)@.insert(key)
                } else {
                    old(inflight)@
                })
            },
        },
{
    let cached = db.read_catalog_page(source_id, query.sort.key(), query.page);
    let at = match &cached {
        Some(c) => Some(c.1),
        None => None,
    };
    proof {
        if at is Some {
            crate::db::catalog::lemma_page_is_there(
                db@.pages,
                source_id@,
                query.sort.key_text(),
                query.page,
            );
        }
    }
    let plan = CachePlan::decide(at, ttl_secs, now);
    match cached {
        None => BrowseStep::Fetch,
        Some(c) => match plan {
            CachePlan::Live => BrowseStep::Fetch,
            CachePlan::Fresh => BrowseStep::Serve(serve(db, source_id, c.0), None),
            CachePlan::Revalidate => {
                let key = flight_key(source_id, query);
                let refresh = if inflight.start(key.as_str()) {
                    Some(key)
                } else {
                    None
                };
                BrowseStep::Serve(serve(db, source_id, c.0), refresh)
            },
        },
    }
}

/// Answers a request of a listing with what the source gave, which is stored.
pub fn browse_fetched(
    db: &mut Db,
    source_id: &str,
    query: BrowseQuery,
    items: Vec<MangaSummary>,
    now: Timestamp,
) -> (r: Vec<MangaSummary>)
    requires
        old(db).wf(),
        now.valid(),
    ensures
        final(db).wf(),
        served(keys_of(old(db)@.publications, source_id@), items@, r@),
        exists|s: String|
            s@ == source_id@ && final(db)@ == healed(
                #[trigger] page_stored(old(db)@, s, query.sort.key_text(), query.page, items@, now),
                drifted(keys_of(old(db)@.publications, source_id@), items@),
            ),
{
    store_page(db, source_id, query, &items, now);
    serve(db, source_id, items)
}

/// Ends a refresh: what the source gave is stored, and where it gave nothing the stale
/// page stays. The next refresh may start.
pub fn browse_refreshed(
    db: &mut Db,
    inflight: &mut Inflight,
    source_id: &str,
    query: BrowseQuery,
    fetched: Option<Vec<MangaSummary>>,
    now: Timestamp,
)
    requires
        old(db).wf(),
        now.valid(),
    ensures
        final(db).wf(),
        final(inflight)@ == old(inflight)@.remove(flight_text(source_id@, query)),
        match fetched {
            Some(items) => exists|s: String|
                s@ == source_id@ && final(db)@ == #[trigger] page_stored(
                    old(db)@,
                    s,
                    query.sort.key_text(),
                    query.page,
                    items@,
                    now,
                ),
            None => final(db)@ == old(db)@,
        },
{
    match fetched {
        Some(items) => {
            store_page(db, source_id, query, &items, now);
        },
        None => {},
    }
    let key = flight_key(source_id, query);
    inflight.finish(key.as_str());
}

/// The tables with what a search of one source found recorded, and keys that drifted
/// moved on.
pub open spec fn search_kept(before: DbView, source_id: Seq<char>, items: Seq<MangaSummary>, now: Timestamp, after: DbView) -> bool {
    exists|s: String|
        s@ == source_id && after == healed(
            (DbView { catalog: #[trigger] all_recorded(before.catalog, s, items, now), ..before }),
            drifted(keys_of(before.publications, source_id), items),
        )
}

/// Makes what a search of one source found ready for readers: the titles are remembered,
/// marked, and served.
pub fn searched(db: &mut Db, source_id: &str, items: Vec<MangaSummary>, now: Timestamp) -> (r: Vec<MangaSummary>)
    requires
        old(db).wf(),
    ensures
        final(db).wf(),
        served(keys_of(old(db)@.publications, source_id@), items@, r@),
        search_kept(old(db)@, source_id@, items@, now, final(db)@),
{
    db.upsert_catalog_entries(source_id, &items, now);
    serve(db, source_id, items)
}

/// Answers a search of one source with what it found, or with what it failed with. There
/// is nothing to ask where the source is not configured.
pub fn search(
    db: &mut Db,
    source_id: &str,
    found: Option<Result<Vec<MangaSummary>, String>>,
    now: Timestamp,
) -> (r: Result<Vec<MangaSummary>, ApiError>)
    requires
        old(db).wf(),
    ensures
        final(db).wf(),
        match found {
            None => r == Err::<Vec<MangaSummary>, ApiError>(ApiError::NotFound) && final(db)@ == old(db)@,
            Some(Err(shown)) => r == Err::<Vec<MangaSummary>, ApiError>(
                ApiError::UpstreamFailed(shown),
            ) && final(db)@ == old(db)@,
            Some(Ok(items)) => {
                &&& r matches Ok(out) && served(keys_of(old(db)@.publications, source_id@), items@, out@)
                &&& search_kept(old(db)@, source_id@, items@, now, final(db)@)
            },
        },
{
    match found {
        None => Err(ApiError::NotFound),
        Some(Err(shown)) => Err(ApiError::from_source(shown)),
        Some(Ok(items)) => Ok(searched(db, source_id, items, now)),
    }
}

/// What one source answered to a search of all of them.
#[derive(Debug)]
pub struct SourceAnswer {
    pub source_id: String,
    pub source_name: String,
    /// The titles it found, or what it failed with.
    pub found: Result<Vec<MangaSummary>, String>,
}

/// What one source contributes to a search of all of them. One that failed contributes
/// its error, and changes nothing.
pub open spec fn contributes(before: DbView, a: SourceAnswer, now: Timestamp, after: DbView, r: SourceSearchResults) -> bool {
    &&& r.source_id == a.source_id
    &&& r.source_name == a.source_name
    &&& match a.found {
        Ok(items) => {
            &&& r.error is None
            &&& served(keys_of(before.publications, a.source_id@), items@, r.results@)
            &&& search_kept(before, a.source_id@, items@, now, after)
        },
        Err(shown) => {
            &&& r.error == Some(shown)
            &&& r.results@.len() == 0
            &&& after == before
        },
    }
}

/// Sources that contribute one after the other, through these states of the tables.
pub open spec fn contribute_in_turn(
    states: Seq<DbView>,
    answers: Seq<SourceAnswer>,
    now: Timestamp,
    r: Seq<SourceSearchResults>,
) -> bool {
    &&& states.len() == answers.len() + 1
    &&& r.len() == answers.len()
    &&& forall|i: int|
        0 <= i < r.len() ==> contributes(states[i], answers[i], now, states[i + 1], #[trigger] r[i])
}

/// Answers a search of all sources with what each of them found.
pub fn search_all(db: &mut Db, answers: Vec<SourceAnswer>, now: Timestamp) -> (r: Vec<SourceSearchResults>)
    requires
        old(db).wf(),
    ensures
        final(db).wf(),
        exists|states: Seq<DbView>|
            #[trigger] contribute_in_turn(states, answers@, now, r@) && states[0] == old(db)@
                && states.last() == final(db)@,
{
    let ghost all = answers@;
    let mut rest = answers;
    let mut out: Vec<SourceSearchResults> = Vec::new();
    let ghost mut states: Seq<DbView> = seq![db@];
    assert(all.skip(0) =~= all);
    while rest.len() > 0
        invariant
            db.wf(),
            out@.len() + rest@.len() == all.len(),
            rest@ == all.skip(out@.len() as int),
            states.len() == out@.len() + 1,
            states[0] == old(db)@,
            states.last() == db@,
            forall|i: int|
                0 <= i < out@.len() ==> contributes(states[i], all[i], now, states[i + 1], #[trigger] out@[i]),
        decreases rest@.len(),
    {
        let ghost had = out@;
        let ghost before = db@;
        let next = rest.remove(0);
        let ghost answer = all[had.len() as int];
        assert(next == answer);
        assert(rest@ =~= all.skip(1 + had.len() as int));
        let (results, error) = match next.found {
            Ok(items) => (searched(db, next.source_id.as_str(), items, now), None),
            Err(shown) => (Vec::new(), Some(shown)),
        };
        out.push(
            SourceSearchResults { source_id: next.source_id, source_name: next.source_name, results, error },
        );
        proof {
            let was = states;
            states = was.push(db@);
            assert forall|i: int| 0 <= i < out@.len() implies contributes(
                states[i],
                all[i],
                now,
                states[i + 1],
                #[trigger] out@[i],
            ) by {
                if i < had.len() {
                    assert(contributes(was[i], all[i], now, was[i + 1], had[i]));
                    assert(out@[i] == had[i]);
                }
            }
        }
    }
    assert(contribute_in_turn(states, all, now, out@));
    out
}

}
