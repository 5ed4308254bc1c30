//! The catalog: titles seen in sources' listings, and listing pages as they were.

use vstd::prelude::*;

use crate::clock::Timestamp;
use crate::db::{CatalogEntry, CatalogPage, CatalogPageView, Db, DbView};
use crate::domain::source::MangaSummary;
use crate::tables::{any, change_all};
use crate::text::same;

verus! {

/// The entry is of the source's title with the key.
pub open spec fn is_entry(e: CatalogEntry, source_id: Seq<char>, key: Seq<char>) -> bool {
    e.source_id@ == source_id && e.key@ == key
}

/// The catalog has the source's title with the key.
pub open spec fn has_entry(catalog: Seq<CatalogEntry>, source_id: Seq<char>, key: Seq<char>) -> bool {
    exists|i: int| 0 <= i < catalog.len() && is_entry(#[trigger] catalog[i], source_id, key)
}

/// An entry as a summary shows it now.
pub open spec fn seen(e: CatalogEntry, item: MangaSummary, now: Timestamp) -> CatalogEntry {
    CatalogEntry { title: item.title, cover_url: item.cover_url, last_seen_at: now, ..e }
}

/// The catalog with one summary recorded.
pub open spec fn recorded(
    catalog: Seq<CatalogEntry>,
    source_id: String,
    item: MangaSummary,
    now: Timestamp,
) -> Seq<CatalogEntry> {
    if has_entry(catalog, source_id@, item.key@) {
        catalog.map_values(
            |e: CatalogEntry|
                if is_entry(e, source_id@, item.key@) {
                    seen(e, item, now)
                } else {
                    e
                },
        )
    } else {
        catalog.push(
            CatalogEntry {
                source_id,
                key: item.key,
                title: item.title,
                cover_url: item.cover_url,
                last_seen_at: now,
            },
        )
    }
}

/// The catalog with summaries recorded, one after the other.
pub open spec fn all_recorded(
    catalog: Seq<CatalogEntry>,
    source_id: String,
    items: Seq<MangaSummary>,
    now: Timestamp,
) -> Seq<CatalogEntry>
    decreases items.len(),
{
    if items.len() == 0 {
        catalog
    } else {
        recorded(
            all_recorded(catalog, source_id, items.drop_last(), now),
            source_id,
            items.last(),
            now,
        )
    }
}

/// The first entry of the source's title with the key.
pub open spec fn entry_of(catalog: Seq<CatalogEntry>, source_id: Seq<char>, key: Seq<char>) -> Option<
    CatalogEntry,
>
    decreases catalog.len(),
{
    if catalog.len() == 0 {
        None
    } else {
        match entry_of(catalog.drop_last(), source_id, key) {
            Some(e) => Some(e),
            None => if is_entry(catalog.last(), source_id, key) {
                Some(catalog.last())
            } else {
                None
            },
        }
    }
}

/// The page is the source's listing page.
pub open spec fn is_page(p: CatalogPageView, source_id: Seq<char>, sort: Seq<char>, page: u32) -> bool {
    p.source_id == source_id && p.sort == sort && p.page == page
}

/// The stored listing page.
pub open spec fn page_of(
    pages: Seq<CatalogPageView>,
    source_id: Seq<char>,
    sort: Seq<char>,
    page: u32,
) -> Option<CatalogPageView>
    decreases pages.len(),
{
    if pages.len() == 0 {
        None
    } else {
        match page_of(pages.drop_last(), source_id, sort, page) {
            Some(p) => Some(p),
            None => if is_page(pages.last(), source_id, sort, page) {
                Some(pages.last())
            } else {
                None
            },
        }
    }
}

/// A page that is found is one of the pages.
pub proof fn lemma_page_is_there(pages: Seq<CatalogPageView>, source_id: Seq<char>, sort: Seq<char>, page: u32)
    requires
        page_of(pages, source_id, sort, page) is Some,
    ensures
        exists|i: int| 0 <= i < pages.len() && #[trigger] pages[i] == page_of(pages, source_id, sort, page)->0,
    decreases pages.len(),
{
    let d = pages.drop_last();
    if page_of(d, source_id, sort, page) is Some {
        lemma_page_is_there(d, source_id, sort, page);
        let i = choose|i: int| 0 <= i < d.len() && #[trigger] d[i] == page_of(d, source_id, sort, page)->0;
        assert(pages[i] == d[i]);
    } else {
        assert(pages[pages.len() - 1] == page_of(pages, source_id, sort, page)->0);
    }
}

/// The pages with one written: replaced where it is there, else added.
pub open spec fn written(pages: Seq<CatalogPageView>, p: CatalogPageView) -> Seq<CatalogPageView> {
    if page_of(pages, p.source_id, p.sort, p.page) is Some {
        pages.map_values(
            |q: CatalogPageView|
                if is_page(q, p.source_id, p.sort, p.page) {
                    p
                } else {
                    q
                },
        )
    } else {
        pages.push(p)
    }
}

/// A listed title, out of its entry.
pub open spec fn summary_of_entry(key: String, e: CatalogEntry) -> MangaSummary {
    MangaSummary { key, title: e.title, cover_url: e.cover_url, in_library: None }
}

/// The titles with the keys, in order, as far as the catalog has them.
pub open spec fn titles_of(catalog: Seq<CatalogEntry>, source_id: Seq<char>, keys: Seq<String>) -> Seq<
    MangaSummary,
>
    decreases keys.len(),
{
    if keys.len() == 0 {
        Seq::empty()
    } else {
        let before = titles_of(catalog, source_id, keys.drop_last());
        match entry_of(catalog, source_id, keys.last()@) {
            Some(e) => before.push(summary_of_entry(keys.last(), e)),
            None => before,
        }
    }
}

/// The source of the first entry with the cover.
pub open spec fn source_of_cover(catalog: Seq<CatalogEntry>, cover_url: Seq<char>) -> Option<String>
    decreases catalog.len(),
{
    if catalog.len() == 0 {
        None
    } else {
        match source_of_cover(catalog.drop_last(), cover_url) {
            Some(s) => Some(s),
            None => if catalog.last().cover_url is Some && catalog.last().cover_url->0@ == cover_url {
                Some(catalog.last().source_id)
            } else {
                None
            },
        }
    }
}

impl Db {
    /// Records titles seen in a source's listing: known ones are brought up to date.
    pub fn upsert_catalog_entries(&mut self, source_id: &str, items: &Vec<MangaSummary>, now: Timestamp)
        requires
            old(self).wf(),
        ensures
            final(self).wf(),
            exists|s: String|
                s@ == source_id@ && final(self)@ == (DbView {
                    catalog: #[trigger] all_recorded(old(self)@.catalog, s, items@, now),
                    ..old(self)@
                }),
    {
        let source = source_id.to_owned();
        let ghost before = self@;
        let mut k: usize = 0;
        assert(items@.take(0) =~= Seq::empty());
        while k < items.len()
            invariant
                k <= items@.len(),
                self@ == (DbView {
                    catalog: all_recorded(before.catalog, source, items@.take(k as int), now),
                    ..before
                }),
            decreases items@.len() - k,
        {
            let item = &items[k];
            assert(items@.take(k + 1).drop_last() =~= items@.take(k as int));
            let s = &source;
            let hit = |e: &CatalogEntry| -> (b: bool)
                ensures b == is_entry(*e, s@, item.key@)
            {
                same(e.source_id.as_str(), s.as_str()) && same(e.key.as_str(), item.key.as_str())
            };
            let there = any(
                &self.catalog,
                hit,
                Ghost(|e: CatalogEntry| is_entry(e, source@, item.key@)),
            );
            assert(there == has_entry(self@.catalog, source@, item.key@));
            if there {
                let step = |e: &CatalogEntry| -> (f: CatalogEntry)
                    ensures f == (if is_entry(*e, s@, item.key@) { seen(*e, *item, now) } else { *e })
                {
                    let mut f = e.clone();
                    if same(e.source_id.as_str(), s.as_str()) && same(
                        e.key.as_str(),
                        item.key.as_str(),
                    ) {
                        f.title = item.title.clone();
                        f.cover_url = item.cover_url.clone();
                        f.last_seen_at = now;
                    }
                    f
                };
                change_all(
                    &mut self.catalog,
                    step,
                    Ghost(
                        |e: CatalogEntry|
                            if is_entry(e, source@, item.key@) {
                                seen(e, *item, now)
                            } else {
                                e
                            },
                    ),
                );
            } else {
                self.catalog.push(
                    CatalogEntry {
                        source_id: source.clone(),
                        key: item.key.clone(),
                        title: item.title.clone(),
                        cover_url: item.cover_url.clone(),
                        last_seen_at: now,
                    },
                );
            }
            assert(self@ =~= (DbView {
                catalog: all_recorded(before.catalog, source, items@.take(k + 1), now),
                ..before
            }));
            k += 1;
        }
        assert(items@.take(items@.len() as int) =~= items@);
    }

    /// Stores a listing page: the keys on it, in order.
    pub fn write_catalog_page(
        &mut self,
        source_id: &str,
        sort: &str,
        page: u32,
        keys: &Vec<String>,
        now: Timestamp,
    )
        requires
            old(self).wf(),
            now.valid(),
        ensures
            final(self).wf(),
            final(self)@ == (DbView {
                pages: written(
                    old(self)@.pages,
                    CatalogPageView {
                        source_id: source_id@,
                        sort: sort@,
                        page,
                        keys: keys@,
                        fetched_at: now,
                    },
                ),
                ..old(self)@
            }),
    {
        let ghost before = self@;
        let ghost new = CatalogPageView {
            source_id: source_id@,
            sort: sort@,
            page,
            keys: keys@,
            fetched_at: now,
        };
        let ghost out = before.pages.map_values(
            |q: CatalogPageView|
                if is_page(q, source_id@, sort@, page) {
                    new
                } else {
                    q
                },
        );
        let mut there = false;
        let mut i: usize = 0;
        assert(before.pages.take(0) =~= Seq::empty());
        while i < self.pages.len()
            invariant
                i <= self.pages@.len(),
                self.pages@.len() == before.pages.len(),
                new == (CatalogPageView {
                    source_id: source_id@,
                    sort: sort@,
                    page,
                    keys: keys@,
                    fetched_at: now,
                }),
                out == before.pages.map_values(
                    |q: CatalogPageView|
                        if is_page(q, source_id@, sort@, page) {
                            new
                        } else {
                            q
                        },
                ),
                self@ == (DbView { pages: self@.pages, ..before }),
                forall|j: int| 0 <= j < i ==> (#[trigger] self.pages@[j])@ == out[j],
                forall|j: int| i <= j < self.pages@.len() ==> (#[trigger] self.pages@[j])@ == before.pages[j],
                there == (page_of(before.pages.take(i as int), source_id@, sort@, page) is Some),
            decreases self.pages@.len() - i,
        {
            assert(before.pages.take(i + 1).drop_last() =~= before.pages.take(i as int));
            assert(self.pages@[i as int]@ == before.pages[i as int]);
            let p = &self.pages[i];
            if p.page == page && same(p.source_id.as_str(), source_id) && same(p.sort.as_str(), sort) {
                there = true;
                let fresh = CatalogPage {
                    source_id: source_id.to_owned(),
                    sort: sort.to_owned(),
                    page,
                    keys: keys.clone(),
                    fetched_at: now,
                };
                assert(fresh@ =~= new);
                self.pages.set(i, fresh);
            }
            i += 1;
        }
        assert(before.pages.take(before.pages.len() as int) =~= before.pages);
        if !there {
            proof {
                assert(out =~= before.pages) by {
                    lemma_no_page(before.pages, source_id@, sort@, page);
                }
                assert(self@.pages =~= before.pages);
            }
            let fresh = CatalogPage {
                source_id: source_id.to_owned(),
                sort: sort.to_owned(),
                page,
                keys: keys.clone(),
                fetched_at: now,
            };
            assert(fresh@ =~= new);
            self.pages.push(fresh);
            assert(self@.pages =~= before.pages.push(new));
        } else {
            assert(self@.pages =~= out);
        }
    }

    /// A stored listing page: its titles in order, and when it was fetched.
    pub fn read_catalog_page(&self, source_id: &str, sort: &str, page: u32) -> (r: Option<
        (Vec<MangaSummary>, Timestamp),
    >)
        ensures
            match page_of(self@.pages, source_id@, sort@, page) {
                None => r is None,
                Some(p) => {
                    &&& r is Some
                    &&& (r->0).0@ == titles_of(self@.catalog, source_id@, p.keys)
                    &&& (r->0).1 == p.fetched_at
                },
            },
    {
        let ghost views = self@.pages;
        let mut i: usize = 0;
        assert(views.take(0) =~= Seq::empty());
        while i < self.pages.len()
            invariant
                i <= self.pages@.len(),
                views == self@.pages,
                views.len() == self.pages@.len(),
                page_of(views.take(i as int), source_id@, sort@, page) is None,
            decreases self.pages@.len() - i,
        {
            assert(views.take(i + 1).drop_last() =~= views.take(i as int));
            let p = &self.pages[i];
            assert(views[i as int] == p@);
            if p.page == page && same(p.source_id.as_str(), source_id) && same(p.sort.as_str(), sort) {
                proof {
                    lemma_page_prefix(views, source_id@, sort@, page, i + 1);
                }
                let items = self.titles(source_id, &p.keys);
                return Some((items, p.fetched_at));
            }
            i += 1;
        }
        assert(views.take(views.len() as int) =~= views);
        None
    }

    /// The titles with the keys, in order, as far as the catalog has them.
    fn titles(&self, source_id: &str, keys: &Vec<String>) -> (r: Vec<MangaSummary>)
        ensures
            r@ == titles_of(self@.catalog, source_id@, keys@),
    {
        let mut out: Vec<MangaSummary> = Vec::new();
        let mut k: usize = 0;
        assert(keys@.take(0) =~= Seq::empty());
        while k < keys.len()
            invariant
                k <= keys@.len(),
                out@ == titles_of(self@.catalog, source_id@, keys@.take(k as int)),
            decreases keys@.len() - k,
        {
            assert(keys@.take(k + 1).drop_last() =~= keys@.take(k as int));
            match self.find_entry(source_id, keys[k].as_str()) {
                Some(i) => {
                    let e = &self.catalog[i];
                    out.push(
                        MangaSummary {
                            key: keys[k].clone(),
                            title: e.title.clone(),
                            cover_url: e.cover_url.clone(),
                            in_library: None,
                        },
                    );
                },
                None => {},
            }
            k += 1;
        }
        assert(keys@.take(keys@.len() as int) =~= keys@);
        out
    }

    /// Where the entry of a source's title stands.
    fn find_entry(&self, source_id: &str, key: &str) -> (r: Option<usize>)
        ensures
            match r {
                Some(i) => i < self.catalog@.len() && entry_of(self@.catalog, source_id@, key@) == Some(
                    self.catalog@[i as int],
                ),
                None => entry_of(self@.catalog, source_id@, key@) is None,
            },
    {
        let mut i: usize = 0;
        assert(self.catalog@.take(0) =~= Seq::empty());
        while i < self.catalog.len()
            invariant
                i <= self.catalog@.len(),
                self@.catalog == self.catalog@,
                entry_of(self.catalog@.take(i as int), source_id@, key@) is None,
            decreases self.catalog@.len() - i,
        {
            assert(self.catalog@.take(i + 1).drop_last() =~= self.catalog@.take(i as int));
            let e = &self.catalog[i];
            if same(e.source_id.as_str(), source_id) && same(e.key.as_str(), key) {
                proof {
                    lemma_entry_prefix(self.catalog@, source_id@, key@, i + 1);
                }
                return Some(i);
            }
            i += 1;
        }
        assert(self.catalog@.take(self.catalog@.len() as int) =~= self.catalog@);
        None
    }

    /// Which source a cover belongs to: only covers that a listing showed are fetched.
    pub fn catalog_source_for_cover(&self, cover_url: &str) -> (r: Option<String>)
        ensures
            r == source_of_cover(self@.catalog, cover_url@),
    {
        let mut found: Option<String> = None;
        let mut i: usize = 0;
        assert(self.catalog@.take(0) =~= Seq::empty());
        while i < self.catalog.len()
            invariant
                i <= self.catalog@.len(),
                self@.catalog == self.catalog@,
                found == source_of_cover(self.catalog@.take(i as int), cover_url@),
            decreases self.catalog@.len() - i,
        {
            assert(self.catalog@.take(i + 1).drop_last() =~= self.catalog@.take(i as int));
            let e = &self.catalog[i];
            if found.is_none() {
                let hit = match &e.cover_url {
                    Some(c) => same(c.as_str(), cover_url),
                    None => false,
                };
                if hit {
                    found = Some(e.source_id.clone());
                }
            }
            i += 1;
        }
        assert(self.catalog@.take(self.catalog@.len() as int) =~= self.catalog@);
        found
    }
}

/// What was found in a prefix is found in the whole.
proof fn lemma_entry_prefix(s: Seq<CatalogEntry>, source_id: Seq<char>, key: Seq<char>, n: int)
    requires
        0 <= n <= s.len(),
        entry_of(s.take(n), source_id, key) is Some,
    ensures
        entry_of(s, source_id, key) == entry_of(s.take(n), source_id, key),
    decreases s.len(),
{
    if n < s.len() {
        assert(s.drop_last().take(n) =~= s.take(n));
        lemma_entry_prefix(s.drop_last(), source_id, key, n);
    } else {
        assert(s.take(n) =~= s);
    }
}

/// What was found in a prefix is found in the whole.
proof fn lemma_page_prefix(
    s: Seq<CatalogPageView>,
    source_id: Seq<char>,
    sort: Seq<char>,
    page: u32,
    n: int,
)
    requires
        0 <= n <= s.len(),
        page_of(s.take(n), source_id, sort, page) is Some,
    ensures
        page_of(s, source_id, sort, page) == page_of(s.take(n), source_id, sort, page),
    decreases s.len(),
{
    if n < s.len() {
        assert(s.drop_last().take(n) =~= s.take(n));
        lemma_page_prefix(s.drop_last(), source_id, sort, page, n);
    } else {
        assert(s.take(n) =~= s);
    }
}

/// Where no page is found, none is it.
proof fn lemma_no_page(s: Seq<CatalogPageView>, source_id: Seq<char>, sort: Seq<char>, page: u32)
    requires
        page_of(s, source_id, sort, page) is None,
    ensures
        forall|i: int| 0 <= i < s.len() ==> !is_page(#[trigger] s[i], source_id, sort, page),
    decreases s.len(),
{
    if s.len() > 0 {
        lemma_no_page(s.drop_last(), source_id, sort, page);
        assert forall|i: int| 0 <= i < s.len() implies !is_page(#[trigger] s[i], source_id, sort, page) by {
            if i < s.len() - 1 {
                assert(s.drop_last()[i] == s[i]);
            }
        }
    }
}

/// A page that was written is the page that is found.
pub proof fn law_written_page_is_found(pages: Seq<CatalogPageView>, p: CatalogPageView)
    ensures
        page_of(written(pages, p), p.source_id, p.sort, p.page) == Some(p),
    decreases pages.len(),
{
    let out = written(pages, p);
    if page_of(pages, p.source_id, p.sort, p.page) is Some {
        lemma_page_replaced(pages, p);
        assert(out =~= pages.map_values(
            |q: CatalogPageView|
                if is_page(q, p.source_id, p.sort, p.page) {
                    p
                } else {
                    q
                },
        ));
    } else {
        assert(out.drop_last() =~= pages);
    }
}

/// Replacing a page makes it the one that is found.
proof fn lemma_page_replaced(pages: Seq<CatalogPageView>, p: CatalogPageView)
    requires
        page_of(pages, p.source_id, p.sort, p.page) is Some,
    ensures
        page_of(
            pages.map_values(
                |q: CatalogPageView|
                    if is_page(q, p.source_id, p.sort, p.page) {
                        p
                    } else {
                        q
                    },
            ),
            p.source_id,
            p.sort,
            p.page,
        ) == Some(p),
    decreases pages.len(),
{
    let f = |q: CatalogPageView|
        if is_page(q, p.source_id, p.sort, p.page) {
            p
        } else {
            q
        };
    let out = pages.map_values(f);
    let d = pages.drop_last();
    assert(out.drop_last() =~= d.map_values(f));
    if page_of(d, p.source_id, p.sort, p.page) is Some {
        lemma_page_replaced(d, p);
    } else {
        lemma_no_page(d, p.source_id, p.sort, p.page);
        lemma_none_found(d.map_values(f), p);
    }
}

/// Where no page is it, none is found.
proof fn lemma_none_found(s: Seq<CatalogPageView>, p: CatalogPageView)
    requires
        forall|i: int| 0 <= i < s.len() ==> !is_page(#[trigger] s[i], p.source_id, p.sort, p.page),
    ensures
        page_of(s, p.source_id, p.sort, p.page) is None,
    decreases s.len(),
{
    if s.len() > 0 {
        assert forall|i: int| 0 <= i < s.drop_last().len() implies !is_page(
            #[trigger] s.drop_last()[i],
            p.source_id,
            p.sort,
            p.page,
        ) by {
            assert(s.drop_last()[i] == s[i]);
        }
        lemma_none_found(s.drop_last(), p);
        assert(!is_page(s[s.len() - 1], p.source_id, p.sort, p.page));
    }
}

/// The entry of a title after one summary was recorded: the summary's where it is
/// that title, else as before.
proof fn lemma_recorded_entry(
    catalog: Seq<CatalogEntry>,
    source_id: String,
    item: MangaSummary,
    now: Timestamp,
    key: Seq<char>,
)
    ensures
        key == item.key@ ==> (entry_of(recorded(catalog, source_id, item, now), source_id@, key) matches Some(
            e,
        ) && e.title == item.title && e.cover_url == item.cover_url),
        key != item.key@ ==> entry_of(recorded(catalog, source_id, item, now), source_id@, key)
            == entry_of(catalog, source_id@, key),
    decreases catalog.len(),
{
    let f = |e: CatalogEntry|
        if is_entry(e, source_id@, item.key@) {
            seen(e, item, now)
        } else {
            e
        };
    if has_entry(catalog, source_id@, item.key@) {
        lemma_mapped_entry(catalog, source_id, item, now, key);
        if key == item.key@ {
            lemma_has_entry(catalog, source_id@, key);
        }
    } else {
        let out = recorded(catalog, source_id, item, now);
        assert(out.drop_last() =~= catalog);
        if key == item.key@ && entry_of(catalog, source_id@, key) is Some {
            lemma_found_entry(catalog, source_id@, key);
        }
    }
}

/// An entry that is there is found.
proof fn lemma_has_entry(catalog: Seq<CatalogEntry>, source_id: Seq<char>, key: Seq<char>)
    requires
        has_entry(catalog, source_id, key),
    ensures
        entry_of(catalog, source_id, key) is Some,
    decreases catalog.len(),
{
    let i = choose|i: int| 0 <= i < catalog.len() && is_entry(#[trigger] catalog[i], source_id, key);
    let d = catalog.drop_last();
    if i < d.len() {
        assert(is_entry(d[i], source_id, key));
        lemma_has_entry(d, source_id, key);
    }
}

/// An entry that is found is there.
proof fn lemma_found_entry(catalog: Seq<CatalogEntry>, source_id: Seq<char>, key: Seq<char>)
    requires
        entry_of(catalog, source_id, key) is Some,
    ensures
        has_entry(catalog, source_id, key),
    decreases catalog.len(),
{
    let d = catalog.drop_last();
    if entry_of(d, source_id, key) is Some {
        lemma_found_entry(d, source_id, key);
        let i = choose|i: int| 0 <= i < d.len() && is_entry(#[trigger] d[i], source_id, key);
        assert(is_entry(catalog[i], source_id, key));
    } else {
        assert(is_entry(catalog[catalog.len() - 1], source_id, key));
    }
}

/// The entry of a title once another summary brought entries up to date.
proof fn lemma_mapped_entry(
    catalog: Seq<CatalogEntry>,
    source_id: String,
    item: MangaSummary,
    now: Timestamp,
    key: Seq<char>,
)
    ensures
        ({
            let out = catalog.map_values(
                |e: CatalogEntry|
                    if is_entry(e, source_id@, item.key@) {
                        seen(e, item, now)
                    } else {
                        e
                    },
            );
            entry_of(out, source_id@, key) == match entry_of(catalog, source_id@, key) {
                Some(e) => Some(
                    if key == item.key@ {
                        seen(e, item, now)
                    } else {
                        e
                    },
                ),
                None => None,
            }
        }),
    decreases catalog.len(),
{
    let f = |e: CatalogEntry|
        if is_entry(e, source_id@, item.key@) {
            seen(e, item, now)
        } else {
            e
        };
    if catalog.len() > 0 {
        let d = catalog.drop_last();
        lemma_mapped_entry(d, source_id, item, now, key);
        assert(catalog.map_values(f).drop_last() =~= d.map_values(f));
        if entry_of(d, source_id@, key) is Some {
            lemma_entry_is_it(d, source_id@, key);
        }
    }
}

/// The entry that is found is of the title.
proof fn lemma_entry_is_it(catalog: Seq<CatalogEntry>, source_id: Seq<char>, key: Seq<char>)
    requires
        entry_of(catalog, source_id, key) is Some,
    ensures
        is_entry(entry_of(catalog, source_id, key)->0, source_id, key),
    decreases catalog.len(),
{
    let d = catalog.drop_last();
    if entry_of(d, source_id, key) is Some {
        lemma_entry_is_it(d, source_id, key);
    }
}

/// No two titles share a key.
pub open spec fn keys_distinct(items: Seq<MangaSummary>) -> bool {
    forall|i: int, j: int|
        0 <= i < items.len() && 0 <= j < items.len() && (#[trigger] items[i]).key@ == (
        #[trigger] items[j]).key@ ==> i == j
}

/// Once recorded, each title's entry says what its summary said.
proof fn lemma_all_recorded(
    catalog: Seq<CatalogEntry>,
    source_id: String,
    items: Seq<MangaSummary>,
    now: Timestamp,
)
    requires
        keys_distinct(items),
    ensures
        forall|i: int|
            0 <= i < items.len() ==> (entry_of(
                all_recorded(catalog, source_id, items, now),
                source_id@,
                (#[trigger] items[i]).key@,
            ) matches Some(e) && e.title == items[i].title && e.cover_url == items[i].cover_url),
    decreases items.len(),
{
    if items.len() > 0 {
        let init = items.drop_last();
        assert(forall|i: int| 0 <= i < init.len() ==> init[i] == items[i]);
        lemma_all_recorded(catalog, source_id, init, now);
        let before = all_recorded(catalog, source_id, init, now);
        assert forall|i: int| 0 <= i < items.len() implies (entry_of(
            all_recorded(catalog, source_id, items, now),
            source_id@,
            (#[trigger] items[i]).key@,
        ) matches Some(e) && e.title == items[i].title && e.cover_url == items[i].cover_url) by {
            lemma_recorded_entry(before, source_id, items.last(), now, items[i].key@);
            if i < init.len() {
                assert(init[i] == items[i]);
                assert(items[i].key@ != items[items.len() - 1].key@);
            }
        }
    }
}

/// The keys of titles.
pub open spec fn keys_in(items: Seq<MangaSummary>) -> Seq<String> {
    items.map_values(|m: MangaSummary| m.key)
}

/// A listing page that was recorded and written reads back as it was: the same titles
/// with the same covers, in the same order.
pub proof fn law_listing_reads_back(
    catalog: Seq<CatalogEntry>,
    source_id: String,
    items: Seq<MangaSummary>,
    now: Timestamp,
)
    requires
        keys_distinct(items),
    ensures
        titles_of(
            all_recorded(catalog, source_id, items, now),
            source_id@,
            keys_in(items),
        ) == items.map_values(|m: MangaSummary| MangaSummary { in_library: None, ..m }),
{
    lemma_all_recorded(catalog, source_id, items, now);
    lemma_titles(all_recorded(catalog, source_id, items, now), source_id, items);
}

/// Titles whose entries say what their summaries said read back as those.
proof fn lemma_titles(catalog: Seq<CatalogEntry>, source_id: String, items: Seq<MangaSummary>)
    requires
        forall|i: int|
            0 <= i < items.len() ==> (entry_of(catalog, source_id@, (#[trigger] items[i]).key@) matches Some(
                e,
            ) && e.title == items[i].title && e.cover_url == items[i].cover_url),
    ensures
        titles_of(catalog, source_id@, keys_in(items)) == items.map_values(
            |m: MangaSummary| MangaSummary { in_library: None, ..m },
        ),
    decreases items.len(),
{
    let f = |m: MangaSummary| MangaSummary { in_library: None, ..m };
    if items.len() == 0 {
        assert(keys_in(items) =~= Seq::empty());
        assert(items.map_values(f) =~= Seq::empty());
    } else {
        let init = items.drop_last();
        assert(forall|i: int| 0 <= i < init.len() ==> init[i] == items[i]);
        lemma_titles(catalog, source_id, init);
        assert(keys_in(items).drop_last() =~= keys_in(init));
        let k = items.len() - 1;
        assert(entry_of(catalog, source_id@, items[k].key@) is Some);
        assert(items.map_values(f) =~= init.map_values(f).push(f(items.last())));
    }
}

}
