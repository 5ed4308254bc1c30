# yomu

A self-hosted library for manga and webtoons: it tracks what you read, downloads chapters to
the server, and keeps your place (chapter and page) across devices. The rules that this rests
on are a library in Verus: every function of it has a contract, and the contracts are proved.

## Layout

`src/` is the library.

| Module | What it holds |
| --- | --- |
| `domain` | Publications, units, the reading journal and its merge rule, backups, the API's envelopes |
| `db` | The tables and everything that is done to them: the shelf, syncs with a source's listing, downloads, read marks, the journal, accounts and sessions, the catalog, backups |
| `sync`, `sources`, `catalog` | Checks of a source, its listings, and the cache of them |
| `downloader`, `publishing`, `live_pages` | Page files, putting a download in place without losing a copy, and page lists of units that are read live |
| `streamer` | The books directory: keys, page order, series and covers |
| `auth`, `oidc`, `proxy_identity`, `media_token` | Who is asking, and who is let in |
| `api`, `client`, `static_cache`, `notifier`, `config` | What the server answers, what a client asks, cache headers, announcements, settings |
| `shell` | What a desktop or mobile shell keeps on a device, and how it signs in |
| `text`, `numerals`, `order`, `tables`, `clock`, `ids`, `digest`, `links` | Texts, numbers, sorting, rows, time, identifiers, digests and addresses |

`db::Db` holds the rows in memory. `db::opening` takes them from where they are kept and gives
them back; the rows' invariant is `DbView::wf`.

Public proof functions whose names begin with `law_` state what holds across functions.

Calls into other crates stand behind small functions marked `#[verifier::external_body]`. Each
says in its comment what is believed of the call.

`app/` is the server around the library: HTTP, SQLite, files, background work. `tests/` runs the
library from outside.
