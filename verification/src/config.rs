//! The server's configuration, and what stands where nothing is configured.

use vstd::prelude::*;


verus! {

/// All of the configuration. Addresses and paths are held as texts.
#[derive(Debug, PartialEq, Eq)]
pub struct Config {
    pub listen: String,
    /// The built frontend, where it is served.
    pub static_dir: Option<String>,
    pub db_path: String,
    /// Where downloaded units lie: by publication, then by unit.
    pub data_dir: String,
    /// Where the definitions of sources lie.
    pub sources_dir: String,
    pub updater: UpdaterConfig,
    pub books: BooksConfig,
    pub auth: AuthConfig,
    pub notify: Option<NotifyConfig>,
    pub catalog: CatalogConfig,
    pub operations: OperationsConfig,
}

/// The periodic check for new units.
#[derive(Clone, Copy, Debug, PartialEq, Eq, Structural)]
pub struct UpdaterConfig {
    pub enabled: bool,
    /// Seconds between two checks; at least a minute.
    pub interval_secs: u64,
}

/// The directory of the readers' own files.
#[derive(Debug, PartialEq, Eq)]
pub struct BooksConfig {
    pub enabled: bool,
    pub dir: String,
    /// Seconds between two scans; at least a minute.
    pub scan_interval_secs: u64,
}

/// The cache of sources' listings.
#[derive(Clone, Copy, Debug, PartialEq, Eq, Structural)]
pub struct CatalogConfig {
    /// Seconds after which a page is refreshed; zero turns the cache off.
    pub ttl_secs: u64,
}

/// Where new units are announced.
#[derive(Debug, PartialEq, Eq)]
pub struct NotifyConfig {
    pub url: String,
    pub token: Option<String>,
}

/// Sign-in. Without an issuer there is one account for everyone.
#[derive(Debug, PartialEq, Eq)]
pub struct AuthConfig {
    pub issuer: Option<String>,
    pub client_id: String,
    pub client_secret: String,
    /// The address under which the server is reached.
    pub public_url: Option<String>,
    /// Days that a session lasts; zero for the default.
    pub session_days: u32,
    /// Origins that may call with credentials.
    pub allowed_origins: Vec<String>,
}

/// Housekeeping, and when the server counts as ready.
#[derive(Clone, Copy, Debug, PartialEq, Eq, Structural)]
pub struct OperationsConfig {
    /// Free bytes below which the server is not ready; zero for no limit.
    pub minimum_free_bytes: u64,
    /// Seconds between two rounds of housekeeping; zero for none.
    pub maintenance_interval_secs: u64,
}

impl Default for UpdaterConfig {
    fn default() -> (r: Self)
        ensures
            r == (UpdaterConfig { enabled: true, interval_secs: 21_600 }),
    {
        UpdaterConfig { enabled: true, interval_secs: 21_600 }
    }
}

impl Default for BooksConfig {
    fn default() -> (r: Self)
        ensures
            r.enabled,
            r.dir@ == "local"@,
            r.scan_interval_secs == 3_600,
    {
        BooksConfig { enabled: true, dir: "local".to_owned(), scan_interval_secs: 3_600 }
    }
}

impl Default for CatalogConfig {
    fn default() -> (r: Self)
        ensures
            r == (CatalogConfig { ttl_secs: 21_600 }),
    {
        CatalogConfig { ttl_secs: 21_600 }
    }
}

impl Default for AuthConfig {
    fn default() -> (r: Self)
        ensures
            r.issuer is None,
            r.client_id@.len() == 0,
            r.client_secret@.len() == 0,
            r.public_url is None,
            r.session_days == 0,
            r.allowed_origins@.len() == 0,
    {
        AuthConfig {
            issuer: None,
            client_id: String::new(),
            client_secret: String::new(),
            public_url: None,
            session_days: 0,
            allowed_origins: Vec::new(),
        }
    }
}

impl Default for OperationsConfig {
    fn default() -> (r: Self)
        ensures
            r == (OperationsConfig { minimum_free_bytes: 0, maintenance_interval_secs: 3_600 }),
    {
        OperationsConfig { minimum_free_bytes: 0, maintenance_interval_secs: 3_600 }
    }
}

impl Default for Config {
    fn default() -> (r: Self)
        ensures
            r.listen@ == "0.0.0.0:4700"@,
            r.static_dir is None,
            r.db_path@ == "yomu.db"@,
            r.data_dir@ == "data"@,
            r.sources_dir@ == "sources.d"@,
            r.updater == (UpdaterConfig { enabled: true, interval_secs: 21_600 }),
            books_of(None, r.books),
            r.auth.issuer is None,
            r.auth.client_id@.len() == 0,
            r.auth.client_secret@.len() == 0,
            r.auth.public_url is None,
            r.auth.session_days == 0,
            r.auth.allowed_origins@.len() == 0,
            r.notify is None,
            r.catalog == (CatalogConfig { ttl_secs: 21_600 }),
            r.operations == (OperationsConfig {
                minimum_free_bytes: 0,
                maintenance_interval_secs: 3_600,
            }),
    {
        Config {
            listen: "0.0.0.0:4700".to_owned(),
            static_dir: None,
            db_path: "yomu.db".to_owned(),
            data_dir: "data".to_owned(),
            sources_dir: "sources.d".to_owned(),
            updater: UpdaterConfig::default(),
            books: BooksConfig::default(),
            auth: AuthConfig::default(),
            notify: None,
            catalog: CatalogConfig::default(),
            operations: OperationsConfig::default(),
        }
    }
}

impl AuthConfig {
    /// Whether readers sign in.
    pub fn oidc_enabled(&self) -> (r: bool)
        ensures
            r == self.issuer is Some,
    {
        self.issuer.is_some()
    }
}

/// A section of the configuration file about the books directory, as far as it says
/// anything.
#[derive(Debug, PartialEq, Eq)]
pub struct BooksSection {
    pub enabled: Option<bool>,
    pub dir: Option<String>,
    pub scan_interval_secs: Option<u64>,
}

/// What a section makes of the books' configuration: defaults where it says nothing.
pub open spec fn books_of(section: Option<BooksSection>, r: BooksConfig) -> bool {
    match section {
        None => r.enabled && r.dir@ == "local"@ && r.scan_interval_secs == 3_600,
        Some(s) => {
            &&& r.enabled == (match s.enabled {
                Some(e) => e,
                None => true,
            })
            &&& r.dir@ == (match s.dir {
                Some(d) => d@,
                None => "local"@,
            })
            &&& r.scan_interval_secs == (match s.scan_interval_secs {
                Some(n) => n,
                None => 3_600,
            })
        },
    }
}

/// The books' configuration, by the section `books` or by its former name `local`. Where
/// both are there the former name counts for nothing.
pub fn books_config(books: Option<BooksSection>, local: Option<BooksSection>) -> (r: BooksConfig)
    ensures
        books_of(
            if books is Some {
                books
            } else {
                local
            },
            r,
        ),
{
    let section = match books {
        Some(s) => Some(s),
        None => local,
    };
    let mut r = BooksConfig::default();
    match section {
        None => {},
        Some(s) => {
            match s.enabled {
                Some(e) => {
                    r.enabled = e;
                },
                None => {},
            }
            match s.dir {
                Some(d) => {
                    r.dir = d;
                },
                None => {},
            }
            match s.scan_interval_secs {
                Some(n) => {
                    r.scan_interval_secs = n;
                },
                None => {},
            }
        },
    }
    r
}

/// The shortest time between two rounds of anything, in seconds: with less, a source
/// would be asked without end.
pub const SHORTEST_INTERVAL: u64 = 60;

/// Seconds between two rounds, at least the shortest.
pub open spec fn clamped(seconds: u64) -> u64 {
    if seconds < SHORTEST_INTERVAL {
        SHORTEST_INTERVAL
    } else {
        seconds
    }
}

/// Gives the seconds between two rounds.
pub fn round_interval(seconds: u64) -> (r: u64)
    ensures
        r == clamped(seconds),
        r >= SHORTEST_INTERVAL,
{
    if seconds < SHORTEST_INTERVAL {
        SHORTEST_INTERVAL
    } else {
        seconds
    }
}

impl UpdaterConfig {
    /// Seconds between two checks, where there are any.
    pub fn period(&self) -> (r: Option<u64>)
        ensures
            r == (if self.enabled {
                Some(clamped(self.interval_secs))
            } else {
                None
            }),
    {
        if self.enabled {
            Some(round_interval(self.interval_secs))
        } else {
            None
        }
    }
}

impl BooksConfig {
    /// Seconds between two scans, where there are any.
    pub fn period(&self) -> (r: Option<u64>)
        ensures
            r == (if self.enabled {
                Some(clamped(self.scan_interval_secs))
            } else {
                None
            }),
    {
        if self.enabled {
            Some(round_interval(self.scan_interval_secs))
        } else {
            None
        }
    }
}

impl OperationsConfig {
    /// Seconds between two rounds of housekeeping, where there are any.
    pub fn period(&self) -> (r: Option<u64>)
        ensures
            r == (if self.maintenance_interval_secs == 0 {
                None
            } else {
                Some(clamped(self.maintenance_interval_secs))
            }),
    {
        if self.maintenance_interval_secs == 0 {
            None
        } else {
            Some(round_interval(self.maintenance_interval_secs))
        }
    }
}

}
