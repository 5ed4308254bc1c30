//! Whether the server is ready, and its numbers.

use vstd::prelude::*;

use crate::numerals::{decimal, decimal_text};
use crate::text::{join2, join3};

verus! {

/// How one dependency fares.
#[derive(Debug, PartialEq, Eq)]
pub struct ReadinessCheck {
    pub ok: bool,
    pub error: Option<String>,
}

/// Whether the server is ready, and why not.
#[derive(Debug, PartialEq, Eq)]
pub struct ReadinessResponse {
    pub status: String,
    pub database: ReadinessCheck,
    pub data_dir: ReadinessCheck,
    pub books_dir: ReadinessCheck,
    pub free_bytes: Option<u64>,
    pub minimum_free_bytes: u64,
}

/// A dependency that is there.
pub fn ok() -> (r: ReadinessCheck)
    ensures
        r == (ReadinessCheck { ok: true, error: None }),
{
    ReadinessCheck { ok: true, error: None }
}

/// A dependency that failed, and how.
pub fn failed(error: String) -> (r: ReadinessCheck)
    ensures
        r == (ReadinessCheck { ok: false, error: Some(error) }),
{
    ReadinessCheck { ok: false, error: Some(error) }
}

/// There is enough room on disk, as far as can be told. Without a limit it is enough
/// that it can be told.
pub open spec fn room_enough(free_bytes: Option<u64>, floor: u64) -> bool {
    match free_bytes {
        Some(bytes) => floor == 0 || bytes >= floor,
        None => false,
    }
}

/// Decides whether the server is ready: every dependency is, and there is room on disk.
/// Books that are turned off are no dependency.
pub fn readiness(
    database: ReadinessCheck,
    data_dir: ReadinessCheck,
    books_dir: Option<ReadinessCheck>,
    free_bytes: Option<u64>,
    floor: u64,
) -> (r: (u16, ReadinessResponse))
    ensures
        ({
            let books_fine = match books_dir {
                Some(b) => b.ok,
                None => true,
            };
            let ready = database.ok && data_dir.ok && books_fine && room_enough(free_bytes, floor);
            &&& r.0 == (if ready {
                200u16
            } else {
                503u16
            })
            &&& r.1.status@ == (if ready {
                "ready"@
            } else {
                "not_ready"@
            })
        }),
        r.1.database == database,
        r.1.data_dir == data_dir,
        r.1.books_dir == (match books_dir {
            Some(b) => b,
            None => ReadinessCheck { ok: true, error: None },
        }),
        r.1.free_bytes == free_bytes,
        r.1.minimum_free_bytes == floor,
        r.0 == 200 <==> database.ok && data_dir.ok && (books_dir is None || books_dir->0.ok) && free_bytes is Some
            && free_bytes->0 >= floor,
{
    let books = match books_dir {
        Some(b) => b,
        None => ok(),
    };
    let room = match free_bytes {
        Some(bytes) => floor == 0 || bytes >= floor,
        None => false,
    };
    let ready = database.ok && data_dir.ok && books.ok && room;
    let (code, status) = if ready {
        (200, "ready")
    } else {
        (503, "not_ready")
    };
    (
        code,
        ReadinessResponse {
            status: status.to_owned(),
            database,
            data_dir,
            books_dir: books,
            free_bytes,
            minimum_free_bytes: floor,
        },
    )
}

/// The server's numbers. The uptime comes as it is shown.
#[derive(Debug, PartialEq, Eq)]
pub struct Numbers {
    pub uptime: String,
    pub requests: u64,
    pub pool_connections: u64,
    pub pool_idle: u64,
    pub free_bytes: u64,
    pub sessions_cleaned: u64,
}

/// One number: its kind, its name and its value, each line ended.
pub open spec fn metric_text(name: Seq<char>, kind: Seq<char>, value: Seq<char>) -> Seq<char> {
    "# TYPE "@ + name + " "@ + kind + "\n"@ + name + " "@ + value + "\n"@
}

/// The server's numbers in the text format of Prometheus.
pub open spec fn metrics_text(n: Numbers) -> Seq<char> {
    metric_text("yomu_uptime_seconds"@, "gauge"@, n.uptime@) + metric_text(
        "yomu_http_requests_total"@,
        "counter"@,
        decimal(n.requests as nat),
    ) + metric_text("yomu_db_pool_connections"@, "gauge"@, decimal(n.pool_connections as nat))
        + metric_text("yomu_db_pool_idle"@, "gauge"@, decimal(n.pool_idle as nat)) + metric_text(
        "yomu_data_free_bytes"@,
        "gauge"@,
        decimal(n.free_bytes as nat),
    ) + metric_text(
        "yomu_expired_sessions_cleaned_total"@,
        "counter"@,
        decimal(n.sessions_cleaned as nat),
    )
}

/// Writes one number.
fn metric(name: &str, kind: &str, value: &str) -> (r: String)
    ensures
        r@ == metric_text(name@, kind@, value@),
{
    let head = join3("# TYPE ", name, " ");
    let head = join3(head.as_str(), kind, "\n");
    let line = join3(head.as_str(), name, " ");
    join3(line.as_str(), value, "\n")
}

/// Writes the server's numbers in the text format of Prometheus.
pub fn metrics(n: &Numbers) -> (r: String)
    ensures
        r@ == metrics_text(*n),
{
    let out = metric("yomu_uptime_seconds", "gauge", n.uptime.as_str());
    let out = join2(
        out.as_str(),
        metric("yomu_http_requests_total", "counter", decimal_text(n.requests).as_str()).as_str(),
    );
    let out = join2(
        out.as_str(),
        metric("yomu_db_pool_connections", "gauge", decimal_text(n.pool_connections).as_str()).as_str(),
    );
    let out = join2(
        out.as_str(),
        metric("yomu_db_pool_idle", "gauge", decimal_text(n.pool_idle).as_str()).as_str(),
    );
    let out = join2(
        out.as_str(),
        metric("yomu_data_free_bytes", "gauge", decimal_text(n.free_bytes).as_str()).as_str(),
    );
    join2(
        out.as_str(),
        metric(
            "yomu_expired_sessions_cleaned_total",
            "counter",
            decimal_text(n.sessions_cleaned).as_str(),
        ).as_str(),
    )
}

}
