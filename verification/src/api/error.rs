//! Errors of the API, and the statuses they are answered with.

use vstd::prelude::*;

use crate::db::DbError;
use crate::domain::api::ApiErrorBody;
use crate::sync::SyncError;
use crate::text::{debug_text, join3, quoted};

verus! {

/// Why a request was refused.
#[derive(Debug, PartialEq, Eq)]
pub enum ApiError {
    NotFound,
    /// Nobody is signed in where somebody has to be.
    Unauthorized,
    Unprocessable(String),
    /// The source failed, or changed.
    UpstreamFailed(String),
    Internal(String),
}

/// What the store's refusals are answered. What is inside stays inside.
pub open spec fn store_refusal(e: DbError, r: ApiError) -> bool {
    match e {
        DbError::NotFound => r == ApiError::NotFound,
        DbError::Constraint(m) => r == ApiError::Unprocessable(m),
        DbError::Corrupt(_) | DbError::Sqlx(_) => r matches ApiError::Internal(m) && m@
            == "internal error"@,
    }
}

impl ApiError {
    /// What the store's refusals are answered.
    pub fn from_db(e: DbError) -> (r: ApiError)
        ensures
            store_refusal(e, r),
    {
        match e {
            DbError::NotFound => ApiError::NotFound,
            DbError::Constraint(m) => ApiError::Unprocessable(m),
            DbError::Corrupt(_) => ApiError::Internal("internal error".to_owned()),
            DbError::Sqlx(_) => ApiError::Internal("internal error".to_owned()),
        }
    }

    /// What a failure of a source is answered, by what it says.
    pub fn from_source(shown: String) -> (r: ApiError)
        ensures
            r == ApiError::UpstreamFailed(shown),
    {
        ApiError::UpstreamFailed(shown)
    }

    /// What a failed check is answered. What a source's failure says comes with it.
    pub fn from_sync(e: SyncError, shown: String) -> (r: ApiError)
        ensures
            match e {
                SyncError::UnknownSource(id) => r matches ApiError::Unprocessable(m) && m@ == "source "@
                    + debug_text(id@) + " is not configured"@,
                SyncError::Source(_) => r == ApiError::UpstreamFailed(shown),
                SyncError::Db(d) => store_refusal(d, r),
            },
    {
        match e {
            SyncError::UnknownSource(id) => ApiError::unknown_source(id.as_str()),
            SyncError::Source(_) => ApiError::from_source(shown),
            SyncError::Db(d) => ApiError::from_db(d),
        }
    }

    /// A source that is not configured.
    pub fn unknown_source(id: &str) -> (r: ApiError)
        ensures
            r matches ApiError::Unprocessable(m) && m@ == "source "@ + debug_text(id@)
                + " is not configured"@,
    {
        ApiError::Unprocessable(join3("source ", quoted(id).as_str(), " is not configured"))
    }

    /// The status of the answer.
    pub open spec fn status_code(self) -> u16 {
        match self {
            ApiError::NotFound => 404,
            ApiError::Unauthorized => 401,
            ApiError::Unprocessable(_) => 422,
            ApiError::UpstreamFailed(_) => 502,
            ApiError::Internal(_) => 500,
        }
    }

    /// What the answer says.
    pub open spec fn message_text(self) -> Seq<char> {
        match self {
            ApiError::NotFound => "not found"@,
            ApiError::Unauthorized => "unauthorized"@,
            ApiError::Unprocessable(m) => m@,
            ApiError::UpstreamFailed(m) => m@,
            ApiError::Internal(m) => m@,
        }
    }

    /// The answer: its status and its body.
    pub fn into_response(self) -> (r: (u16, ApiErrorBody))
        ensures
            r.0 == self.status_code(),
            r.1.message@ == self.message_text(),
    {
        match self {
            ApiError::NotFound => (404, ApiErrorBody { message: "not found".to_owned() }),
            ApiError::Unauthorized => (401, ApiErrorBody { message: "unauthorized".to_owned() }),
            ApiError::Unprocessable(message) => (422, ApiErrorBody { message }),
            ApiError::UpstreamFailed(message) => (502, ApiErrorBody { message }),
            ApiError::Internal(message) => (500, ApiErrorBody { message }),
        }
    }
}

/// What is inside the store never reaches an answer: of a row that cannot be read, or a
/// refusal of the tables, it says no more than that something is wrong.
pub proof fn law_internals_stay_inside(e: DbError, r: ApiError)
    requires
        e is Corrupt || e is Sqlx,
        store_refusal(e, r),
    ensures
        r.status_code() == 500,
        r.message_text() == "internal error"@,
{
}

}
