//! Backups in the API.

use vstd::prelude::*;

use crate::api::error::{store_refusal, ApiError};
use crate::clock::Timestamp;
use crate::db::backup::{backup_of, restore_outcome};
use crate::db::{Db, DbError};
use crate::domain::backup::{Backup, RestoreSummary, BACKUP_VERSION};
use crate::ids::Uuid;
use crate::numerals::{decimal, decimal_text};
use crate::text::join3;

verus! {

/// The most bytes that an uploaded backup may have.
pub const RESTORE_BODY_LIMIT: usize = 268_435_456;

/// Takes a backup of the library and of a reader's state, as of a time.
pub fn export(db: &Db, user_id: Uuid, now: Timestamp) -> (r: Backup)
    ensures
        r.version == BACKUP_VERSION,
        r.exported_at == now,
        r@ == backup_of(db@, user_id),
{
    db.export_backup(user_id, now)
}

/// What a backup of another version is answered.
pub open spec fn version_refusal(version: u32) -> Seq<char> {
    "unsupported backup version "@ + decimal(version as nat) + " (this server reads "@ + decimal(
        BACKUP_VERSION as nat,
    ) + ")"@
}

/// Merges a backup into the library. One of another version changes nothing.
pub fn restore(db: &mut Db, user_id: Uuid, backup: &Backup, now: Timestamp) -> (r: Result<
    RestoreSummary,
    ApiError,
>)
    requires
        old(db).wf(),
        old(db)@.next_seq + backup.progress@.len() <= i64::MAX,
    ensures
        final(db).wf(),
        if backup.version != BACKUP_VERSION {
            &&& final(db)@ == old(db)@
            &&& r matches Err(ApiError::Unprocessable(m)) && m@ == version_refusal(backup.version)
        } else {
            exists|restored: Result<RestoreSummary, DbError>|
                {
                    &&& #[trigger] restore_outcome(
                        old(db)@,
                        user_id,
                        backup@,
                        now,
                        final(db)@,
                        restored,
                    )
                    &&& match restored {
                        Ok(s) => r == Ok::<RestoreSummary, ApiError>(s),
                        Err(e) => r matches Err(a) && store_refusal(e, a),
                    }
                }
        },
{
    if backup.version != BACKUP_VERSION {
        let front = join3(
            "unsupported backup version ",
            decimal_text(backup.version as u64).as_str(),
            " (this server reads ",
        );
        return Err(
            ApiError::Unprocessable(
                join3(front.as_str(), decimal_text(BACKUP_VERSION as u64).as_str(), ")"),
            ),
        );
    }
    let restored = db.import_backup_at(user_id, backup, now);
    let ghost answer = restored;
    assert(restore_outcome(old(db)@, user_id, backup@, now, db@, answer));
    match restored {
        Ok(s) => Ok(s),
        Err(e) => Err(ApiError::from_db(e)),
    }
}

}
