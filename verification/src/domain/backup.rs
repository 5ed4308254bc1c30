//! A portable copy of the shelf and of one reader's state. It carries the units
//! themselves, so restoring needs no source; pages are not in it.

use vstd::prelude::*;

use crate::clock::Timestamp;
use crate::domain::progress::ProgressEvent;
use crate::domain::publication::{Category, Publication, ReadingUnit};
use crate::ids::Uuid;

verus! {

/// The version of the backups that are written and read.
pub const BACKUP_VERSION: u32 = 1;

/// A backup.
#[derive(Debug, PartialEq, Eq)]
pub struct Backup {
    pub version: u32,
    pub exported_at: Timestamp,
    pub categories: Vec<Category>,
    pub publications: Vec<Publication>,
    pub units: Vec<ReadingUnit>,
    pub read_unit_ids: Vec<Uuid>,
    pub progress: Vec<ProgressEvent>,
}

/// How much a restore added.
#[derive(Clone, Copy, Debug, PartialEq, Eq, Structural)]
pub struct RestoreSummary {
    pub publications: u32,
    pub units: u32,
    pub categories: u32,
    pub read_marks: u32,
    pub progress_events: u32,
}

}
