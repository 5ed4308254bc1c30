//! What a downloaded unit is known by apart from its identifier: how many pages it has,
//! and the hashes of its first and its last. A device that holds the same bytes can find
//! its copies again by these when identifiers have changed.

use vstd::prelude::*;

use crate::api::error::ApiError;
use crate::db::listing::units_of;
use crate::db::{has_publication, Db};
use crate::digest::{hex_encode, hex_text, sha256, sha256_of};
use crate::domain::publication::{DownloadState, ReadingUnit};
use crate::ids::Uuid;
use crate::tables::retain;

verus! {

/// A downloaded unit's fingerprint.
#[derive(Debug, PartialEq, Eq)]
pub struct UnitFingerprint {
    pub unit_id: Uuid,
    pub page_count: u32,
    pub page0_sha256: String,
    pub page_last_sha256: String,
}

/// The fingerprints of a publication's downloaded units.
#[derive(Debug, PartialEq, Eq)]
pub struct FingerprintsResponse {
    pub fingerprints: Vec<UnitFingerprint>,
}

/// The hash of a page.
pub open spec fn page_hash_text(page: Seq<u8>) -> Seq<char> {
    hex_text(sha256(page))
}

/// Gives the hash of a page.
pub fn page_hash(page: &[u8]) -> (r: String)
    ensures
        r@ == page_hash_text(page@),
{
    let hash = sha256_of(page);
    hex_encode(&hash)
}

/// The units of a publication that have fingerprints: those that are downloaded, in
/// reading order. A publication that is not there is an error, not an empty list: a
/// device would take the latter for having nothing in common.
pub fn fingerprinted_units(db: &Db, id: Uuid) -> (r: Result<Vec<ReadingUnit>, ApiError>)
    requires
        db.wf(),
    ensures
        if has_publication(db@.publications, id) {
            r matches Ok(units) && units@ == units_of(db@.units, id).filter(
                |u: ReadingUnit| u.download is Downloaded,
            )
        } else {
            r == Err::<Vec<ReadingUnit>, ApiError>(ApiError::NotFound)
        },
{
    match db.get_publication(id) {
        Ok(_) => {},
        Err(e) => {
            return Err(ApiError::from_db(e));
        },
    }
    let mut units = db.list_units(id);
    let saved = |u: &ReadingUnit| -> (b: bool)
        ensures b == (u.download is Downloaded)
    {
        match u.download {
            DownloadState::Downloaded { .. } => true,
            _ => false,
        }
    };
    retain(&mut units, saved, Ghost(|u: ReadingUnit| u.download is Downloaded));
    Ok(units)
}

/// What was read of a unit's directory: how many page files there are, and the first and
/// the last of them.
#[derive(Debug, PartialEq, Eq)]
pub struct PageEnds {
    pub unit_id: Uuid,
    pub page_count: u32,
    pub first: Vec<u8>,
    pub last: Vec<u8>,
}

/// A unit's fingerprint, by what was read of its directory.
pub open spec fn fingerprint_is(f: UnitFingerprint, ends: PageEnds) -> bool {
    &&& f.unit_id == ends.unit_id
    &&& f.page_count == ends.page_count
    &&& f.page0_sha256@ == page_hash_text(ends.first@)
    &&& f.page_last_sha256@ == page_hash_text(ends.last@)
}

/// The directories that could be read.
pub open spec fn readable(ends: Seq<Option<PageEnds>>) -> Seq<PageEnds>
    decreases ends.len(),
{
    if ends.len() == 0 {
        Seq::empty()
    } else {
        let before = readable(ends.drop_last());
        match ends.last() {
            Some(e) => before.push(e),
            None => before,
        }
    }
}

/// Lists the fingerprints of units, by what was read of their directories. A unit whose
/// directory could not be read has none.
pub fn list(ends: &Vec<Option<PageEnds>>) -> (r: FingerprintsResponse)
    ensures
        r.fingerprints@.len() == readable(ends@).len(),
        forall|i: int|
            0 <= i < r.fingerprints@.len() ==> fingerprint_is(
                #[trigger] r.fingerprints@[i],
                readable(ends@)[i],
            ),
{
    let mut out: Vec<UnitFingerprint> = Vec::new();
    let mut i: usize = 0;
    assert(ends@.take(0) =~= Seq::empty());
    while i < ends.len()
        invariant
            i <= ends@.len(),
            out@.len() == readable(ends@.take(i as int)).len(),
            forall|j: int|
                0 <= j < out@.len() ==> fingerprint_is(
                    #[trigger] out@[j],
                    readable(ends@.take(i as int))[j],
                ),
        decreases ends@.len() - i,
    {
        assert(ends@.take(i + 1).drop_last() =~= ends@.take(i as int));
        match &ends[i] {
            Some(e) => {
                out.push(
                    UnitFingerprint {
                        unit_id: e.unit_id,
                        page_count: e.page_count,
                        page0_sha256: page_hash(e.first.as_slice()),
                        page_last_sha256: page_hash(e.last.as_slice()),
                    },
                );
            },
            None => {},
        }
        i += 1;
    }
    assert(ends@.take(ends@.len() as int) =~= ends@);
    FingerprintsResponse { fingerprints: out }
}

}
