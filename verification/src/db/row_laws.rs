//! What stored rows say.

use vstd::prelude::*;

use crate::db::rows::{
    kind_named, kind_text, law_kinds_read_back, origin_in, publication_fault, publication_read, state_in, unit_fault, PublicationRow,
    UnitRow,
};
use crate::domain::publication::{DownloadState, Origin, Publication};
use crate::ids::{hyphenated_text, uuid_parsed};
use crate::links::url_parsed;

verus! {

/// A row has the origin of a source where it has both the source and the key and no file, that of a
/// file where it has a file and neither of these, and else none.
pub proof fn law_rows_have_one_origin(row: PublicationRow)
    ensures
        origin_in(row) is Some <==> (row.source_id is Some && row.source_key is Some && row.file_path is None)
            || (row.source_id is None && row.source_key is None && row.file_path is Some),
        origin_in(row) matches Some(Origin::Source { source_id, source_key }) ==> row.source_id == Some(
            source_id,
        ) && row.source_key == Some(source_key),
        origin_in(row) matches Some(Origin::LocalFile { path }) ==> row.file_path == Some(path),
{
}

/// A row's word says the state of its download; the three states that have a time need one, and
/// the other words say nothing.
pub proof fn law_words_say_the_state(row: UnitRow)
    ensures
        row.download_state@ == "none"@ ==> state_in(row) matches Ok(DownloadState::Absent),
        row.download_state@ == "pending"@ ==> state_in(row) matches Ok(DownloadState::Pending),
        row.download_state@ == "downloading"@ ==> state_in(row) matches Ok(DownloadState::Downloading),
        row.download_state@ == "downloaded"@ ==> if row.downloaded_at is Some {
            state_in(row) == Ok::<DownloadState, Seq<char>>(
                DownloadState::Downloaded { at: row.downloaded_at->0 },
            )
        } else {
            state_in(row) is Err
        },
        row.download_state@ == "failed"@ ==> if row.downloaded_at is Some {
            state_in(row) matches Ok(DownloadState::Failed { at, .. }) && at == row.downloaded_at->0
        } else {
            state_in(row) is Err
        },
        row.download_state@ == "unavailable"@ ==> if row.downloaded_at is Some {
            state_in(row) matches Ok(DownloadState::Unavailable { at, .. }) && at == row.downloaded_at->0
        } else {
            state_in(row) is Err
        },
        row.download_state@ != "none"@ && row.download_state@ != "pending"@ && row.download_state@
            != "downloading"@ && row.download_state@ != "downloaded"@ && row.download_state@ != "failed"@
            && row.download_state@ != "unavailable"@ ==> state_in(row) is Err,
{
    reveal_strlit("none");
    reveal_strlit("pending");
    reveal_strlit("downloading");
    reveal_strlit("downloaded");
    reveal_strlit("failed");
    reveal_strlit("unavailable");
    assert("none"@.len() == 4 && "pending"@.len() == 7 && "downloading"@.len() == 11);
    assert("downloaded"@.len() == 10 && "failed"@.len() == 6 && "unavailable"@.len() == 11);
    assert("downloading"@[0] != "unavailable"@[0]);
}

/// A unit's row can be read exactly where its word says a state and both its identifiers are ones.
pub proof fn law_sound_unit_rows_are_read(row: UnitRow)
    ensures
        unit_fault(row) is None <==> state_in(row) is Ok && uuid_parsed(row.id@) is Some && uuid_parsed(
            row.publication_id@,
        ) is Some,
{
}

/// A publication that was stored can be read, and reads back as it was but for its genres: given that
/// identifiers are read from their own notation, and a cover's address from its own text.
pub proof fn law_stored_publications_read_back(p: Publication, row: PublicationRow, back: Publication)
    requires
        row.id@ == hyphenated_text(p.id),
        row.kind@ == kind_text(p.kind),
        origin_in(row) == Some(p.origin),
        row.title == p.title,
        row.description == p.description,
        row.cover_url == p.cover_url,
        row.auto_download == p.auto_download,
        row.category == p.category,
        row.added_at == p.added_at,
        row.last_checked_at == p.last_checked_at,
        row.missing_since == p.missing_since,
        uuid_parsed(hyphenated_text(p.id)) == Some(p.id),
        p.cover_url matches Some(c) ==> url_parsed(c@) is Some && url_parsed(c@)->0.text == c@,
    ensures
        publication_fault(row) is None,
        publication_read(back, row) ==> {
            &&& back.id == p.id && back.kind == p.kind && back.origin == p.origin
            &&& back.title == p.title && back.description == p.description
            &&& back.cover_url is Some <==> p.cover_url is Some
            &&& p.cover_url matches Some(c) ==> back.cover_url->0@ == c@
            &&& back.auto_download == p.auto_download && back.category == p.category
            &&& back.added_at == p.added_at && back.last_checked_at == p.last_checked_at
            &&& back.missing_since == p.missing_since
        },
{
    law_kinds_read_back(p.kind);
}

/// Three names are those of kinds, and no others.
pub proof fn law_three_names_are_kinds(text: Seq<char>)
    ensures
        kind_named(text) is Some <==> text == "comics"@ || text == "novels"@ || text == "pdf"@,
        kind_named(text) matches Some(k) ==> kind_text(k) == text,
{
}

}
