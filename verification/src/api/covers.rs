//! Covers: kept on disk once they were fetched, and fetched only where the library or
//! the catalog knows them.

use vstd::prelude::*;

use crate::api::error::ApiError;
use crate::db::catalog::source_of_cover;
use crate::db::Db;
use crate::digest::{hex_encode, hex_text, sha256, sha256_of};
use crate::domain::publication::{Origin, Publication};
use crate::ids::{hyphenated_text, uuid_text, Uuid};
use crate::links::{read_url, url_parsed};
use crate::text::{join3, texts};
use vstd::utf8::encode_utf8;

verus! {

/// How a cover's answer is cached.
pub const COVER_CACHE: &'static str = "public, max-age=86400";

/// The extensions under which covers are kept, in the order in which they are looked for.
pub open spec fn cover_extensions() -> Seq<Seq<char>> {
    seq!["jpg"@, "png"@, "webp"@, "gif"@, "avif"@]
}

/// The names under which a cover may be kept.
pub open spec fn cover_files(stem: Seq<char>) -> Seq<Seq<char>> {
    cover_extensions().map_values(|ext: Seq<char>| stem + "."@ + ext)
}

/// Lists the names under which a cover may be kept.
pub fn cover_file_names(stem: &str) -> (r: Vec<String>)
    ensures
        texts(r@) == cover_files(stem@),
{
    let mut out: Vec<String> = Vec::new();
    out.push(join3(stem, ".", "jpg"));
    out.push(join3(stem, ".", "png"));
    out.push(join3(stem, ".", "webp"));
    out.push(join3(stem, ".", "gif"));
    out.push(join3(stem, ".", "avif"));
    assert(texts(out@) =~= cover_files(stem@));
    out
}

/// The name, without an extension, of a publication's cover.
pub fn publication_stem(id: Uuid) -> (r: String)
    ensures
        r@ == hyphenated_text(id),
{
    uuid_text(id)
}

/// The name, without an extension, of a catalog's cover: the hash of its address.
pub open spec fn catalog_stem_text(src: Seq<char>) -> Seq<char> {
    hex_text(sha256(encode_utf8(src)))
}

/// Gives the name, without an extension, of a catalog's cover.
pub fn catalog_stem(src: &str) -> (r: String)
    ensures
        r@ == catalog_stem_text(src@),
{
    let hash = sha256_of(src.as_bytes());
    hex_encode(&hash)
}

/// The source that a catalog's cover is fetched from. Only covers that the catalog knows
/// are fetched at all.
pub fn catalog_cover_source(db: &Db, src: &str) -> (r: Result<String, ApiError>)
    ensures
        match source_of_cover(db@.catalog, src@) {
            Some(s) => r == Ok::<String, ApiError>(s),
            None => r == Err::<String, ApiError>(ApiError::NotFound),
        },
{
    match db.catalog_source_for_cover(src) {
        Some(s) => Ok(s),
        None => Err(ApiError::NotFound),
    }
}

/// Whether a catalog's cover can be fetched: its source is configured, and its address
/// is one.
pub fn fetchable(src: &str, configured: bool) -> (r: Result<(), ApiError>)
    ensures
        if !configured {
            r matches Err(ApiError::Unprocessable(m)) && m@ == "source no longer configured"@
        } else if url_parsed(src@) is None {
            r matches Err(ApiError::Unprocessable(m)) && m@ == "invalid cover url"@
        } else {
            r is Ok
        },
{
    if !configured {
        return Err(ApiError::Unprocessable("source no longer configured".to_owned()));
    }
    match read_url(src) {
        Some(_) => Ok(()),
        None => Err(ApiError::Unprocessable("invalid cover url".to_owned())),
    }
}

/// Where a publication's cover is fetched from: the source and the address. Whether the
/// source is configured is asked by its name.
pub fn publication_cover(publication: &Publication, configured: bool) -> (r: Result<(String, String), ApiError>)
    ensures
        match (publication.cover_url, publication.origin) {
            (None, _) => r == Err::<(String, String), ApiError>(ApiError::NotFound),
            (Some(_), Origin::LocalFile { .. }) => r matches Err(ApiError::Unprocessable(m)) && m@
                == "publication is not source-backed"@,
            (Some(url), Origin::Source { source_id, .. }) => if configured {
                r matches Ok(x) && x.0 == source_id && x.1 == url
            } else {
                r matches Err(ApiError::Unprocessable(m)) && m@ == "source no longer configured"@
            },
        },
{
    match &publication.cover_url {
        None => Err(ApiError::NotFound),
        Some(url) => match &publication.origin {
            Origin::LocalFile { .. } => Err(
                ApiError::Unprocessable("publication is not source-backed".to_owned()),
            ),
            Origin::Source { source_id, .. } => {
                if configured {
                    Ok((source_id.clone(), url.clone()))
                } else {
                    Err(ApiError::Unprocessable("source no longer configured".to_owned()))
                }
            },
        },
    }
}

}
