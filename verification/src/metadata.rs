//! Common metadata representation: the playlist and its entries.

use vstd::prelude::*;

use crate::error::{Error, ErrorKind};
use crate::text::str_eq;
use crate::uuid::Uuid;

verus! {

/// A playlist entry. Immutable once persisted: a record is created once per
/// source file and never overwritten.
#[derive(Debug, Clone)]
pub struct Entry {
    /// The name of the referenced file.
    pub file: String,
    /// The entry identity.
    pub uuid: Uuid,
    /// The size of the referenced file in bytes.
    pub size: u64,
    /// The MIME type of the entry.
    pub type_: String,
    /// The entry length in seconds.
    pub duration: u64,
    /// The entry creation time as a Unix timestamp.
    pub date: u64,
    /// The human-readable entry title.
    pub title: String,
    /// The item description.
    pub description: Option<String>,
}

/// A playlist. May be freely overwritten on rebuild.
#[derive(Debug, Clone)]
pub struct Playlist {
    /// The human-readable playlist title.
    pub title: String,
    /// The playlist description.
    pub description: Option<String>,
    /// The playlist author.
    pub author: Option<String>,
    /// The path to the image thumbnail.
    pub thumbnail: Option<String>,
    /// The URL to the show.
    pub url: Option<String>,
}

/// The MIME type recorded for a media file, by its extension: only the
/// accepted container extensions are known; anything else is rejected.
pub fn mime_for_extension(ext: &str) -> (r: Result<String, Error>)
    ensures
        r is Ok <==> (ext@ == "mp4"@ || ext@ == "m4v"@),
        r matches Ok(s) ==> s@ == "video/mp4"@,
        r matches Err(e) ==> e.kind == ErrorKind::Parse,
{
    if str_eq(ext, "mp4") || str_eq(ext, "m4v") {
        Ok("video/mp4".to_owned())
    } else {
        Err(Error::new(ErrorKind::Parse, "unknown file type".to_owned()))
    }
}

} // verus!
