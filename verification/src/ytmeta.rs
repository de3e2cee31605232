//! Canonicalizing downloader metadata: the schemas of per-item info records
//! and their translation into the common metadata representation.

use vstd::prelude::*;

use crate::error::{Error, ErrorKind};
use crate::metadata::{Entry, Playlist};
use crate::text::{
    lemma_digits_val_bound,
    lemma_pow10_increases,
    spec_all_digits,
    spec_digit_val,
    spec_digits_val,
    spec_pow10,
};
use crate::uuid::Uuid;

verus! {

/// A playlist thumbnail variant.
#[derive(Debug, Clone)]
pub struct Thumbnail {
    /// The thumbnail URL.
    pub url: String,
    /// The thumbnail height.
    pub height: u64,
    /// The thumbnail width.
    pub width: u64,
}

/// Playlist-level metadata as the downloader reports it.
#[derive(Debug, Clone)]
pub struct PlaylistMeta {
    /// The human-readable playlist title.
    pub title: String,
    /// The playlist description.
    pub description: String,
    /// The playlist uploader.
    pub uploader: String,
    /// The playlist thumbnails.
    pub thumbnails: Vec<Thumbnail>,
    /// The webpage URL.
    pub webpage_url: String,
}

/// Per-entry metadata as the downloader reports it.
#[derive(Debug, Clone)]
pub struct EntryMeta {
    /// The source video ID.
    pub id: String,
    /// The extension of the video file.
    pub ext: String,
    /// The human-readable video title.
    pub title: String,
    /// The video description.
    pub description: String,
    /// The video duration in seconds.
    pub duration: u64,
    /// The upload date in `YYYYMMDD` form.
    pub upload_date: String,
    /// The 1-based index within the playlist.
    pub playlist_index: u64,
}

/// One metadata record: playlist-level or entry-level.
#[derive(Debug, Clone)]
pub enum Meta {
    /// Playlist-associated metadata.
    Playlist(PlaylistMeta),
    /// Entry-associated metadata.
    Entry(EntryMeta),
}

/// Translates playlist metadata into the canonical playlist record: the
/// description, uploader and page URL always carry over; the thumbnail path
/// is the caller's, present exactly where the thumbnail file exists beside
/// the record.
pub fn translate_playlist_meta(meta: PlaylistMeta, thumbnail: Option<String>) -> (p: Playlist)
    ensures
        p.title == meta.title,
        p.description == Some(meta.description),
        p.author == Some(meta.uploader),
        p.thumbnail == thumbnail,
        p.url == Some(meta.webpage_url),
{
    Playlist {
        title: meta.title,
        description: Some(meta.description),
        author: Some(meta.uploader),
        thumbnail,
        url: Some(meta.webpage_url),
    }
}

/// Parses the digits of `s` between the character indices `from` and `to`
/// into their number; fails exactly when some character there is not a digit.
fn parse_digits(s: &str, from: usize, to: usize) -> (r: Option<u64>)
    requires
        from <= to <= s@.len(),
        to - from <= 8,
    ensures
        r is Some <==> (forall|i: int| from <= i < to ==> spec_digit_val(#[trigger] s@[i]) >= 0),
        r matches Some(v) ==> v == spec_digits_val(s@.subrange(from as int, to as int)),
        r matches Some(v) ==> v < spec_pow10((to - from) as nat),
{
    let mut acc: u64 = 0;
    let mut i: usize = from;
    proof {
        assert(s@.subrange(from as int, from as int) =~= Seq::<char>::empty());
        reveal_with_fuel(spec_pow10, 10);
    }
    while i < to
        invariant
            from <= i <= to <= s@.len(),
            to - from <= 8,
            forall|k: int| from <= k < i ==> spec_digit_val(#[trigger] s@[k]) >= 0,
            acc == spec_digits_val(s@.subrange(from as int, i as int)),
        decreases to - i,
    {
        let c = s.get_char(i);
        let u = c as u32;
        if u < 48 || u > 57 {
            return None;
        }
        let d = (u - 48) as u64;
        proof {
            lemma_digits_val_bound(s@.subrange(from as int, i as int));
            reveal_with_fuel(spec_pow10, 10);
            assert(spec_pow10((i - from) as nat) <= spec_pow10(7)) by {
                if i - from < 7 {
                    lemma_pow10_increases((i - from) as nat, 7);
                }
            }
            assert(s@.subrange(from as int, i + 1 as int).drop_last() =~= s@.subrange(
                from as int,
                i as int,
            ));
            assert(s@.subrange(from as int, i + 1 as int).last() == s@[i as int]);
        }
        acc = acc * 10 + d;
        i = i + 1;
    }
    proof {
        lemma_digits_val_bound(s@.subrange(from as int, to as int));
    }
    Some(acc)
}

/// Whether `y` is a leap year (proleptic Gregorian rules).
pub open spec fn spec_is_leap(y: int) -> bool {
    (y % 4 == 0 && y % 100 != 0) || y % 400 == 0
}

/// Whether `y` is a leap year.
fn is_leap(y: u64) -> (r: bool)
    ensures
        r == spec_is_leap(y as int),
{
    (y % 4 == 0 && y % 100 != 0) || y % 400 == 0
}

/// The number of days in month `m` of year `y`.
pub open spec fn spec_days_in_month(y: int, m: int) -> int {
    if m == 2 {
        if spec_is_leap(y) {
            29
        } else {
            28
        }
    } else if m == 4 || m == 6 || m == 9 || m == 11 {
        30
    } else {
        31
    }
}

/// The number of days in month `m` of year `y`.
fn days_in_month(y: u64, m: u64) -> (r: u64)
    ensures
        r == spec_days_in_month(y as int, m as int),
{
    if m == 2 {
        if is_leap(y) {
            29
        } else {
            28
        }
    } else if m == 4 || m == 6 || m == 9 || m == 11 {
        30
    } else {
        31
    }
}

/// Whether (`y`, `m`, `d`) names a real calendar date.
pub open spec fn spec_valid_date(y: int, m: int, d: int) -> bool {
    1 <= m <= 12 && 1 <= d <= spec_days_in_month(y, m)
}

/// Days from the Unix epoch to the start of year `y`.
pub open spec fn spec_days_before_year(y: int) -> int
    decreases y - 1970,
{
    if y <= 1970 {
        0
    } else {
        spec_days_before_year(y - 1) + if spec_is_leap(y - 1) {
            366int
        } else {
            365int
        }
    }
}

/// Days from the start of year `y` to the start of its month `m`.
pub open spec fn spec_days_before_month(y: int, m: int) -> int
    decreases m,
{
    if m <= 1 {
        0
    } else {
        spec_days_before_month(y, m - 1) + spec_days_in_month(y, m - 1)
    }
}

/// Days from the Unix epoch to the date (`y`, `m`, `d`).
pub open spec fn spec_epoch_days(y: int, m: int, d: int) -> int {
    spec_days_before_year(y) + spec_days_before_month(y, m) + (d - 1)
}

/// Days from the Unix epoch to the start of year `y`.
fn days_before_year(y: u64) -> (r: u64)
    requires
        1970 <= y <= 9999,
    ensures
        r == spec_days_before_year(y as int),
        r <= 366 * (y - 1970),
{
    let mut acc: u64 = 0;
    let mut yy: u64 = 1970;
    while yy < y
        invariant
            1970 <= yy <= y <= 9999,
            acc == spec_days_before_year(yy as int),
            acc <= 366 * (yy - 1970),
        decreases y - yy,
    {
        if is_leap(yy) {
            acc = acc + 366;
        } else {
            acc = acc + 365;
        }
        yy = yy + 1;
    }
    acc
}

/// Days from the start of year `y` to the start of its month `m`.
fn days_before_month(y: u64, m: u64) -> (r: u64)
    requires
        1 <= m <= 12,
    ensures
        r == spec_days_before_month(y as int, m as int),
        r <= 366,
{
    let mut acc: u64 = 0;
    let mut mm: u64 = 1;
    while mm < m
        invariant
            1 <= mm <= m <= 12,
            acc == spec_days_before_month(y as int, mm as int),
            acc <= 31 * (mm - 1),
        decreases m - mm,
    {
        acc = acc + days_in_month(y, mm);
        mm = mm + 1;
    }
    acc
}

/// Whether an upload date string is eight digits naming a real calendar
/// date.
pub open spec fn spec_upload_date_real(s: Seq<char>) -> bool {
    &&& s.len() == 8
    &&& spec_all_digits(s)
    &&& spec_valid_date(
        spec_digits_val(s.subrange(0, 4)),
        spec_digits_val(s.subrange(4, 6)),
        spec_digits_val(s.subrange(6, 8)),
    )
}

/// Whether an upload date string names a real date at or after the epoch
/// year, so that its midnight has a non-negative Unix timestamp.
pub open spec fn spec_upload_date_ok(s: Seq<char>) -> bool {
    spec_upload_date_real(s) && spec_digits_val(s.subrange(0, 4)) >= 1970
}

/// The Unix timestamp of the UTC midnight named by an upload date string.
pub open spec fn spec_upload_date_unix(s: Seq<char>) -> int {
    86400 * spec_epoch_days(
        spec_digits_val(s.subrange(0, 4)),
        spec_digits_val(s.subrange(4, 6)),
        spec_digits_val(s.subrange(6, 8)),
    )
}

/// Parses an upload date in `YYYYMMDD` form into the Unix timestamp of its
/// UTC midnight. A malformed or impossible date fails with `Parse`; a real
/// date before the epoch year fails with `Range`, since its timestamp would
/// be negative.
pub fn parse_upload_date(s: &str) -> (r: Result<u64, Error>)
    ensures
        r is Ok <==> spec_upload_date_ok(s@),
        r matches Ok(v) ==> v == spec_upload_date_unix(s@),
        r matches Err(e) ==> (e.kind == ErrorKind::Range <==> (spec_upload_date_real(s@)
            && spec_digits_val(s@.subrange(0, 4)) < 1970)),
        r matches Err(e) ==> (e.kind == ErrorKind::Range || e.kind == ErrorKind::Parse),
{
    let n = s.unicode_len();
    if n != 8 {
        return Err(Error::new(ErrorKind::Parse, "upload date is not eight digits".to_owned()));
    }
    let y = match parse_digits(s, 0, 4) {
        Some(v) => v,
        None => {
            return Err(Error::new(ErrorKind::Parse, "upload date holds a non-digit".to_owned()));
        },
    };
    let m = match parse_digits(s, 4, 6) {
        Some(v) => v,
        None => {
            return Err(Error::new(ErrorKind::Parse, "upload date holds a non-digit".to_owned()));
        },
    };
    let d = match parse_digits(s, 6, 8) {
        Some(v) => v,
        None => {
            return Err(Error::new(ErrorKind::Parse, "upload date holds a non-digit".to_owned()));
        },
    };
    if m < 1 || m > 12 || d < 1 || d > days_in_month(y, m) {
        return Err(Error::new(ErrorKind::Parse, "upload date names no real date".to_owned()));
    }
    if y < 1970 {
        return Err(Error::new(ErrorKind::Range, "upload date is before the epoch".to_owned()));
    }
    proof {
        reveal_with_fuel(spec_pow10, 10);
    }
    let days = days_before_year(y) + days_before_month(y, m) + (d - 1);
    Ok(86400 * days)
}

/// Builds the canonical entry record from downloader metadata. The video
/// file name, the measured file size and the computed identity are the
/// caller's; title, description and duration carry over; the date is the UTC
/// midnight of the reported upload date.
pub fn translate_entry_meta(meta: EntryMeta, file: String, size: u64, uuid: Uuid) -> (r: Result<
    Entry,
    Error,
>)
    ensures
        r is Ok <==> spec_upload_date_ok(meta.upload_date@),
        r matches Ok(e) ==> {
            &&& e.file == file
            &&& e.uuid == uuid
            &&& e.size == size
            &&& e.type_@ == "video/mp4"@
            &&& e.duration == meta.duration
            &&& e.date == spec_upload_date_unix(meta.upload_date@)
            &&& e.title == meta.title
            &&& e.description == Some(meta.description)
        },
        r matches Err(e) ==> (e.kind == ErrorKind::Range || e.kind == ErrorKind::Parse),
{
    let date = match parse_upload_date(meta.upload_date.as_str()) {
        Ok(v) => v,
        Err(e) => {
            return Err(e);
        },
    };
    Ok(
        Entry {
            file,
            uuid,
            size,
            type_: "video/mp4".to_owned(),
            duration: meta.duration,
            date,
            title: meta.title,
            description: Some(meta.description),
        },
    )
}

} // verus!
