//! Date handling: publication date rendering and upload date parsing.

use feedme::date::pub_date_text;
use feedme::error::ErrorKind;
use feedme::ytmeta::parse_upload_date;

#[test]
fn pub_date_renders_rfc2822_at_utc() {
    assert_eq!(pub_date_text(1700000000).unwrap(), "Tue, 14 Nov 2023 22:13:20 +0000");
}

#[test]
fn pub_date_renders_the_epoch() {
    assert_eq!(pub_date_text(0).unwrap(), "Thu, 01 Jan 1970 00:00:00 +0000");
}

#[test]
fn pub_date_beyond_the_representable_range_is_a_range_error() {
    let err = pub_date_text(253402300800).unwrap_err();
    assert_eq!(err.kind, ErrorKind::Range);
}

#[test]
fn pub_date_accepts_the_last_representable_second() {
    assert_eq!(pub_date_text(253402300799).unwrap(), "Fri, 31 Dec 9999 23:59:59 +0000");
}

#[test]
fn upload_date_parses_to_utc_midnight() {
    assert_eq!(parse_upload_date("20231114").unwrap(), 1699920000);
}

#[test]
fn upload_date_of_the_epoch_day_is_zero() {
    assert_eq!(parse_upload_date("19700101").unwrap(), 0);
}

#[test]
fn upload_date_handles_leap_days() {
    assert_eq!(parse_upload_date("20240229").unwrap(), 1709164800);
}

#[test]
fn upload_date_rejects_an_impossible_leap_day() {
    let err = parse_upload_date("20230229").unwrap_err();
    assert_eq!(err.kind, ErrorKind::Parse);
}

#[test]
fn upload_date_rejects_a_thirteenth_month() {
    let err = parse_upload_date("20231301").unwrap_err();
    assert_eq!(err.kind, ErrorKind::Parse);
}

#[test]
fn upload_date_rejects_short_input() {
    let err = parse_upload_date("2023").unwrap_err();
    assert_eq!(err.kind, ErrorKind::Parse);
}

#[test]
fn upload_date_rejects_non_digits() {
    let err = parse_upload_date("2023-1-4").unwrap_err();
    assert_eq!(err.kind, ErrorKind::Parse);
}

#[test]
fn upload_date_before_the_epoch_is_a_range_error() {
    let err = parse_upload_date("19500101").unwrap_err();
    assert_eq!(err.kind, ErrorKind::Range);
}
