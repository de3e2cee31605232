//! Canonicalizing downloader metadata, configuration precedence, and the
//! error type.

use feedme::config::Config;
use feedme::error::{Error, ErrorKind};
use feedme::metadata::mime_for_extension;
use feedme::uuid::Uuid;
use feedme::ytmeta::{translate_entry_meta, translate_playlist_meta, EntryMeta, PlaylistMeta};

#[test]
fn playlist_meta_translates_field_by_field() {
    let meta = PlaylistMeta {
        title: "Show".to_string(),
        description: "About the show".to_string(),
        uploader: "An Author".to_string(),
        thumbnails: Vec::new(),
        webpage_url: "https://show.example".to_string(),
    };
    let playlist = translate_playlist_meta(meta, Some("cover.jpg".to_string()));
    assert_eq!(playlist.title, "Show");
    assert_eq!(playlist.description.as_deref(), Some("About the show"));
    assert_eq!(playlist.author.as_deref(), Some("An Author"));
    assert_eq!(playlist.thumbnail.as_deref(), Some("cover.jpg"));
    assert_eq!(playlist.url.as_deref(), Some("https://show.example"));
}

#[test]
fn playlist_meta_without_thumbnail_stays_without_one() {
    let meta = PlaylistMeta {
        title: "Show".to_string(),
        description: String::new(),
        uploader: String::new(),
        thumbnails: Vec::new(),
        webpage_url: String::new(),
    };
    let playlist = translate_playlist_meta(meta, None);
    assert!(playlist.thumbnail.is_none());
}

#[test]
fn entry_meta_translates_field_by_field() {
    let meta = EntryMeta {
        id: "vid123".to_string(),
        ext: "mp4".to_string(),
        title: "Ep1".to_string(),
        description: "About ep 1".to_string(),
        duration: 60,
        upload_date: "20231114".to_string(),
        playlist_index: 1,
    };
    let identity = Uuid { bytes: [7; 16] };
    let entry =
        translate_entry_meta(meta, "vid123.mp4".to_string(), 123, identity).unwrap();
    assert_eq!(entry.file, "vid123.mp4");
    assert_eq!(entry.size, 123);
    assert_eq!(entry.type_, "video/mp4");
    assert_eq!(entry.title, "Ep1");
    assert_eq!(entry.description.as_deref(), Some("About ep 1"));
    assert_eq!(entry.duration, 60);
    assert_eq!(entry.date, 1699920000);
    assert_eq!(entry.uuid.bytes, [7; 16]);
}

#[test]
fn entry_meta_with_bad_upload_date_fails() {
    let meta = EntryMeta {
        id: "vid123".to_string(),
        ext: "mp4".to_string(),
        title: "Ep1".to_string(),
        description: String::new(),
        duration: 60,
        upload_date: "not-a-date".to_string(),
        playlist_index: 1,
    };
    let err = translate_entry_meta(meta, "vid123.mp4".to_string(), 123, Uuid { bytes: [0; 16] })
        .unwrap_err();
    assert_eq!(err.kind, ErrorKind::Parse);
}

#[test]
fn accepted_extensions_map_to_their_mime_type() {
    assert_eq!(mime_for_extension("mp4").unwrap(), "video/mp4");
    assert_eq!(mime_for_extension("m4v").unwrap(), "video/mp4");
    let err = mime_for_extension("mkv").unwrap_err();
    assert_eq!(err.kind, ErrorKind::Parse);
}

#[test]
fn config_prefers_the_environment() {
    let env = Config { base_url: "https://env".to_string(), webroot: "/env".to_string() };
    let local = Config { base_url: "https://local".to_string(), webroot: "/local".to_string() };
    let picked = Config::load(Some(env), Some(local), None).unwrap();
    assert_eq!(picked.base_url, "https://env");
}

#[test]
fn config_falls_back_to_local_then_user() {
    let local = Config { base_url: "https://local".to_string(), webroot: "/local".to_string() };
    let user = Config { base_url: "https://user".to_string(), webroot: "/user".to_string() };
    let picked = Config::load(None, Some(local), Some(user.clone())).unwrap();
    assert_eq!(picked.base_url, "https://local");
    let picked = Config::load(None, None, Some(user)).unwrap();
    assert_eq!(picked.base_url, "https://user");
}

#[test]
fn config_with_no_source_is_missing() {
    let err = Config::load(None, None, None).unwrap_err();
    assert_eq!(err.kind, ErrorKind::NotFound);
}

#[test]
fn errors_describe_their_cause_chain() {
    let cause = Error::new(ErrorKind::Io, "disk on fire".to_string());
    let err = Error::caused(ErrorKind::Parse, "record unreadable".to_string(), cause);
    assert_eq!(err.describe(), "record unreadable caused by: disk on fire");
    assert!(err.trace.is_none());
    let err = err.with_trace("at line 1".to_string());
    assert_eq!(err.trace.as_deref(), Some("at line 1"));
}
