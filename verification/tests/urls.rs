//! URL resolution: the webroot containment boundary and component encoding.

use feedme::error::ErrorKind;
use feedme::url::absolute_url;

#[test]
fn path_outside_webroot_is_a_security_error() {
    let err = absolute_url("/etc/passwd", "/var/www", "https://ex.org").unwrap_err();
    assert_eq!(err.kind, ErrorKind::Security);
}

#[test]
fn sibling_directory_with_webroot_prefix_is_rejected() {
    let err = absolute_url("/var/www2/a.mp4", "/var/www", "https://ex.org").unwrap_err();
    assert_eq!(err.kind, ErrorKind::Security);
}

#[test]
fn parent_directory_component_is_rejected() {
    let err = absolute_url("/var/www/../secret", "/var/www", "https://ex.org").unwrap_err();
    assert_eq!(err.kind, ErrorKind::Security);
}

#[test]
fn empty_component_is_rejected() {
    let err = absolute_url("/var/www//a.mp4", "/var/www", "https://ex.org").unwrap_err();
    assert_eq!(err.kind, ErrorKind::Security);
}

#[test]
fn plain_file_resolves_under_the_base_url() {
    let url = absolute_url("/var/www/a.mp4", "/var/www", "https://ex.org").unwrap();
    assert_eq!(url, "https://ex.org/a.mp4");
}

#[test]
fn nested_file_keeps_one_component_per_directory() {
    let url = absolute_url("/var/www/season 1/ep01.mp4", "/var/www", "https://ex.org").unwrap();
    assert_eq!(url, "https://ex.org/season%201/ep01.mp4");
}

#[test]
fn special_characters_are_escaped_so_they_decode_back() {
    let url = absolute_url("/var/www/a b#c?d.mp4", "/var/www", "https://ex.org").unwrap();
    assert_eq!(url, "https://ex.org/a%20b%23c%3Fd.mp4");
}

#[test]
fn non_ascii_characters_are_escaped_as_utf8_bytes() {
    let url = absolute_url("/var/www/épisode.mp4", "/var/www", "https://ex.org").unwrap();
    assert_eq!(url, "https://ex.org/%C3%A9pisode.mp4");
}

#[test]
fn a_slash_inside_a_name_cannot_cross_a_boundary() {
    let url = absolute_url("/var/www/100% legal.mp4", "/var/www", "https://ex.org").unwrap();
    assert_eq!(url, "https://ex.org/100%25%20legal.mp4");
}

#[test]
fn root_webroot_resolves_directly() {
    let url = absolute_url("/a.mp4", "/", "https://ex.org").unwrap();
    assert_eq!(url, "https://ex.org/a.mp4");
}

#[test]
fn path_equal_to_webroot_resolves_to_the_base_url() {
    let url = absolute_url("/var/www", "/var/www", "https://ex.org").unwrap();
    assert_eq!(url, "https://ex.org");
}
