//! XML serialization: field order, escaping, omission of absent fields, and
//! the end-to-end feed document.

use feedme::assemble::build_feed;
use feedme::error::ErrorKind;
use feedme::metadata::{Entry, Playlist};
use feedme::rss::{Channel, Enclosure, Feed, Image, Item};
use feedme::uuid::Uuid;

#[test]
fn enclosure_is_one_self_closing_element_with_three_attributes() {
    let enclosure = Enclosure {
        length: 123,
        type_: "video/mp4".to_string(),
        url: "https://ex.org/a.mp4".to_string(),
    };
    let mut out = String::new();
    enclosure.write_xml(&mut out);
    assert_eq!(
        out,
        "<enclosure length=\"123\" type=\"video/mp4\" url=\"https://ex.org/a.mp4\"/>"
    );
}

#[test]
fn element_text_is_escaped() {
    let item = Item {
        title: "Tom & Jerry <again>".to_string(),
        itunes_episode: 1,
        description: None,
        enclosure: Enclosure {
            length: 1,
            type_: "video/mp4".to_string(),
            url: "https://ex.org/x.mp4".to_string(),
        },
        guid: Uuid { bytes: [0; 16] },
        pub_date: 0,
        itunes_duration: 1,
    };
    let mut out = String::new();
    item.write_xml(&mut out).unwrap();
    assert!(out.contains("<title>Tom &amp; Jerry &lt;again&gt;</title>"));
}

#[test]
fn attribute_values_escape_quotes_too() {
    let enclosure = Enclosure {
        length: 5,
        type_: "video/mp4".to_string(),
        url: "https://ex.org/a\"b'c.mp4".to_string(),
    };
    let mut out = String::new();
    enclosure.write_xml(&mut out);
    assert_eq!(
        out,
        "<enclosure length=\"5\" type=\"video/mp4\" url=\"https://ex.org/a&quot;b&apos;c.mp4\"/>"
    );
}

#[test]
fn channel_with_all_optional_fields_emits_all_elements() {
    let channel = Channel {
        title: "Show".to_string(),
        itunes_type: "Serial".to_string(),
        link: Some("https://show.example".to_string()),
        itunes_author: Some("An Author".to_string()),
        description: Some("About the show".to_string()),
        itunes_image: Some(Image {
            url: "https://ex.org/cover.jpg".to_string(),
        }),
        items: Vec::new(),
    };
    let mut out = String::new();
    channel.write_xml(&mut out).unwrap();
    let expected = "<channel><title>Show</title><itunes:type>Serial</itunes:type><link>https://show.example</link><itunes:author>An Author</itunes:author><description>About the show</description><itunes:image href=\"https://ex.org/cover.jpg\"/></channel>";
    assert_eq!(out, expected);
}

#[test]
fn channel_with_absent_optional_fields_emits_no_empty_tags() {
    let channel = Channel {
        title: "Show".to_string(),
        itunes_type: "Serial".to_string(),
        link: None,
        itunes_author: None,
        description: None,
        itunes_image: None,
        items: Vec::new(),
    };
    let mut out = String::new();
    channel.write_xml(&mut out).unwrap();
    assert_eq!(out, "<channel><title>Show</title><itunes:type>Serial</itunes:type></channel>");
    assert!(!out.contains("<link"));
    assert!(!out.contains("<itunes:author"));
    assert!(!out.contains("<description"));
    assert!(!out.contains("<itunes:image"));
}

#[test]
fn item_fields_appear_in_the_fixed_order() {
    let item = Item {
        title: "Ep1".to_string(),
        itunes_episode: 1,
        description: Some("About ep 1".to_string()),
        enclosure: Enclosure {
            length: 123,
            type_: "video/mp4".to_string(),
            url: "https://ex.org/a.mp4".to_string(),
        },
        guid: Uuid { bytes: [0xAB; 16] },
        pub_date: 1700000000,
        itunes_duration: 60,
    };
    let mut out = String::new();
    item.write_xml(&mut out).unwrap();
    let expected = "<item><title>Ep1</title><itunes:episode>1</itunes:episode><description>About ep 1</description><enclosure length=\"123\" type=\"video/mp4\" url=\"https://ex.org/a.mp4\"/><guid>ABABABAB-ABAB-ABAB-ABAB-ABABABABABAB</guid><pubDate>Tue, 14 Nov 2023 22:13:20 +0000</pubDate><itunes:duration>60</itunes:duration></item>";
    assert_eq!(out, expected);
}

#[test]
fn item_with_unrenderable_date_emits_nothing() {
    let item = Item {
        title: "Ep1".to_string(),
        itunes_episode: 1,
        description: None,
        enclosure: Enclosure {
            length: 1,
            type_: "video/mp4".to_string(),
            url: "https://ex.org/a.mp4".to_string(),
        },
        guid: Uuid { bytes: [0; 16] },
        pub_date: u64::MAX,
        itunes_duration: 1,
    };
    let mut out = String::from("prefix");
    let err = item.write_xml(&mut out).unwrap_err();
    assert_eq!(err.kind, ErrorKind::Range);
    assert_eq!(out, "prefix");
}

#[test]
fn feed_builds_end_to_end() {
    let playlist = Playlist {
        title: "Show".to_string(),
        description: None,
        author: None,
        thumbnail: None,
        url: None,
    };
    let identity = Uuid {
        bytes: [
            0x00, 0x11, 0x22, 0x33, 0x44, 0x55, 0x66, 0x77, 0x88, 0x99, 0xAA, 0xBB, 0xCC, 0xDD,
            0xEE, 0xFF,
        ],
    };
    let entries = vec![Entry {
        file: "a.mp4".to_string(),
        uuid: identity,
        size: 123,
        type_: "video/mp4".to_string(),
        duration: 60,
        date: 1700000000,
        title: "Ep1".to_string(),
        description: None,
    }];
    let entry_paths = vec!["/var/www/a.mp4".to_string()];
    let feed = build_feed(&playlist, &None, &entries, &entry_paths, "/var/www", "https://ex.org")
        .unwrap();
    let xml = feed.to_xml().unwrap();
    let expected = "<rss version=\"2.0\" xmlns:itunes=\"http://www.itunes.com/dtds/podcast-1.0.dtd\" xmlns:content=\"http://purl.org/rss/1.0/modules/content/\"><channel><title>Show</title><itunes:type>Serial</itunes:type><item><title>Ep1</title><itunes:episode>1</itunes:episode><enclosure length=\"123\" type=\"video/mp4\" url=\"https://ex.org/a.mp4\"/><guid>00112233-4455-6677-8899-AABBCCDDEEFF</guid><pubDate>Tue, 14 Nov 2023 22:13:20 +0000</pubDate><itunes:duration>60</itunes:duration></item></channel></rss>";
    assert_eq!(xml, expected);
}

#[test]
fn feed_thumbnail_resolves_into_an_image_element() {
    let playlist = Playlist {
        title: "Show".to_string(),
        description: None,
        author: None,
        thumbnail: Some("cover art.jpg".to_string()),
        url: None,
    };
    let entries: Vec<Entry> = Vec::new();
    let entry_paths: Vec<String> = Vec::new();
    let thumbnail_path = Some("/var/www/cover art.jpg".to_string());
    let feed = build_feed(
        &playlist,
        &thumbnail_path,
        &entries,
        &entry_paths,
        "/var/www",
        "https://ex.org",
    )
    .unwrap();
    let image = feed.channel.itunes_image.as_ref().unwrap();
    assert_eq!(image.url, "https://ex.org/cover%20art.jpg");
    let xml = feed.to_xml().unwrap();
    assert!(xml.contains("<itunes:image href=\"https://ex.org/cover%20art.jpg\"/>"));
}

#[test]
fn feed_outside_webroot_builds_no_feed_at_all() {
    let playlist = Playlist {
        title: "Show".to_string(),
        description: None,
        author: None,
        thumbnail: None,
        url: None,
    };
    let entries = vec![Entry {
        file: "a.mp4".to_string(),
        uuid: Uuid { bytes: [0; 16] },
        size: 123,
        type_: "video/mp4".to_string(),
        duration: 60,
        date: 1700000000,
        title: "Ep1".to_string(),
        description: None,
    }];
    let entry_paths = vec!["/elsewhere/a.mp4".to_string()];
    let err = build_feed(&playlist, &None, &entries, &entry_paths, "/var/www", "https://ex.org")
        .unwrap_err();
    assert_eq!(err.kind, ErrorKind::Security);
}

#[test]
fn feed_preserves_entry_order() {
    let playlist = Playlist {
        title: "Show".to_string(),
        description: None,
        author: None,
        thumbnail: None,
        url: None,
    };
    let mut entries = Vec::new();
    let mut entry_paths = Vec::new();
    for (name, date) in [("z-last.mp4", 100u64), ("a-first.mp4", 900u64), ("m-mid.mp4", 500u64)] {
        entries.push(Entry {
            file: name.to_string(),
            uuid: Uuid { bytes: [1; 16] },
            size: 1,
            type_: "video/mp4".to_string(),
            duration: 1,
            date,
            title: name.to_string(),
            description: None,
        });
        entry_paths.push(format!("/var/www/{name}"));
    }
    let feed = build_feed(&playlist, &None, &entries, &entry_paths, "/var/www", "https://ex.org")
        .unwrap();
    let titles: Vec<&str> = feed.channel.items.iter().map(|i| i.title.as_str()).collect();
    assert_eq!(titles, vec!["z-last.mp4", "a-first.mp4", "m-mid.mp4"]);
    assert_eq!(feed.channel.items[0].itunes_episode, 1);
    assert_eq!(feed.channel.items[1].itunes_episode, 2);
    assert_eq!(feed.channel.items[2].itunes_episode, 3);
}
