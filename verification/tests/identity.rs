//! Identity assignment: determinism, sensitivity, domain separation, and the
//! textual form.

use feedme::uuid::{Uuid, UuidBuilder};

#[test]
fn identical_content_yields_identical_identity() {
    let content = b"some media file content".to_vec();
    let a = UuidBuilder::new()
        .context(b"ctx".to_vec())
        .finalize_bytes(&content);
    let b = UuidBuilder::new()
        .context(b"ctx".to_vec())
        .finalize_bytes(&content);
    assert_eq!(a.bytes, b.bytes);
}

#[test]
fn changing_one_content_byte_changes_the_identity() {
    let content = b"some media file content".to_vec();
    let mut changed = content.clone();
    changed[3] ^= 0x01;
    let a = UuidBuilder::new().finalize_bytes(&content);
    let b = UuidBuilder::new().finalize_bytes(&changed);
    assert_ne!(a.bytes, b.bytes);
}

#[test]
fn different_contexts_yield_different_identities() {
    let content = b"identical content".to_vec();
    let a = UuidBuilder::new()
        .context(b"feedme.manual".to_vec())
        .finalize_bytes(&content);
    let b = UuidBuilder::new()
        .context(b"another-source-id".to_vec())
        .finalize_bytes(&content);
    assert_ne!(a.bytes, b.bytes);
}

#[test]
fn different_domains_yield_different_identities() {
    let content = b"identical content".to_vec();
    let a = UuidBuilder::new().finalize_bytes(&content);
    let b = UuidBuilder::new()
        .domain(b"other-domain-salt".to_vec())
        .finalize_bytes(&content);
    assert_ne!(a.bytes, b.bytes);
}

#[test]
fn streaming_in_chunks_matches_one_shot_hashing() {
    let builder = UuidBuilder::new().context(b"ctx".to_vec());
    let content = b"a file streamed in bounded-size chunks".to_vec();
    let one_shot = builder.finalize_bytes(&content);
    let mut hasher = builder.begin();
    hasher.absorb(&content[..10]);
    hasher.absorb(&content[10..]);
    let streamed = Uuid {
        bytes: hasher.finish(),
    };
    assert_eq!(one_shot.bytes, streamed.bytes);
}

#[test]
fn hyphenated_form_is_uppercase_hex_grouped_4_2_2_2_6() {
    let id = Uuid {
        bytes: [
            0x00, 0x11, 0x22, 0x33, 0x44, 0x55, 0x66, 0x77, 0x88, 0x99, 0xAA, 0xBB, 0xCC, 0xDD,
            0xEE, 0xFF,
        ],
    };
    assert_eq!(id.hyphenated(), "00112233-4455-6677-8899-AABBCCDDEEFF");
}

#[test]
fn hyphenated_form_pads_small_bytes() {
    let id = Uuid { bytes: [0x0A; 16] };
    assert_eq!(id.hyphenated(), "0A0A0A0A-0A0A-0A0A-0A0A-0A0A0A0A0A0A");
}
