use grit::error::Error;
use grit::hashing::{hash_hex, parse_hash};
use grit::objects::{Blob, GitObject};
use sha1::{Digest, Sha1};

#[test]
fn hash_hex_is_forty_lowercase_characters() {
    let mut id = [0u8; 20];
    for (i, byte) in id.iter_mut().enumerate() {
        *byte = (i as u8) * 13 + 0xa0;
    }
    let text = hash_hex(&id);
    assert_eq!(text.len(), 40);
    assert_eq!(text, "a0adbac7d4e1eefb0815222f3c495663707d8a97");
    assert_eq!(hash_hex(&[0u8; 20]), "0".repeat(40));
    assert_eq!(hash_hex(&[0xff; 20]), "f".repeat(40));
    assert_eq!(hash_hex(&[0x0f; 20]), "0f".repeat(20));
}

#[test]
fn parse_hash_reads_what_hash_hex_wrote() {
    let id: [u8; 20] = Sha1::digest(b"any bytes").into();
    assert_eq!(parse_hash(&hash_hex(&id)), Ok(id));
}

#[test]
fn parse_hash_accepts_either_case() {
    let lower = parse_hash(&String::from("95d09f2b10159347eece71399a7e2e907ea3df4f")).unwrap();
    let upper = parse_hash(&String::from("95D09F2B10159347EECE71399A7E2E907EA3DF4F")).unwrap();
    let mixed = parse_hash(&String::from("95d09F2b10159347EEce71399a7e2e907ea3DF4f")).unwrap();
    assert_eq!(lower, upper);
    assert_eq!(lower, mixed);
    assert_eq!(lower[0], 0x95);
    assert_eq!(lower[1], 0xd0);
    assert_eq!(lower[19], 0x4f);
}

#[test]
fn parse_hash_rejects_what_is_no_id() {
    let encoding = Err(Error::Encoding);
    assert_eq!(parse_hash(&String::new()), encoding);
    assert_eq!(parse_hash(&String::from("fake_hash")), encoding);
    assert_eq!(parse_hash(&String::from("95d0")), encoding);
    assert_eq!(parse_hash(&"0".repeat(39)), encoding);
    assert_eq!(parse_hash(&"0".repeat(41)), encoding);
    assert_eq!(parse_hash(&"0".repeat(42)), encoding);
    assert_eq!(parse_hash(&format!("{}g", "0".repeat(39))), encoding);
    assert_eq!(parse_hash(&format!(" {}", "0".repeat(39))), encoding);
    assert_eq!(parse_hash(&"\u{e9}".repeat(20)), encoding);
    assert_eq!(parse_hash(&"\u{e9}".repeat(40)), encoding);
}

#[test]
fn object_id_is_sha1_of_the_framed_bytes() {
    let blob = Blob { bytes: b"what is up, doc?".to_vec() };
    let expected: [u8; 20] = Sha1::digest(b"blob 16\0what is up, doc?").into();
    assert_eq!(blob.hash(), expected);
    assert_eq!(hash_hex(&blob.hash()), "bd9dbf5aae1a3862dd1526723246b20206e5fc37");
}
