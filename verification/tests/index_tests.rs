use grit::error::{Corruption, Error};
use grit::index::{append_string, append_u32, mem_cmp, precedes, read_hash, read_u32, Index, IndexItem};
use grit::objects::{Blob, GitObject};
use sha1::{Digest, Sha1};

fn sha1_of(bytes: &[u8]) -> [u8; 20] {
    let mut hasher = Sha1::new();
    hasher.update(bytes);
    hasher.finalize().into()
}

fn item(path: &str) -> IndexItem {
    IndexItem {
        ctime: 1,
        ctime_nsec: 2,
        mtime: 3,
        mtime_nsec: 4,
        dev: 5,
        ino: 6,
        mode: 0o100644,
        uid: 7,
        gid: 8,
        size: 9,
        hash: [0xab; 20],
        path: String::from(path),
    }
}

fn hello_item() -> IndexItem {
    IndexItem {
        ctime: 0,
        ctime_nsec: 0,
        mtime: 0,
        mtime_nsec: 0,
        dev: 0,
        ino: 0,
        mode: 0o100644,
        uid: 0,
        gid: 0,
        size: 11,
        hash: sha1_of(b"blob 11\0hello world"),
        path: String::from("hello.txt"),
    }
}

fn paths(index: &Index) -> Vec<String> {
    index.items.iter().map(|x| x.path.clone()).collect()
}

fn assert_same_item(a: &IndexItem, b: &IndexItem) {
    assert_eq!(a.ctime, b.ctime);
    assert_eq!(a.ctime_nsec, b.ctime_nsec);
    assert_eq!(a.mtime, b.mtime);
    assert_eq!(a.mtime_nsec, b.mtime_nsec);
    assert_eq!(a.dev, b.dev);
    assert_eq!(a.ino, b.ino);
    assert_eq!(a.mode, b.mode);
    assert_eq!(a.uid, b.uid);
    assert_eq!(a.gid, b.gid);
    assert_eq!(a.size, b.size);
    assert_eq!(a.hash, b.hash);
    assert_eq!(a.path, b.path);
}

/// Replaces the trailing checksum by the digest of what precedes it.
fn reseal(bytes: &mut Vec<u8>) {
    let body = bytes.len() - 20;
    let digest = sha1_of(&bytes[..body]);
    bytes.truncate(body);
    bytes.extend_from_slice(&digest);
}

#[test]
fn single_entry_serializes_to_the_documented_layout() {
    let index = Index { version: 2, items: vec![hello_item()] };
    let bytes = index.serialize().unwrap();
    let expected_body = hex::decode(
        "444952430000000200000001000000000000000000000000000000000000000000000000000081a400000000000000000000000b95d09f2b10159347eece71399a7e2e907ea3df4f000968656c6c6f2e74787400",
    )
    .unwrap();
    assert_eq!(bytes.len(), 104);
    assert_eq!(&bytes[..84], &expected_body[..]);
    assert_eq!(hex::encode(&bytes[84..]), "2aca6f9f5edbf54b22d4143ded815a47f6f67650");
}

#[test]
fn single_entry_reads_back_and_checksum_covers_all_preceding_bytes() {
    let index = Index { version: 2, items: vec![hello_item()] };
    let bytes = index.serialize().unwrap();
    let body = bytes.len() - 20;
    assert_eq!(&bytes[body..], &sha1_of(&bytes[..body])[..]);
    let back = Index::deserialize(bytes).unwrap();
    assert_eq!(back.version, 2);
    assert_eq!(back.items.len(), 1);
    assert_same_item(&back.items[0], &hello_item());
    assert_eq!(back.items[0].hash, Blob { bytes: b"hello world".to_vec() }.hash());
}

#[test]
fn round_trip_keeps_every_field_of_every_entry() {
    let mut items = Vec::new();
    for (i, path) in ["a", "ab", "abc/d", "dir/sub/file.txt", "z\u{e9}"].iter().enumerate() {
        let mut it = item(path);
        it.ctime = 0xdead_beef;
        it.mtime_nsec = u32::MAX;
        it.size = i as u32;
        it.hash = [i as u8; 20];
        items.push(it);
    }
    let index = Index { version: 2, items };
    let bytes = index.serialize().unwrap();
    let back = Index::deserialize(bytes).unwrap();
    assert_eq!(back.version, index.version);
    assert_eq!(back.items.len(), index.items.len());
    for (a, b) in back.items.iter().zip(index.items.iter()) {
        assert_same_item(a, b);
    }
}

#[test]
fn round_trip_of_an_empty_index() {
    let index = Index::new();
    let bytes = index.serialize().unwrap();
    assert_eq!(bytes.len(), 32);
    assert_eq!(&bytes[..12], b"DIRC\0\0\0\x02\0\0\0\0");
    let back = Index::deserialize(bytes).unwrap();
    assert_eq!(back.version, 2);
    assert_eq!(back.items.len(), 0);
}

#[test]
fn version_is_written_and_read_as_it_is() {
    let index = Index { version: 3, items: vec![item("x")] };
    let back = Index::deserialize(index.serialize().unwrap()).unwrap();
    assert_eq!(back.version, 3);
}

#[test]
fn padding_is_between_one_and_eight_bytes() {
    // 62 fixed bytes and a path of two make 64: a whole block of padding follows.
    let two = Index { version: 2, items: vec![item("ab")] };
    assert_eq!(two.serialize().unwrap().len(), 12 + 72 + 20);
    // A path of one byte is padded by one byte.
    let one = Index { version: 2, items: vec![item("a")] };
    assert_eq!(one.serialize().unwrap().len(), 12 + 64 + 20);
    // A path of nine bytes is padded by one byte.
    let nine = Index { version: 2, items: vec![item("hello.txt")] };
    assert_eq!(nine.serialize().unwrap().len(), 12 + 72 + 20);
    // A path of three bytes is padded by seven.
    let three = Index { version: 2, items: vec![item("abc")] };
    let bytes = three.serialize().unwrap();
    assert_eq!(bytes.len(), 12 + 72 + 20);
    assert_eq!(&bytes[12 + 62..12 + 72], b"abc\0\0\0\0\0\0\0");
}

#[test]
fn path_of_the_longest_expressible_length_round_trips() {
    let long = "p".repeat(0xFFF);
    let index = Index { version: 2, items: vec![item(&long)] };
    let bytes = index.serialize().unwrap();
    assert_eq!(&bytes[12 + 60..12 + 62], &[0x0f, 0xff]);
    let back = Index::deserialize(bytes).unwrap();
    assert_eq!(back.items.len(), 1);
    assert_eq!(back.items[0].path, long);
}

#[test]
fn longer_path_is_written_in_full_behind_capped_flags() {
    let long = "q".repeat(0x1000);
    let index = Index { version: 2, items: vec![item(&long)] };
    let bytes = index.serialize().unwrap();
    assert_eq!(&bytes[12 + 60..12 + 62], &[0x0f, 0xff]);
    assert_eq!(&bytes[12 + 62..12 + 62 + 0x1000], long.as_bytes());
    // 62 + 4096 = 4158, padded by two bytes to 4160.
    assert_eq!(bytes.len(), 12 + 4160 + 20);
    // Read back, the path is cut at the length that the flags give.
    match Index::deserialize(bytes) {
        Ok(back) => {
            assert_eq!(back.items.len(), 1);
            assert_eq!(back.items[0].path.len(), 0xFFF);
        }
        Err(e) => panic!("unexpected failure {:?}", e),
    }
}

#[test]
fn bad_magic_is_rejected() {
    let index = Index { version: 2, items: vec![hello_item()] };
    let mut bytes = index.serialize().unwrap();
    bytes[0] = b'X';
    reseal(&mut bytes);
    assert_eq!(Index::deserialize(bytes).err(), Some(Error::Corrupt(Corruption::BadMagic)));
    assert_eq!(Index::deserialize(Vec::new()).err(), Some(Error::Corrupt(Corruption::BadMagic)));
    assert_eq!(
        Index::deserialize(b"DIR".to_vec()).err(),
        Some(Error::Corrupt(Corruption::BadMagic))
    );
}

#[test]
fn truncated_buffers_are_rejected() {
    assert_eq!(
        Index::deserialize(b"DIRC\0\0\0\x02".to_vec()).err(),
        Some(Error::Corrupt(Corruption::Truncated))
    );
    let index = Index { version: 2, items: vec![hello_item()] };
    let bytes = index.serialize().unwrap();
    for cut in [12usize, 20, 73, 83, 84, 103] {
        assert_eq!(
            Index::deserialize(bytes[..cut].to_vec()).err(),
            Some(Error::Corrupt(Corruption::Truncated)),
            "cut at {}",
            cut
        );
    }
    // A count that promises more entries than there are.
    let mut more = bytes.clone();
    more[11] = 2;
    assert_eq!(Index::deserialize(more).err(), Some(Error::Corrupt(Corruption::Truncated)));
}

#[test]
fn checksum_mismatch_is_rejected() {
    let index = Index { version: 2, items: vec![hello_item()] };
    let mut bytes = index.serialize().unwrap();
    let last = bytes.len() - 1;
    bytes[last] ^= 1;
    assert_eq!(
        Index::deserialize(bytes).err(),
        Some(Error::Corrupt(Corruption::ChecksumMismatch))
    );
    let mut changed = index.serialize().unwrap();
    changed[20] ^= 0xff;
    assert_eq!(
        Index::deserialize(changed).err(),
        Some(Error::Corrupt(Corruption::ChecksumMismatch))
    );
}

#[test]
fn path_that_is_not_utf8_is_rejected() {
    let index = Index { version: 2, items: vec![hello_item()] };
    let mut bytes = index.serialize().unwrap();
    bytes[12 + 62] = 0xff;
    reseal(&mut bytes);
    assert_eq!(Index::deserialize(bytes).err(), Some(Error::Corrupt(Corruption::InvalidUtf8)));
}

#[test]
fn bytes_between_the_entries_and_the_checksum_are_passed_over() {
    let index = Index { version: 2, items: vec![hello_item()] };
    let mut bytes = index.serialize().unwrap();
    bytes.truncate(84);
    bytes.extend_from_slice(b"TREE\0\0\0\0");
    bytes.extend_from_slice(&[0u8; 20]);
    reseal(&mut bytes);
    let back = Index::deserialize(bytes).unwrap();
    assert_eq!(back.items.len(), 1);
    assert_eq!(back.items[0].path, "hello.txt");
}

#[test]
fn mem_cmp_is_positive_where_the_left_side_sorts_first() {
    assert_eq!(mem_cmp(b"a", b"b"), 1);
    assert_eq!(mem_cmp(b"b", b"a"), -1);
    assert_eq!(mem_cmp(b"abc", b"abc"), 0);
    assert_eq!(mem_cmp(b"", b""), 0);
    assert_eq!(mem_cmp(b"ab", b"abc"), 1);
    assert_eq!(mem_cmp(b"abc", b"ab"), -1);
    assert_eq!(mem_cmp(b"", b"a"), 1);
    assert_eq!(mem_cmp(b"abd", b"abcz"), -1);
    // Bytes compare unsigned.
    assert_eq!(mem_cmp(&[0x7f], &[0x80]), 1);
    assert_eq!(mem_cmp(&[0xff], &[0x00, 0x01]), -1);
}

#[test]
fn precedes_compares_paths_byte_by_byte() {
    assert!(precedes("a", "b"));
    assert!(!precedes("b", "a"));
    assert!(!precedes("a", "a"));
    assert!(precedes("dir", "dir/file"));
    assert!(precedes("a.txt", "a/b"));
    assert!(precedes("Z", "a"));
    assert!(precedes("z", "\u{e9}"));
}

#[test]
fn upsert_keeps_paths_ascending_whatever_the_order() {
    let mut index = Index::new();
    for path in ["m", "z", "a", "dir/b", "dir", "b", "dir/a", "a.txt", "a/b", "Z"] {
        index.upsert(item(path));
        assert!(index.is_sorted());
    }
    assert_eq!(
        paths(&index),
        vec!["Z", "a", "a.txt", "a/b", "b", "dir", "dir/a", "dir/b", "m", "z"]
    );
    assert_eq!(index.version, 2);
}

#[test]
fn upsert_replaces_the_entry_with_the_same_path() {
    let mut index = Index::new();
    index.upsert(item("a"));
    index.upsert(item("b"));
    index.upsert(item("c"));
    let mut again = item("b");
    again.size = 77;
    again.hash = [1; 20];
    index.upsert(again);
    assert_eq!(paths(&index), vec!["a", "b", "c"]);
    assert_eq!(index.items[1].size, 77);
    assert_eq!(index.items[1].hash, [1; 20]);
    assert_eq!(index.items[0].size, 9);
}

#[test]
fn upsert_appends_where_no_path_is_greater() {
    let mut index = Index::new();
    index.upsert(item("a"));
    index.upsert(item("b"));
    assert_eq!(paths(&index), vec!["a", "b"]);
    index.upsert(item("ab"));
    assert_eq!(paths(&index), vec!["a", "ab", "b"]);
}

#[test]
fn upsert_removes_every_entry_with_the_path() {
    let mut index = Index { version: 2, items: vec![item("x"), item("a"), item("x")] };
    let mut new = item("x");
    new.size = 1;
    index.upsert(new);
    // Both old entries leave; the new one goes to the end, as nothing is greater.
    assert_eq!(paths(&index), vec!["a", "x"]);
    assert_eq!(index.items[1].size, 1);
}

#[test]
fn is_sorted_tells_ascending_from_other_orders() {
    assert!(Index::new().is_sorted());
    assert!(Index { version: 2, items: vec![item("a")] }.is_sorted());
    assert!(Index { version: 2, items: vec![item("a"), item("b")] }.is_sorted());
    assert!(!Index { version: 2, items: vec![item("b"), item("a")] }.is_sorted());
    assert!(!Index { version: 2, items: vec![item("a"), item("a")] }.is_sorted());
    assert!(!Index { version: 2, items: vec![item("a"), item("c"), item("b")] }.is_sorted());
}

#[test]
fn numbers_are_written_and_read_most_significant_byte_first() {
    let mut bytes = Vec::new();
    append_u32(&mut bytes, 0x0102_0304);
    append_u32(&mut bytes, 0o100644);
    assert_eq!(bytes, vec![1, 2, 3, 4, 0, 0, 0x81, 0xa4]);
    let mut pos = 0usize;
    assert_eq!(read_u32(&bytes, &mut pos), 0x0102_0304);
    assert_eq!(pos, 4);
    assert_eq!(read_u32(&bytes, &mut pos), 0o100644);
    assert_eq!(pos, 8);
}

#[test]
fn append_string_adds_the_utf8_bytes() {
    let mut bytes = vec![9u8];
    append_string(&mut bytes, String::from("DIRC"));
    assert_eq!(bytes, vec![9, b'D', b'I', b'R', b'C']);
    append_string(&mut bytes, String::from("\u{e9}"));
    assert_eq!(&bytes[5..], &[0xc3, 0xa9]);
}

#[test]
fn read_hash_takes_twenty_bytes() {
    let bytes: Vec<u8> = (0u8..30).collect();
    let mut pos = 5usize;
    let hash = read_hash(&bytes, &mut pos);
    assert_eq!(pos, 25);
    assert_eq!(&hash[..], &bytes[5..25]);
}

#[test]
fn clone_of_an_item_keeps_its_fields() {
    let a = hello_item();
    let b = a.clone();
    assert_same_item(&a, &b);
}
