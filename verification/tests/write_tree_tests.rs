use flate2::bufread::ZlibDecoder;
use grit::hashing::hash_hex;
use grit::index::{Index, IndexItem};
use grit::objects::{search_object, Blob, GitObject, Object, Tree, TreeEntry};
use grit::write_tree::{write_subtree, write_tree, DIRECTORY_MODE};
use grit::GlobalOpts;
use std::io::Read;

fn staged(path: &str, content: &[u8], mode: u32) -> IndexItem {
    IndexItem {
        ctime: 0,
        ctime_nsec: 0,
        mtime: 0,
        mtime_nsec: 0,
        dev: 0,
        ino: 0,
        mode,
        uid: 0,
        gid: 0,
        size: content.len() as u32,
        hash: Blob { bytes: content.to_vec() }.hash(),
        path: String::from(path),
    }
}

fn index_of(entries: &[(&str, &[u8])]) -> Index {
    let mut index = Index::new();
    for (path, content) in entries {
        index.upsert(staged(path, content, 0o100644));
    }
    assert!(index.is_sorted());
    index
}

fn inflate(bytes: &[u8]) -> Vec<u8> {
    let mut decoder = ZlibDecoder::new(bytes);
    let mut out = Vec::new();
    decoder.read_to_end(&mut out).unwrap();
    out
}

fn names(tree: &Tree) -> Vec<String> {
    tree.children.iter().map(|x| x.name.clone()).collect()
}

#[test]
fn three_staged_files_give_three_trees() {
    let index = index_of(&[("a.txt", b"a"), ("dir/b.txt", b"b"), ("dir/sub/c.txt", b"c")]);
    let written = write_tree(index, GlobalOpts { git_mode: false }).unwrap();
    let root = &written.root;

    // Built on their own, from the innermost directory outwards.
    let sub = Tree {
        children: vec![TreeEntry {
            mode: 0o100644,
            name: String::from("c.txt"),
            hash: Blob { bytes: b"c".to_vec() }.hash(),
        }],
    };
    let dir = Tree {
        children: vec![
            TreeEntry {
                mode: 0o100644,
                name: String::from("b.txt"),
                hash: Blob { bytes: b"b".to_vec() }.hash(),
            },
            TreeEntry { mode: 0o40000, name: String::from("sub"), hash: sub.hash() },
        ],
    };

    assert_eq!(root.children.len(), 2);
    assert_eq!(root.children[0].name, "a.txt");
    assert_eq!(root.children[0].mode, 0o100644);
    assert_eq!(root.children[0].hash, Blob { bytes: b"a".to_vec() }.hash());
    assert_eq!(root.children[1].name, "dir");
    assert_eq!(root.children[1].mode, 0o40000);
    assert_eq!(root.children[1].hash, dir.hash());

    assert_eq!(hash_hex(&sub.hash()), "653c8359fc980eb3a393a41a1f1cbe4e8ce458f8");
    assert_eq!(hash_hex(&dir.hash()), "7867e3afb65da34d0ee2b94cdd17366f65f55d49");
    assert_eq!(hash_hex(&root.hash()), "e3fdc5adf2014e15a5b19f4cf92a971c9ef7b6c8");
}

#[test]
fn trees_are_made_ready_for_the_store_from_the_bottom_up() {
    let index = index_of(&[("a.txt", b"a"), ("dir/b.txt", b"b"), ("dir/sub/c.txt", b"c")]);
    let written = write_tree(index, GlobalOpts { git_mode: false }).unwrap();
    assert_eq!(written.stored.len(), 3);
    let files: Vec<String> = written
        .stored
        .iter()
        .map(|s| format!("{}/{}", s.place.dir, s.place.file))
        .collect();
    assert_eq!(
        files,
        vec![
            ".grit/objects/65/3c8359fc980eb3a393a41a1f1cbe4e8ce458f8",
            ".grit/objects/78/67e3afb65da34d0ee2b94cdd17366f65f55d49",
            ".grit/objects/e3/fdc5adf2014e15a5b19f4cf92a971c9ef7b6c8",
        ]
    );
    // The last is the root, and each reads back as a tree.
    assert_eq!(inflate(&written.stored[2].bytes), written.root.content_with_header());
    let mut sizes = Vec::new();
    for stored in &written.stored {
        match search_object(Some(&stored.bytes)).unwrap() {
            Some(Object::Tree(tree)) => sizes.push(tree.children.len()),
            _ => panic!("not a tree"),
        }
    }
    assert_eq!(sizes, vec![1, 2, 2]);
}

#[test]
fn git_mode_moves_the_store() {
    let index = index_of(&[("f", b"x")]);
    let written = write_tree(index, GlobalOpts { git_mode: true }).unwrap();
    assert_eq!(written.stored.len(), 1);
    assert!(written.stored[0].place.dir.starts_with(".git/objects/"));
}

#[test]
fn empty_staging_area_gives_the_empty_tree() {
    let written = write_tree(Index::new(), GlobalOpts { git_mode: false }).unwrap();
    assert_eq!(written.root.children.len(), 0);
    assert_eq!(written.stored.len(), 1);
    assert_eq!(hash_hex(&written.root.hash()), "4b825dc642cb6eb9a060e54bf8d69288fbee4904");
    assert_eq!(inflate(&written.stored[0].bytes), b"tree 0\0".to_vec());
}

#[test]
fn files_keep_their_mode_and_directories_get_the_directory_mode() {
    let mut index = Index::new();
    index.upsert(staged("bin/run", b"#!", 0o100755));
    index.upsert(staged("readme", b"r", 0o100644));
    let written = write_tree(index, GlobalOpts { git_mode: false }).unwrap();
    assert_eq!(names(&written.root), vec!["bin", "readme"]);
    assert_eq!(written.root.children[0].mode, DIRECTORY_MODE);
    assert_eq!(DIRECTORY_MODE, 0o40000);
    assert_eq!(written.root.children[1].mode, 0o100644);
    let content = written.root.content_bytes();
    assert_eq!(&content[..10], b"40000 bin\0");
    match search_object(Some(&written.stored[0].bytes)).unwrap() {
        Some(Object::Tree(bin)) => {
            assert_eq!(names(&bin), vec!["run"]);
            assert_eq!(bin.children[0].mode, 0o100755);
            assert_eq!(bin.hash(), written.root.children[0].hash);
        }
        _ => panic!("not a tree"),
    }
}

#[test]
fn entries_of_one_directory_are_taken_together() {
    let index = index_of(&[
        ("a/1", b"1"),
        ("a/2", b"2"),
        ("a/b/3", b"3"),
        ("a/b/4", b"4"),
        ("a/c", b"5"),
        ("ab", b"6"),
        ("b/a/1", b"7"),
        ("c", b"8"),
    ]);
    let written = write_tree(index, GlobalOpts { git_mode: false }).unwrap();
    assert_eq!(names(&written.root), vec!["a", "ab", "b", "c"]);
    // Trees: a/b, a, b/a, b, root.
    assert_eq!(written.stored.len(), 5);
    let mut all = Vec::new();
    for stored in &written.stored {
        match search_object(Some(&stored.bytes)).unwrap() {
            Some(Object::Tree(tree)) => all.push(names(&tree)),
            _ => panic!("not a tree"),
        }
    }
    assert_eq!(
        all,
        vec![
            vec!["3", "4"],
            vec!["1", "2", "b", "c"],
            vec!["1"],
            vec!["a"],
            vec!["a", "ab", "b", "c"],
        ]
    );
}

#[test]
fn file_and_directory_with_a_common_start_are_kept_apart() {
    // "dir" the file sorts before "dir/x", and "dir.txt" between them.
    let index = index_of(&[("dir.txt", b"1"), ("dir/x", b"2"), ("dirt/y", b"3")]);
    let written = write_tree(index, GlobalOpts { git_mode: false }).unwrap();
    assert_eq!(names(&written.root), vec!["dir.txt", "dir", "dirt"]);
    assert_eq!(written.root.children[0].mode, 0o100644);
    assert_eq!(written.root.children[1].mode, 0o40000);
    assert_eq!(written.root.children[2].mode, 0o40000);
    assert_eq!(written.stored.len(), 3);
}

#[test]
fn names_that_are_not_ascii_stay_whole() {
    let index = index_of(&[("\u{e9}t\u{e9}/\u{4e2d}\u{6587}.txt", b"x")]);
    let written = write_tree(index, GlobalOpts { git_mode: false }).unwrap();
    assert_eq!(names(&written.root), vec!["\u{e9}t\u{e9}"]);
    match search_object(Some(&written.stored[0].bytes)).unwrap() {
        Some(Object::Tree(tree)) => assert_eq!(names(&tree), vec!["\u{4e2d}\u{6587}.txt"]),
        _ => panic!("not a tree"),
    }
}

#[test]
fn the_same_staging_area_gives_the_same_root_id() {
    let one = index_of(&[("x/y", b"1"), ("a", b"2"), ("x/z/w", b"3")]);
    let two = index_of(&[("x/z/w", b"3"), ("x/y", b"1"), ("a", b"2")]);
    let opts = GlobalOpts { git_mode: false };
    assert_eq!(write_tree(one, opts).unwrap().root.hash(), write_tree(two, opts).unwrap().root.hash());
}

#[test]
fn write_subtree_builds_one_level_from_a_part_of_the_entries() {
    let index = index_of(&[("a.txt", b"a"), ("dir/b.txt", b"b"), ("dir/sub/c.txt", b"c")]);
    let mut below = Vec::new();
    // The entries of "dir/", whose names start behind the four bytes "dir/".
    let dir = write_subtree(4, &index.items, 1, 3, &mut below);
    assert_eq!(names(&dir), vec!["b.txt", "sub"]);
    assert_eq!(below.len(), 1);
    assert_eq!(names(&below[0]), vec!["c.txt"]);
    assert_eq!(dir.children[1].hash, below[0].hash());
    assert_eq!(hash_hex(&dir.hash()), "7867e3afb65da34d0ee2b94cdd17366f65f55d49");
}
