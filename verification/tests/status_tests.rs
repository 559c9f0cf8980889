use grit::checkout::{
    checkout_commit, checkout_tree, requested_commit, CheckoutAction, CheckoutError,
};
use grit::error::{Corruption, Error, Malformation};
use grit::index::{Index, IndexItem};
use grit::init::{
    repo_default_config, repo_default_description, repo_default_exclude, repo_default_head,
    repo_directories,
};
use grit::objects::{Blob, Commit, Object, Tag, Tree};
use grit::status::{
    parse_untracked_mode, staged_paths, staged_report, tracked_dirs, untracked_paths,
    untracked_report, StatusArgs, UntrackedMode,
};
use grit::{git_dir_name, program_name, GlobalOpts};

fn item(path: &str) -> IndexItem {
    IndexItem {
        ctime: 0,
        ctime_nsec: 0,
        mtime: 0,
        mtime_nsec: 0,
        dev: 0,
        ino: 0,
        mode: 0o100644,
        uid: 0,
        gid: 0,
        size: 0,
        hash: [0; 20],
        path: String::from(path),
    }
}

fn index_of(paths: &[&str]) -> Index {
    let mut index = Index::new();
    for path in paths {
        index.upsert(item(path));
    }
    index
}

fn strings(texts: &[&str]) -> Vec<String> {
    texts.iter().map(|x| String::from(*x)).collect()
}

fn commit() -> Commit {
    Commit {
        tree: [1; 20],
        author: String::from("a"),
        committer: String::from("c"),
        date: None,
        parent: None,
        message: String::from("m"),
    }
}

#[test]
fn names_follow_the_mode() {
    assert_eq!(git_dir_name(GlobalOpts { git_mode: true }), ".git");
    assert_eq!(git_dir_name(GlobalOpts { git_mode: false }), ".grit");
    assert_eq!(program_name(GlobalOpts { git_mode: true }), "Git");
    assert_eq!(program_name(GlobalOpts { git_mode: false }), "Grit");
}

#[test]
fn untracked_mode_is_read_from_its_word() {
    let mode = |word: Option<&str>| {
        parse_untracked_mode(&StatusArgs { untracked_files: word.map(String::from) })
    };
    assert_eq!(mode(None).ok(), Some(UntrackedMode::Normal));
    assert_eq!(mode(Some("no")).ok(), Some(UntrackedMode::No));
    assert_eq!(mode(Some("normal")).ok(), Some(UntrackedMode::Normal));
    assert_eq!(mode(Some("all")).ok(), Some(UntrackedMode::All));
}

#[test]
fn unknown_untracked_mode_is_reported_with_its_word() {
    for word in ["", "ALL", "none", "al", "alll", " no"] {
        match parse_untracked_mode(&StatusArgs { untracked_files: Some(String::from(word)) }) {
            Ok(_) => panic!("{:?} was accepted", word),
            Err(e) => {
                assert_eq!(e.given, word);
                assert_eq!(
                    e.message(),
                    format!("fatal: Invalid untracked files mode '{}'", word)
                );
            }
        }
    }
}

#[test]
fn tracked_directories_are_the_parents_of_staged_files() {
    let index = index_of(&["a.txt", "dir/b.txt", "dir/sub/c.txt", "dir/sub/d.txt", "z/y/x/w"]);
    assert_eq!(tracked_dirs(&index), strings(&["dir", "dir/sub", "z/y/x"]));
    assert_eq!(tracked_dirs(&index_of(&["only", "files"])), Vec::<String>::new());
    assert_eq!(tracked_dirs(&Index::new()), Vec::<String>::new());
    // Each directory once, where the staged files first reach it.
    let unordered =
        Index { version: 2, items: vec![item("b/1"), item("a/1"), item("b/2"), item("a/2")] };
    assert_eq!(tracked_dirs(&unordered), strings(&["b", "a"]));
}

#[test]
fn staged_paths_follow_the_staging_area() {
    let index = index_of(&["b", "a/c", "a"]);
    assert_eq!(staged_paths(&index), strings(&["a", "a/c", "b"]));
}

#[test]
fn untracked_paths_are_those_not_staged() {
    let staged = strings(&["a", "dir/b"]);
    let all = strings(&["a", "b", "dir/b", "dir/c", "b"]);
    assert_eq!(untracked_paths(all, &staged), strings(&["b", "dir/c", "b"]));
    assert_eq!(untracked_paths(Vec::new(), &staged), Vec::<String>::new());
    assert_eq!(untracked_paths(strings(&["x"]), &Vec::new()), strings(&["x"]));
}

#[test]
fn status_opens_with_branch_and_staged_files() {
    assert_eq!(
        staged_report(&Vec::new()),
        strings(&["On branch master", "", "No commits yet", ""])
    );
    assert_eq!(
        staged_report(&strings(&["a.txt", "dir/b"])),
        strings(&[
            "On branch master",
            "",
            "No commits yet",
            "",
            "Changes to be committed:",
            "  (use \"git rm --cached <file>...\" to unstage)",
            "\tnew file:   a.txt",
            "\tnew file:   dir/b",
            "",
        ])
    );
}

#[test]
fn status_closes_with_untracked_files_and_a_hint() {
    assert_eq!(
        untracked_report(None, 0),
        strings(&["Untracked files not listed (use -u option to show untracked files)"])
    );
    assert_eq!(
        untracked_report(Some(&strings(&["x", "y"])), 0),
        strings(&[
            "Untracked files:",
            "  (use \"git add <file>...\" to include in what will be committed)",
            "\tx",
            "\ty",
            "",
            "nothing added to commit but paths files present (use \"git add\" to track)",
        ])
    );
    assert_eq!(
        untracked_report(Some(&strings(&["x"])), 2),
        strings(&[
            "Untracked files:",
            "  (use \"git add <file>...\" to include in what will be committed)",
            "\tx",
            "",
        ])
    );
    assert_eq!(
        untracked_report(Some(&Vec::new()), 0),
        strings(&["nothing to commit (create/copy files and use \"git add\" to track)"])
    );
    assert_eq!(untracked_report(Some(&Vec::new()), 1), Vec::<String>::new());
}

#[test]
fn new_repository_has_its_default_files() {
    assert_eq!(
        repo_default_config(),
        "[core]\n\trepositoryformatversion = 0\n\tfilemode = true\n\tbare = false\n\tlogallrefupdates = true\n"
    );
    assert_eq!(
        repo_default_description(),
        "Unnamed repository; edit this file 'description' to name the repository.\n"
    );
    assert!(repo_default_exclude().starts_with("# git ls-files --others"));
    assert!(repo_default_exclude().ends_with("# *~\n"));
    assert_eq!(repo_default_exclude().lines().count(), 6);
    assert_eq!(repo_default_head(), "ref: refs/heads/master\n");
    assert_eq!(
        repo_directories(),
        strings(&[
            "branches",
            "hooks",
            "info",
            "objects/info",
            "objects/pack",
            "refs/heads",
            "refs/tags"
        ])
    );
}

#[test]
fn checkout_needs_a_commit() {
    assert!(requested_commit(Ok(Some(Object::Commit(commit())))).is_ok());
    assert_eq!(
        requested_commit(Ok(Some(Object::Blob(Blob { bytes: Vec::new() })))).err(),
        Some(CheckoutError::NotACommit)
    );
    assert_eq!(
        requested_commit(Ok(Some(Object::Tree(Tree { children: Vec::new() })))).err(),
        Some(CheckoutError::NotACommit)
    );
    assert_eq!(requested_commit(Ok(None)).err(), Some(CheckoutError::NoSuchCommit));
    assert_eq!(
        requested_commit(Err(Error::Corrupt(Corruption::Inflate))).err(),
        Some(CheckoutError::Store(Error::Corrupt(Corruption::Inflate)))
    );
}

#[test]
fn commit_has_to_refer_to_a_tree() {
    let tree = Tree { children: Vec::new() };
    assert!(checkout_commit(Ok(Object::Tree(tree))).is_ok());
    assert_eq!(
        checkout_commit(Ok(Object::Commit(commit()))).err(),
        Some(CheckoutError::NotATree)
    );
    assert_eq!(
        checkout_commit(Err(Error::Corrupt(Corruption::Absent))).err(),
        Some(CheckoutError::Store(Error::Corrupt(Corruption::Absent)))
    );
}

#[test]
fn tree_entries_are_written_or_passed_over() {
    match checkout_tree(Ok(Object::Blob(Blob { bytes: b"data".to_vec() }))) {
        Ok(CheckoutAction::WriteFile(blob)) => assert_eq!(blob.bytes, b"data".to_vec()),
        _ => panic!("a blob is written"),
    }
    assert!(matches!(
        checkout_tree(Ok(Object::Tree(Tree { children: Vec::new() }))),
        Ok(CheckoutAction::Skip)
    ));
    assert_eq!(
        checkout_tree(Ok(Object::Tag(Tag::new(String::from("t"))))).err(),
        Some(CheckoutError::UnexpectedObject)
    );
    assert_eq!(
        checkout_tree(Ok(Object::Commit(commit()))).err(),
        Some(CheckoutError::UnexpectedObject)
    );
    assert_eq!(
        checkout_tree(Err(Error::Io)).err(),
        Some(CheckoutError::Store(Error::Io))
    );
}

#[test]
fn failures_have_messages() {
    assert_eq!(CheckoutError::DestinationNotEmpty.message(), "Destination directory is not empty!");
    assert_eq!(CheckoutError::NotACommit.message(), "Requested object is not a commit");
    assert_eq!(CheckoutError::NoSuchCommit.message(), "Commit object does not exist");
    assert_eq!(
        CheckoutError::NotATree.message(),
        "Commit references a tree that is not actually a tree"
    );
    assert_eq!(
        CheckoutError::UnexpectedObject.message(),
        "Unexpected object found in tree. Expecting only blobs or trees"
    );
    assert_eq!(
        CheckoutError::Store(Error::Corrupt(Corruption::UnknownType)).message(),
        "unrecognised object type"
    );
    assert_eq!(
        Error::Malformed(Malformation::UnexpectedNewline).message(),
        "unexpected new line in commit text"
    );
    assert_eq!(Error::Io.message(), "Object compression failed");
    let all = [
        Error::Corrupt(Corruption::BadMagic),
        Error::Corrupt(Corruption::Truncated),
        Error::Corrupt(Corruption::InvalidUtf8),
        Error::Corrupt(Corruption::ChecksumMismatch),
        Error::Corrupt(Corruption::Inflate),
        Error::Corrupt(Corruption::MalformedHeader),
        Error::Corrupt(Corruption::UnknownType),
        Error::Corrupt(Corruption::Absent),
        Error::Malformed(Malformation::MissingRequiredField),
        Error::Malformed(Malformation::UnexpectedNewline),
        Error::Malformed(Malformation::BadTreeRecord),
        Error::Malformed(Malformation::InvalidUtf8),
        Error::Encoding,
        Error::Io,
        Error::TooManyEntries,
    ];
    for (i, a) in all.iter().enumerate() {
        assert!(!a.message().is_empty());
        for b in &all[i + 1..] {
            assert_ne!(a.message(), b.message());
        }
    }
}
