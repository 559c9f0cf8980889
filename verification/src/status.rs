//! What the status of the working tree reports.

use vstd::prelude::*;
use vstd::utf8::encode_utf8;
use crate::bytes::{find_byte, lemma_find_byte, position_of};
use crate::index::{Index, IndexItemView};
use crate::text::{lemma_utf8_between_ascii, string_of};

verus! {

/// Which untracked files the status lists.
#[derive(Clone, Copy, Debug, PartialEq, Eq, Structural)]
pub enum UntrackedMode {
    /// None of them.
    No,
    /// The entries of the directories that hold staged files.
    Normal,
    /// Every file of the working tree that is not staged.
    All,
}

/// The arguments of the status command.
pub struct StatusArgs {
    pub untracked_files: Option<String>,
}

/// An untracked-files mode that does not exist.
pub struct InvalidUntrackedMode {
    /// The mode that was asked for.
    pub given: String,
}

impl InvalidUntrackedMode {
    /// The message for the user.
    pub fn message(&self) -> (text: String)
        ensures
            text@ == "fatal: Invalid untracked files mode '"@ + self.given@ + "'"@,
    {
        let mut text = String::from_str("fatal: Invalid untracked files mode '");
        text.append(self.given.as_str());
        text.append("'");
        text
    }
}

/// The mode that a word names.
pub open spec fn spec_untracked_mode(given: Option<Seq<char>>) -> Option<UntrackedMode> {
    match given {
        None => Some(UntrackedMode::Normal),
        Some(word) => if word == "no"@ {
            Some(UntrackedMode::No)
        } else if word == "normal"@ {
            Some(UntrackedMode::Normal)
        } else if word == "all"@ {
            Some(UntrackedMode::All)
        } else {
            None
        },
    }
}

/// The view of an optional word.
pub open spec fn word_view(word: Option<String>) -> Option<Seq<char>> {
    match word {
        Some(w) => Some(w@),
        None => None,
    }
}

/// Reads the untracked-files mode from the arguments: `no`, `normal` or `all`,
/// and `normal` where none is given.
pub fn parse_untracked_mode(args: &StatusArgs) -> (mode: Result<UntrackedMode, InvalidUntrackedMode>)
    ensures
        mode matches Ok(m) ==> spec_untracked_mode(word_view(args.untracked_files)) == Some(m),
        mode matches Err(e) ==> spec_untracked_mode(word_view(args.untracked_files)) is None
            && Some(e.given@) == word_view(args.untracked_files),
{
    match &args.untracked_files {
        Some(u) => {
            if *u == String::from_str("no") {
                Ok(UntrackedMode::No)
            } else if *u == String::from_str("normal") {
                Ok(UntrackedMode::Normal)
            } else if *u == String::from_str("all") {
                Ok(UntrackedMode::All)
            } else {
                Err(InvalidUntrackedMode { given: u.clone() })
            }
        },
        None => Ok(UntrackedMode::Normal),
    }
}

/// The position behind the last `/` at or after `from`, and `from` where there is none.
pub open spec fn after_last_slash(path: Seq<u8>, from: int) -> int
    decreases path.len() - from,
{
    if from < 0 || find_byte(path, 0x2f, from) >= path.len() {
        from
    } else {
        proof {
            lemma_find_byte(path, 0x2f, from);
        }
        after_last_slash(path, find_byte(path, 0x2f, from) + 1)
    }
}

/// The directory of a staged file: its path up to the last `/`, and `None` for a
/// file in the root directory.
pub open spec fn parent_directory(path: Seq<u8>) -> Option<Seq<u8>> {
    if after_last_slash(path, 0) == 0 {
        None
    } else {
        Some(path.subrange(0, after_last_slash(path, 0) - 1))
    }
}

/// The directories, other than the root, that hold staged files: each once, in
/// the order in which the staged files reach them.
pub open spec fn tracked_directories(items: Seq<IndexItemView>) -> Seq<Seq<u8>>
    decreases items.len(),
{
    if items.len() == 0 {
        Seq::empty()
    } else {
        let before = tracked_directories(items.drop_last());
        match parent_directory(items.last().path) {
            None => before,
            Some(dir) => if before.contains(dir) {
                before
            } else {
                before.push(dir)
            },
        }
    }
}

/// The UTF-8 bytes of each of the strings.
pub open spec fn texts_bytes(texts: Seq<String>) -> Seq<Seq<u8>> {
    texts.map_values(|text: String| encode_utf8(text@))
}

/// The characters of each of the strings.
pub open spec fn texts_view(texts: Seq<String>) -> Seq<Seq<char>> {
    texts.map_values(|text: String| text@)
}

/// The directory of a staged file.
fn parent_of(path: &str) -> (parent: Option<String>)
    ensures
        parent matches Some(dir) ==> parent_directory(encode_utf8(path@)) == Some(encode_utf8(dir@)),
        parent is None ==> parent_directory(encode_utf8(path@)) is None,
{
    let bytes = path.as_bytes();
    let mut from: usize = 0;
    let mut slash = position_of(bytes, 0x2f, 0);
    while slash < bytes.len()
        invariant
            from <= slash <= bytes@.len(),
            slash == find_byte(bytes@, 0x2f, from as int),
            bytes@ == encode_utf8(path@),
            from == 0 || bytes@[from - 1] == 0x2f,
            after_last_slash(bytes@, from as int) == after_last_slash(bytes@, 0),
        decreases bytes@.len() - from,
    {
        proof {
            lemma_find_byte(bytes@, 0x2f, from as int);
        }
        from = slash + 1;
        slash = position_of(bytes, 0x2f, from);
    }
    if from == 0 {
        None
    } else {
        proof {
            vstd::utf8::encode_utf8_valid_utf8(path@);
            lemma_utf8_between_ascii(bytes@, 0, from - 1);
        }
        Some(string_of(vstd::slice::slice_subrange(bytes, 0, from - 1)))
    }
}

/// Whether one of the strings is `wanted`.
fn holds(texts: &Vec<String>, wanted: &String) -> (found: bool)
    ensures
        found == texts_view(texts@).contains(wanted@),
{
    let mut i: usize = 0;
    while i < texts.len()
        invariant
            i <= texts.len(),
            forall|k: int| 0 <= k < i ==> texts_view(texts@)[k] != wanted@,
        decreases texts.len() - i,
    {
        if texts[i] == *wanted {
            assert(texts_view(texts@)[i as int] == wanted@);
            return true;
        }
        i += 1;
    }
    false
}

/// The same strings are found among bytes as among characters.
pub proof fn lemma_contains_bytes(texts: Seq<String>, wanted: Seq<char>)
    ensures
        texts_view(texts).contains(wanted) == texts_bytes(texts).contains(encode_utf8(wanted)),
{
    if texts_view(texts).contains(wanted) {
        let i = choose|i: int| 0 <= i < texts.len() && texts_view(texts)[i] == wanted;
        assert(texts_bytes(texts)[i] == encode_utf8(wanted));
    }
    if texts_bytes(texts).contains(encode_utf8(wanted)) {
        let i = choose|i: int| 0 <= i < texts.len() && texts_bytes(texts)[i] == encode_utf8(wanted);
        crate::text::lemma_utf8_injective(texts[i]@, wanted);
        assert(texts_view(texts)[i] == wanted);
    }
}

/// The directories, other than the root, that hold staged files.
pub fn tracked_dirs(index: &Index) -> (dirs: Vec<String>)
    ensures
        texts_bytes(dirs@) == tracked_directories(index@.items),
{
    let mut dirs: Vec<String> = Vec::new();
    let ghost items = index@.items;
    let mut i: usize = 0;
    assert(items.take(0) =~= Seq::empty());
    assert(texts_bytes(dirs@) =~= Seq::empty());
    while i < index.items.len()
        invariant
            i <= index.items.len(),
            items == index@.items,
            texts_bytes(dirs@) == tracked_directories(items.take(i as int)),
        decreases index.items.len() - i,
    {
        assert(items.take(i + 1).drop_last() =~= items.take(i as int));
        assert(items.take(i + 1).last() == index.items[i as int]@);
        match parent_of(index.items[i].path.as_str()) {
            None => {},
            Some(dir) => {
                proof {
                    lemma_contains_bytes(dirs@, dir@);
                }
                if !holds(&dirs, &dir) {
                    let ghost held = texts_bytes(dirs@);
                    dirs.push(dir);
                    assert(texts_bytes(dirs@) =~= held.push(encode_utf8(dir@)));
                }
            },
        }
        i += 1;
    }
    assert(items.take(i as int) =~= items);
    dirs
}

/// The paths that are not staged, in their order.
pub open spec fn unstaged(paths: Seq<Seq<char>>, staged: Seq<Seq<char>>) -> Seq<Seq<char>>
    decreases paths.len(),
{
    if paths.len() == 0 {
        Seq::empty()
    } else if staged.contains(paths.last()) {
        unstaged(paths.drop_last(), staged)
    } else {
        unstaged(paths.drop_last(), staged).push(paths.last())
    }
}

/// Of the paths of the working tree, those that are not staged.
pub fn untracked_paths(paths: Vec<String>, staged: &Vec<String>) -> (untracked: Vec<String>)
    ensures
        texts_view(untracked@) == unstaged(texts_view(paths@), texts_view(staged@)),
{
    let mut untracked: Vec<String> = Vec::new();
    let ghost all = texts_view(paths@);
    let mut i: usize = 0;
    assert(all.take(0) =~= Seq::empty());
    assert(texts_view(untracked@) =~= Seq::empty());
    while i < paths.len()
        invariant
            i <= paths.len(),
            all == texts_view(paths@),
            texts_view(untracked@) == unstaged(all.take(i as int), texts_view(staged@)),
        decreases paths.len() - i,
    {
        assert(all.take(i + 1).drop_last() =~= all.take(i as int));
        assert(all.take(i + 1).last() == paths[i as int]@);
        if !holds(staged, &paths[i]) {
            let ghost held = texts_view(untracked@);
            untracked.push(paths[i].clone());
            assert(texts_view(untracked@) =~= held.push(paths[i as int]@));
        }
        i += 1;
    }
    assert(all.take(i as int) =~= all);
    untracked
}

/// The paths of the staged files, in the order of the staging area.
pub fn staged_paths(index: &Index) -> (staged: Vec<String>)
    ensures
        staged@.len() == index@.items.len(),
        forall|i: int| 0 <= i < staged@.len() ==> encode_utf8((#[trigger] staged@[i])@) == index@.items[i].path,
{
    let mut staged: Vec<String> = Vec::new();
    let mut i: usize = 0;
    while i < index.items.len()
        invariant
            i <= index.items.len(),
            staged@.len() == i,
            forall|k: int| 0 <= k < i ==> encode_utf8((#[trigger] staged@[k])@) == index@.items[k].path,
        decreases index.items.len() - i,
    {
        assert(index@.items[i as int] == index.items[i as int]@);
        staged.push(index.items[i].path.clone());
        i += 1;
    }
    staged
}


/// Each of the texts behind `prefix`.
pub open spec fn prefixed(prefix: Seq<char>, texts: Seq<Seq<char>>) -> Seq<Seq<char>> {
    texts.map_values(|text: Seq<char>| prefix + text)
}

/// The lines that open the status: the branch, the state of the history, and the
/// staged files where there are any. An empty line is an empty text.
pub open spec fn spec_staged_report(staged: Seq<Seq<char>>) -> Seq<Seq<char>> {
    let head = seq!["On branch master"@, Seq::empty(), "No commits yet"@, Seq::empty()];
    if staged.len() > 0 {
        head + seq![
            "Changes to be committed:"@,
            "  (use \"git rm --cached <file>...\" to unstage)"@,
        ] + prefixed("\tnew file:   "@, staged) + seq![Seq::empty()]
    } else {
        head
    }
}

/// The lines that close the status: the untracked files where they are listed and
/// there are any, and a hint where nothing is staged. `None` stands for
/// untracked files that are not listed.
pub open spec fn spec_untracked_report(untracked: Option<Seq<Seq<char>>>, staged: nat) -> Seq<Seq<char>> {
    match untracked {
        None => seq!["Untracked files not listed (use -u option to show untracked files)"@],
        Some(paths) => {
            let listed = if paths.len() > 0 {
                seq![
                    "Untracked files:"@,
                    "  (use \"git add <file>...\" to include in what will be committed)"@,
                ] + prefixed("\t"@, paths) + seq![Seq::empty()]
            } else {
                Seq::empty()
            };
            if staged > 0 {
                listed
            } else if paths.len() > 0 {
                listed.push(
                    "nothing added to commit but paths files present (use \"git add\" to track)"@,
                )
            } else {
                listed.push("nothing to commit (create/copy files and use \"git add\" to track)"@)
            }
        },
    }
}

/// Adds each of the texts behind `prefix`.
fn push_prefixed(lines: &mut Vec<String>, prefix: &str, texts: &Vec<String>)
    ensures
        texts_view(final(lines)@) == texts_view(old(lines)@) + prefixed(prefix@, texts_view(texts@)),
{
    let ghost before = texts_view(lines@);
    let ghost all = prefixed(prefix@, texts_view(texts@));
    let mut i: usize = 0;
    assert(before + all.take(0) =~= before);
    while i < texts.len()
        invariant
            i <= texts.len(),
            all == prefixed(prefix@, texts_view(texts@)),
            texts_view(lines@) == before + all.take(i as int),
        decreases texts.len() - i,
    {
        let mut line = String::from_str(prefix);
        line.append(texts[i].as_str());
        let ghost held = texts_view(lines@);
        lines.push(line);
        assert(texts_view(lines@) =~= held.push(line@));
        assert(held.push(line@) =~= before + all.take(i + 1));
        i += 1;
    }
    assert(all.take(i as int) =~= all);
}

/// Adds one line.
fn push_line(lines: &mut Vec<String>, text: &str)
    ensures
        texts_view(final(lines)@) == texts_view(old(lines)@).push(text@),
{
    let ghost held = texts_view(lines@);
    lines.push(String::from_str(text));
    assert(texts_view(lines@) =~= held.push(text@));
}

/// Adds an empty line.
fn push_empty_line(lines: &mut Vec<String>)
    ensures
        texts_view(final(lines)@) == texts_view(old(lines)@).push(Seq::empty()),
{
    let ghost held = texts_view(lines@);
    lines.push(String::new());
    assert(texts_view(lines@) =~= held.push(Seq::empty()));
}

/// The lines that open the status, for the staged paths given.
pub fn staged_report(staged: &Vec<String>) -> (lines: Vec<String>)
    ensures
        texts_view(lines@) == spec_staged_report(texts_view(staged@)),
{
    let mut lines: Vec<String> = Vec::new();
    assert(texts_view(lines@) =~= Seq::empty());
    push_line(&mut lines, "On branch master");
    push_empty_line(&mut lines);
    push_line(&mut lines, "No commits yet");
    push_empty_line(&mut lines);
    let ghost head = seq!["On branch master"@, Seq::empty(), "No commits yet"@, Seq::empty()];
    assert(texts_view(lines@) =~= head);
    if staged.len() > 0 {
        push_line(&mut lines, "Changes to be committed:");
        push_line(&mut lines, "  (use \"git rm --cached <file>...\" to unstage)");
        push_prefixed(&mut lines, "\tnew file:   ", staged);
        push_empty_line(&mut lines);
        assert(texts_view(lines@) =~= spec_staged_report(texts_view(staged@)));
    }
    lines
}

/// The view of a list of paths that may be missing.
pub open spec fn listed_view(paths: Option<&Vec<String>>) -> Option<Seq<Seq<char>>> {
    match paths {
        Some(p) => Some(texts_view(p@)),
        None => None,
    }
}

/// The lines that close the status. `untracked` holds the untracked paths, and
/// is `None` where they are not listed; `staged` is the number of staged files.
pub fn untracked_report(untracked: Option<&Vec<String>>, staged: usize) -> (lines: Vec<String>)
    ensures
        texts_view(lines@) == spec_untracked_report(listed_view(untracked), staged as nat),
{
    let mut lines: Vec<String> = Vec::new();
    assert(texts_view(lines@) =~= Seq::empty());
    match untracked {
        None => {
            push_line(
                &mut lines,
                "Untracked files not listed (use -u option to show untracked files)",
            );
            assert(texts_view(lines@) =~= spec_untracked_report(None, staged as nat));
        },
        Some(paths) => {
            if paths.len() > 0 {
                push_line(&mut lines, "Untracked files:");
                push_line(
                    &mut lines,
                    "  (use \"git add <file>...\" to include in what will be committed)",
                );
                push_prefixed(&mut lines, "\t", paths);
                push_empty_line(&mut lines);
            }
            let ghost listed = texts_view(lines@);
            assert(listed =~= if paths@.len() > 0 {
                seq![
                    "Untracked files:"@,
                    "  (use \"git add <file>...\" to include in what will be committed)"@,
                ] + prefixed("\t"@, texts_view(paths@)) + seq![Seq::empty()]
            } else {
                Seq::empty()
            });
            if paths.len() > 0 && staged == 0 {
                push_line(
                    &mut lines,
                    "nothing added to commit but paths files present (use \"git add\" to track)",
                );
            }
            if paths.len() == 0 && staged == 0 {
                push_line(
                    &mut lines,
                    "nothing to commit (create/copy files and use \"git add\" to track)",
                );
            }
        },
    }
    lines
}

} // verus!
