//! Reading the text of a commit.

use vstd::prelude::*;
use crate::error::{Error, Malformation};
use crate::hashing::{parse_hash, spec_parse_hash};
use crate::objects::{Commit, CommitView};
use crate::hashing::{hex_string, lemma_hex_round_trip};
use crate::objects::{commit_text, header_line, optional_hex, optional_line};
use crate::text::is_white;

verus! {

/// Where the reader of a commit's text stands.
#[derive(Clone, Copy, Debug, PartialEq, Eq, Structural)]
pub enum ParseState {
    /// At the start of a line of the header.
    BeforeKey,
    /// Inside a key, which a space ends.
    InKey,
    /// Behind the space, before the value starts.
    BeforeValue,
    /// Inside a value, which a newline ends.
    InValue,
    /// Behind the empty line that ends the header.
    InMessage,
}

/// The reader's state: where it stands, the characters it is collecting, the key
/// of the line it is in, and the header lines that are complete.
pub struct Scan {
    pub state: ParseState,
    pub buffer: Seq<char>,
    pub key: Seq<char>,
    pub fields: Seq<(Seq<char>, Seq<char>)>,
}

/// The state before the first character: inside a key of which nothing is read yet.
pub open spec fn scan_start() -> Scan {
    Scan { state: ParseState::InKey, buffer: Seq::empty(), key: Seq::empty(), fields: Seq::empty() }
}

/// The failure of a header line that ends where its value should start.
pub open spec fn unexpected_newline<T>() -> Result<T, Error> {
    Err(Error::Malformed(Malformation::UnexpectedNewline))
}

/// What one character does to the reader.
pub open spec fn scan_step(scan: Scan, ch: char) -> Result<Scan, Error> {
    match scan.state {
        ParseState::BeforeKey => if ch == '\n' {
            // An empty line: the header is over.
            Ok(Scan { state: ParseState::InMessage, buffer: Seq::empty(), ..scan })
        } else {
            Ok(Scan { state: ParseState::InKey, buffer: seq![ch], ..scan })
        },
        ParseState::InKey => if ch == ' ' {
            Ok(Scan { state: ParseState::BeforeValue, key: scan.buffer, ..scan })
        } else {
            Ok(Scan { buffer: scan.buffer.push(ch), ..scan })
        },
        ParseState::BeforeValue => if ch == '\n' {
            unexpected_newline()
        } else if is_white(ch) {
            Ok(scan)
        } else {
            Ok(Scan { state: ParseState::InValue, buffer: seq![ch], ..scan })
        },
        ParseState::InValue => if ch == '\n' {
            Ok(
                Scan {
                    state: ParseState::BeforeKey,
                    fields: scan.fields.push((scan.key, scan.buffer)),
                    ..scan
                },
            )
        } else {
            Ok(Scan { buffer: scan.buffer.push(ch), ..scan })
        },
        ParseState::InMessage => Ok(Scan { buffer: scan.buffer.push(ch), ..scan }),
    }
}

/// The reader after the characters of `text`, starting from `from`; a failure stays.
pub open spec fn scan_from(from: Result<Scan, Error>, text: Seq<char>) -> Result<Scan, Error>
    decreases text.len(),
{
    if text.len() == 0 {
        from
    } else {
        match scan_from(from, text.drop_last()) {
            Err(e) => Err(e),
            Ok(scan) => scan_step(scan, text.last()),
        }
    }
}

/// The reader after the whole of `text`.
pub open spec fn scan_text(text: Seq<char>) -> Result<Scan, Error> {
    scan_from(Ok(scan_start()), text)
}

/// The value of the last header line with the given key.
pub open spec fn lookup(fields: Seq<(Seq<char>, Seq<char>)>, key: Seq<char>) -> Option<Seq<char>>
    decreases fields.len(),
{
    if fields.len() == 0 {
        None
    } else if fields.last().0 == key {
        Some(fields.last().1)
    } else {
        lookup(fields.drop_last(), key)
    }
}

/// The failure of a commit that lacks a required header line.
pub open spec fn missing_field<T>() -> Result<T, Error> {
    Err(Error::Malformed(Malformation::MissingRequiredField))
}

/// The message: what follows the empty line that ends the header, and nothing
/// where there is no such line.
pub open spec fn message_of(scan: Scan) -> Seq<char> {
    if scan.state == ParseState::InMessage {
        scan.buffer
    } else {
        Seq::empty()
    }
}

/// The id that an optional header line spells.
pub open spec fn optional_id(value: Option<Seq<char>>) -> Option<Seq<u8>> {
    match value {
        Some(v) => match spec_parse_hash(v) {
            Ok(id) => Some(id),
            Err(_) => None,
        },
        None => None,
    }
}

/// The commit that header lines and a message make. `tree`, `author` and
/// `committer` are required, `parent` and `date` are not, other keys are passed
/// over, and the order of the lines does not matter. `parent` is examined first,
/// then `tree`, `author` and `committer`.
pub open spec fn commit_of(fields: Seq<(Seq<char>, Seq<char>)>, message: Seq<char>) -> Result<
    CommitView,
    Error,
> {
    let parent = lookup(fields, "parent"@);
    let tree = lookup(fields, "tree"@);
    let author = lookup(fields, "author"@);
    let committer = lookup(fields, "committer"@);
    if parent is Some && spec_parse_hash(parent.unwrap()) is Err {
        Err(Error::Encoding)
    } else if tree is None {
        missing_field()
    } else if spec_parse_hash(tree.unwrap()) is Err {
        Err(Error::Encoding)
    } else if author is None || committer is None {
        missing_field()
    } else {
        Ok(
            CommitView {
                tree: spec_parse_hash(tree.unwrap()).unwrap(),
                author: author.unwrap(),
                committer: committer.unwrap(),
                date: lookup(fields, "date"@),
                parent: optional_id(parent),
                message,
            },
        )
    }
}

/// Reads the text of a commit. Each line of the header is a key, a space, a value
/// and a newline; white space before a value is passed over; the first empty
/// line ends the header, and all that follows it is the message.
pub open spec fn spec_parse_commit(text: Seq<char>) -> Result<CommitView, Error> {
    match scan_text(text) {
        Err(e) => Err(e),
        Ok(scan) => commit_of(scan.fields, message_of(scan)),
    }
}

/// Once the reader has failed on a part of the text, it has failed on the whole.
pub proof fn lemma_scan_fails(text: Seq<char>, failed: int)
    requires
        0 <= failed <= text.len(),
        scan_text(text.take(failed)) is Err,
    ensures
        scan_text(text) == scan_text(text.take(failed)),
    decreases text.len(),
{
    if failed < text.len() {
        assert(text.drop_last().take(failed) =~= text.take(failed));
        lemma_scan_fails(text.drop_last(), failed);
    } else {
        assert(text.take(failed) =~= text);
    }
}

/// The header lines that were read, as plain values.
pub open spec fn fields_view(fields: Seq<(String, String)>) -> Seq<(Seq<char>, Seq<char>)> {
    fields.map_values(|field: (String, String)| (field.0@, field.1@))
}

/// The value of the last header line with the given key.
fn find_field<'a>(fields: &'a Vec<(String, String)>, key: &str) -> (value: Option<&'a String>)
    ensures
        value matches Some(v) ==> lookup(fields_view(fields@), key@) == Some(v@),
        value is None ==> lookup(fields_view(fields@), key@) is None,
{
    let wanted = String::from_str(key);
    let ghost all = fields_view(fields@);
    let mut i = fields.len();
    assert(all.take(i as int) =~= all);
    while i > 0
        invariant
            i <= fields.len(),
            all == fields_view(fields@),
            wanted@ == key@,
            lookup(all, key@) == lookup(all.take(i as int), key@),
        decreases i,
    {
        let ghost part = all.take(i as int);
        assert(part.last() == all[i - 1]);
        assert(part.drop_last() =~= all.take(i - 1));
        i -= 1;
        if fields[i].0 == wanted {
            return Some(&fields[i].1);
        }
    }
    None
}

/// Reads a commit from its text.
pub fn parse_commit(commit_text: &String) -> (commit: Result<Commit, Error>)
    ensures
        commit matches Ok(c) ==> spec_parse_commit(commit_text@) == Ok::<CommitView, Error>(c@),
        commit matches Err(e) ==> spec_parse_commit(commit_text@) == Err::<CommitView, Error>(e),
{
    let mut buffer = String::new();
    let mut current_key = String::new();
    let mut state = ParseState::InKey;
    let mut tags: Vec<(String, String)> = Vec::new();
    assert(fields_view(tags@) =~= Seq::empty());
    assert(commit_text@.take(0) =~= Seq::empty());
    for c in iter: commit_text.as_str().chars()
        invariant
            iter.seq() == commit_text@,
            scan_text(iter.seq().take(iter.index() as int)) == Ok::<Scan, Error>(
                Scan {
                    state,
                    buffer: buffer@,
                    key: current_key@,
                    fields: fields_view(tags@),
                },
            ),
    {
        let ghost n = iter.index() as int;
        let ghost held = fields_view(tags@);
        proof {
            let part = commit_text@.take(n + 1);
            assert(part.drop_last() =~= commit_text@.take(n));
            assert(part.last() == c);
        }
        match state {
            ParseState::BeforeKey => {
                buffer.clear();
                if c == '\n' {
                    state = ParseState::InMessage;
                } else {
                    buffer.push(c);
                    state = ParseState::InKey;
                    assert(buffer@ =~= seq![c]);
                }
            },
            ParseState::InKey => {
                if c == ' ' {
                    // End of key
                    current_key = buffer.clone();
                    state = ParseState::BeforeValue;
                } else {
                    buffer.push(c);
                }
            },
            ParseState::BeforeValue => {
                if c == '\n' {
                    proof {
                        lemma_scan_fails(commit_text@, n + 1);
                    }
                    return Err(Error::Malformed(Malformation::UnexpectedNewline));
                } else if c.is_whitespace() {
                } else {
                    buffer.clear();
                    buffer.push(c);
                    state = ParseState::InValue;
                    assert(buffer@ =~= seq![c]);
                }
            },
            ParseState::InValue => {
                if c == '\n' {
                    // End of value
                    tags.push((current_key.clone(), buffer.clone()));
                    state = ParseState::BeforeKey;
                    assert(fields_view(tags@) =~= held.push((current_key@, buffer@)));
                } else {
                    buffer.push(c);
                }
            },
            ParseState::InMessage => {
                buffer.push(c);
            },
        }
    }
    assert(commit_text@.take(commit_text@.len() as int) =~= commit_text@);
    let message = match state {
        ParseState::InMessage => buffer,
        _ => String::new(),
    };
    let parent = match find_field(&tags, "parent") {
        Some(hash) => match parse_hash(hash) {
            Ok(id) => Some(id),
            Err(e) => {
                return Err(e);
            },
        },
        None => None,
    };
    let tree = match find_field(&tags, "tree") {
        Some(hash) => match parse_hash(hash) {
            Ok(id) => id,
            Err(e) => {
                return Err(e);
            },
        },
        None => {
            return Err(Error::Malformed(Malformation::MissingRequiredField));
        },
    };
    let author = match find_field(&tags, "author") {
        Some(author) => author.clone(),
        None => {
            return Err(Error::Malformed(Malformation::MissingRequiredField));
        },
    };
    let committer = match find_field(&tags, "committer") {
        Some(committer) => committer.clone(),
        None => {
            return Err(Error::Malformed(Malformation::MissingRequiredField));
        },
    };
    let date = match find_field(&tags, "date") {
        Some(date) => Some(date.clone()),
        None => None,
    };
    Ok(Commit { author, committer, date, parent, tree, message })
}


/// A value that a header line can carry: it is not empty, does not start with
/// white space, and holds no newline.
pub open spec fn header_value(value: Seq<char>) -> bool {
    &&& value.len() > 0
    &&& !is_white(value[0])
    &&& forall|i: int| 0 <= i < value.len() ==> value[i] != '\n'
}

/// A key that a header line can carry: it is not empty and holds neither a space
/// nor a newline.
pub open spec fn header_key(key: Seq<char>) -> bool {
    &&& key.len() > 0
    &&& forall|i: int| 0 <= i < key.len() ==> key[i] != ' ' && key[i] != '\n'
}

impl CommitView {
    /// What the text of a commit can hold: ids of twenty bytes, and an author, a
    /// committer and a date that are values of a header line.
    pub open spec fn well_formed(self) -> bool {
        &&& self.tree.len() == 20
        &&& (self.parent matches Some(parent) ==> parent.len() == 20)
        &&& header_value(self.author)
        &&& header_value(self.committer)
        &&& (self.date matches Some(date) ==> header_value(date))
    }
}

/// Reading two texts one after the other is reading the one, then the other.
pub proof fn lemma_scan_from_append(from: Result<Scan, Error>, a: Seq<char>, b: Seq<char>)
    ensures
        scan_from(from, a + b) == scan_from(scan_from(from, a), b),
    decreases b.len(),
{
    if b.len() == 0 {
        assert(a + b =~= a);
    } else {
        assert((a + b).drop_last() =~= a + b.drop_last());
        lemma_scan_from_append(from, a, b.drop_last());
    }
}

/// A state in which the reader only collects characters: inside a key, a value or
/// the message, as long as the character that ends it does not come.
pub open spec fn collects(scan: Scan, text: Seq<char>) -> bool {
    match scan.state {
        ParseState::InKey => forall|i: int| 0 <= i < text.len() ==> text[i] != ' ',
        ParseState::InValue => forall|i: int| 0 <= i < text.len() ==> text[i] != '\n',
        ParseState::InMessage => true,
        _ => false,
    }
}

/// While the reader collects, the characters it reads join those it holds.
pub proof fn lemma_scan_collects(scan: Scan, text: Seq<char>)
    requires
        collects(scan, text),
    ensures
        scan_from(Ok(scan), text) == Ok::<Scan, Error>(Scan { buffer: scan.buffer + text, ..scan }),
    decreases text.len(),
{
    if text.len() == 0 {
        assert(scan.buffer + text =~= scan.buffer);
    } else {
        let front = text.drop_last();
        assert forall|i: int| 0 <= i < front.len() implies front[i] == text[i] by {}
        lemma_scan_collects(scan, front);
        assert((scan.buffer + front).push(text.last()) =~= scan.buffer + text);
    }
}

/// Reading one character.
pub proof fn lemma_scan_one(scan: Scan, ch: char)
    ensures
        scan_from(Ok(scan), seq![ch]) == scan_step(scan, ch),
{
    let text = seq![ch];
    assert(text.drop_last() =~= Seq::<char>::empty());
    assert(scan_from(Ok(scan), text.drop_last()) == Ok::<Scan, Error>(scan));
}

/// Where a header line can start: at the start of a line, or at the start of the text.
pub open spec fn line_ready(scan: Scan) -> bool {
    scan.state == ParseState::BeforeKey || (scan.state == ParseState::InKey && scan.buffer.len() == 0)
}

/// Reading a header line adds it to the lines that are complete.
pub proof fn lemma_scan_line(scan: Scan, key: Seq<char>, value: Seq<char>)
    requires
        line_ready(scan),
        header_key(key),
        header_value(value),
    ensures
        scan_from(Ok(scan), header_line(key, value)) == Ok::<Scan, Error>(
            Scan {
                state: ParseState::BeforeKey,
                buffer: value,
                key,
                fields: scan.fields.push((key, value)),
            },
        ),
{
    let k0 = seq![key[0]];
    let k1 = key.skip(1);
    let sp = seq![' '];
    let v0 = seq![value[0]];
    let v1 = value.skip(1);
    let nl = seq!['\n'];
    assert(header_line(key, value) =~= k0 + k1 + sp + v0 + v1 + nl);
    let start = Ok::<Scan, Error>(scan);
    lemma_scan_from_append(start, k0 + k1 + sp + v0 + v1, nl);
    lemma_scan_from_append(start, k0 + k1 + sp + v0, v1);
    lemma_scan_from_append(start, k0 + k1 + sp, v0);
    lemma_scan_from_append(start, k0 + k1, sp);
    lemma_scan_from_append(start, k0, k1);
    lemma_scan_one(scan, key[0]);
    let s1 = Scan { state: ParseState::InKey, buffer: k0, ..scan };
    assert(scan_step(scan, key[0]) == Ok::<Scan, Error>(s1)) by {
        if scan.state == ParseState::InKey {
            assert(scan.buffer.push(key[0]) =~= k0);
        }
    }
    assert forall|i: int| 0 <= i < k1.len() implies k1[i] != ' ' by {
        assert(k1[i] == key[i + 1]);
    }
    lemma_scan_collects(s1, k1);
    assert(k0 + k1 =~= key);
    let s2 = Scan { buffer: key, ..s1 };
    lemma_scan_one(s2, ' ');
    let s3 = Scan { state: ParseState::BeforeValue, key, ..s2 };
    lemma_scan_one(s3, value[0]);
    let s4 = Scan { state: ParseState::InValue, buffer: v0, ..s3 };
    assert forall|i: int| 0 <= i < v1.len() implies v1[i] != '\n' by {
        assert(v1[i] == value[i + 1]);
    }
    lemma_scan_collects(s4, v1);
    assert(v0 + v1 =~= value);
    let s5 = Scan { buffer: value, ..s4 };
    lemma_scan_one(s5, '\n');
}

/// Reading a header line that may be missing.
pub proof fn lemma_scan_optional_line(scan: Scan, key: Seq<char>, value: Option<Seq<char>>)
    requires
        line_ready(scan),
        header_key(key),
        value matches Some(v) ==> header_value(v),
    ensures
        scan_from(Ok(scan), optional_line(key, value)) == Ok::<Scan, Error>(
            match value {
                Some(v) => Scan {
                    state: ParseState::BeforeKey,
                    buffer: v,
                    key,
                    fields: scan.fields.push((key, v)),
                },
                None => scan,
            },
        ),
{
    match value {
        Some(v) => {
            lemma_scan_line(scan, key, v);
        },
        None => {},
    }
}

/// The hexadecimal form of an id of twenty bytes is a value of a header line,
/// and spells the id.
pub proof fn lemma_hex_header_value(id: Seq<u8>)
    requires
        id.len() == 20,
    ensures
        header_value(hex_string(id)),
        spec_parse_hash(hex_string(id)) == Ok::<Seq<u8>, Error>(id),
{
    lemma_hex_round_trip(id);
    crate::hashing::lemma_hex_is_ascii(id);
    let text = hex_string(id);
    assert forall|i: int| 0 <= i < text.len() implies text[i] != '\n' && !is_white(text[i]) by {
        let b = id[i / 2] as int;
        assert(0 <= b / 16 < 16 && 0 <= b % 16 < 16);
    }
}

/// The keys that the text of a commit uses are keys of a header line, and differ
/// from each other.
pub proof fn lemma_commit_keys()
    ensures
        header_key("tree"@),
        header_key("parent"@),
        header_key("author"@),
        header_key("committer"@),
        header_key("date"@),
        "tree"@.len() == 4,
        "parent"@.len() == 6,
        "author"@.len() == 6 && "author"@[0] == 'a',
        "committer"@.len() == 9,
        "date"@.len() == 4 && "date"@[0] == 'd',
        "tree"@[0] == 't',
        "parent"@[0] == 'p',
{
    reveal_strlit("tree");
    reveal_strlit("parent");
    reveal_strlit("author");
    reveal_strlit("committer");
    reveal_strlit("date");
}

/// Reading the text of a well-formed commit gives the commit back.
pub proof fn lemma_parse_commit_written(commit: CommitView)
    requires
        commit.well_formed(),
    ensures
        spec_parse_commit(commit_text(commit)) == Ok::<CommitView, Error>(commit),
{
    lemma_commit_keys();
    lemma_hex_header_value(commit.tree);
    if let Some(parent) = commit.parent {
        lemma_hex_header_value(parent);
    }
    let tree = hex_string(commit.tree);
    let parent = optional_hex(commit.parent);
    let l1 = header_line("tree"@, tree);
    let l2 = optional_line("parent"@, parent);
    let l3 = header_line("author"@, commit.author);
    let l4 = header_line("committer"@, commit.committer);
    let l5 = optional_line("date"@, commit.date);
    let nl = seq!['\n'];
    let start = Ok::<Scan, Error>(scan_start());
    lemma_scan_from_append(start, l1 + l2 + l3 + l4 + l5 + nl, commit.message);
    lemma_scan_from_append(start, l1 + l2 + l3 + l4 + l5, nl);
    lemma_scan_from_append(start, l1 + l2 + l3 + l4, l5);
    lemma_scan_from_append(start, l1 + l2 + l3, l4);
    lemma_scan_from_append(start, l1 + l2, l3);
    lemma_scan_from_append(start, l1, l2);
    lemma_scan_line(scan_start(), "tree"@, tree);
    let s1 = scan_from(start, l1).unwrap();
    lemma_scan_optional_line(s1, "parent"@, parent);
    let s2 = scan_from(Ok(s1), l2).unwrap();
    lemma_scan_line(s2, "author"@, commit.author);
    let s3 = scan_from(Ok(s2), l3).unwrap();
    lemma_scan_line(s3, "committer"@, commit.committer);
    let s4 = scan_from(Ok(s3), l4).unwrap();
    lemma_scan_optional_line(s4, "date"@, commit.date);
    let s5 = scan_from(Ok(s4), l5).unwrap();
    lemma_scan_one(s5, '\n');
    let s6 = Scan { state: ParseState::InMessage, buffer: Seq::empty(), ..s5 };
    lemma_scan_collects(s6, commit.message);
    assert(Seq::<char>::empty() + commit.message =~= commit.message);
    let done = scan_text(commit_text(commit)).unwrap();
    assert(done.state == ParseState::InMessage);
    assert(done.buffer == commit.message);
    let fields = done.fields;
    let f1 = Seq::<(Seq<char>, Seq<char>)>::empty().push(("tree"@, tree));
    let f2 = match parent {
        Some(p) => f1.push(("parent"@, p)),
        None => f1,
    };
    let f3 = f2.push(("author"@, commit.author));
    let f4 = f3.push(("committer"@, commit.committer));
    let f5 = match commit.date {
        Some(d) => f4.push(("date"@, d)),
        None => f4,
    };
    assert(fields == f5);
    lemma_lookups(f1, f2, f3, f4, f5, commit, "tree"@);
    lemma_lookups(f1, f2, f3, f4, f5, commit, "parent"@);
    lemma_lookups(f1, f2, f3, f4, f5, commit, "author"@);
    lemma_lookups(f1, f2, f3, f4, f5, commit, "committer"@);
    lemma_lookups(f1, f2, f3, f4, f5, commit, "date"@);
    assert(commit_of(fields, commit.message) == Ok::<CommitView, Error>(commit));
}

/// Looking a key up behind a line that was added.
pub proof fn lemma_lookup_push(fields: Seq<(Seq<char>, Seq<char>)>, key: Seq<char>)
    ensures
        forall|k: Seq<char>, v: Seq<char>|
            lookup(#[trigger] fields.push((k, v)), key) == if k == key {
                Some(v)
            } else {
                lookup(fields, key)
            },
{
    assert forall|k: Seq<char>, v: Seq<char>|
        lookup(#[trigger] fields.push((k, v)), key) == if k == key {
            Some(v)
        } else {
            lookup(fields, key)
        } by {
        let more = fields.push((k, v));
        assert(more.last() == (k, v));
        assert(more.drop_last() =~= fields);
    }
}

/// What each key finds in the header lines of a commit's text.
pub proof fn lemma_lookups(
    f1: Seq<(Seq<char>, Seq<char>)>,
    f2: Seq<(Seq<char>, Seq<char>)>,
    f3: Seq<(Seq<char>, Seq<char>)>,
    f4: Seq<(Seq<char>, Seq<char>)>,
    f5: Seq<(Seq<char>, Seq<char>)>,
    commit: CommitView,
    key: Seq<char>,
)
    requires
        f1 == Seq::<(Seq<char>, Seq<char>)>::empty().push(("tree"@, hex_string(commit.tree))),
        f2 == match optional_hex(commit.parent) {
            Some(p) => f1.push(("parent"@, p)),
            None => f1,
        },
        f3 == f2.push(("author"@, commit.author)),
        f4 == f3.push(("committer"@, commit.committer)),
        f5 == match commit.date {
            Some(d) => f4.push(("date"@, d)),
            None => f4,
        },
        key == "tree"@ || key == "parent"@ || key == "author"@ || key == "committer"@ || key
            == "date"@,
    ensures
        key == "tree"@ ==> lookup(f5, key) == Some(hex_string(commit.tree)),
        key == "parent"@ ==> lookup(f5, key) == optional_hex(commit.parent),
        key == "author"@ ==> lookup(f5, key) == Some(commit.author),
        key == "committer"@ ==> lookup(f5, key) == Some(commit.committer),
        key == "date"@ ==> lookup(f5, key) == commit.date,
{
    lemma_commit_keys();
    lemma_lookup_push(f4, key);
    lemma_lookup_push(f3, key);
    lemma_lookup_push(f2, key);
    lemma_lookup_push(f1, key);
    lemma_lookup_push(Seq::empty(), key);
    assert(lookup(Seq::<(Seq<char>, Seq<char>)>::empty(), key) is None);
}

} // verus!
