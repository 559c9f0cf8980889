//! The objects of the store: what each kind holds, and how it turns into bytes.

pub mod commit;
pub mod store;
pub mod tree;

pub use crate::hashing::parse_hash;
pub use crate::objects::commit::parse_commit;
pub use crate::objects::store::{get_object, parse_object, read_object_raw, search_object};
pub use crate::objects::tree::{parse_tree, parse_tree_node};

use vstd::prelude::*;
use vstd::utf8::encode_utf8;
use crate::bytes::{append_bytes, decimal, octal, push_decimal, push_octal};
use crate::error::Error;
use crate::zlib::{deflate, zlib_deflated};
use crate::GlobalOpts;
use crate::{git_dir_name, spec_git_dir_name};
use crate::hashing::{encode_hex, hex_string, sha1, sha1_digest};

verus! {

/// The content of a file.
pub struct Blob {
    pub bytes: Vec<u8>,
}

/// A snapshot: the tree it records, where it came from and who made it.
pub struct Commit {
    /// The id of the tree that describes the directory contents at this commit.
    pub tree: [u8; 20],
    pub author: String,
    pub committer: String,
    pub date: Option<String>,
    /// The id of the commit's parent, if it has one.
    pub parent: Option<[u8; 20]>,
    pub message: String,
}

/// One directory level: its entries, in the order in which they were supplied.
#[derive(Clone, Debug)]
pub struct Tree {
    pub children: Vec<TreeEntry>,
}

/// An entry of a tree.
#[derive(Clone, Debug)]
pub struct TreeEntry {
    /// The unix file mode; `0o40000` marks a directory.
    pub mode: u32,
    /// The name of the file or directory: one path component.
    pub name: String,
    /// The id of the file's content or of the directory's tree.
    pub hash: [u8; 20],
}

/// A named mark.
pub struct Tag {
    name: String,
}

/// An object of any kind.
pub enum Object {
    Blob(Blob),
    Commit(Commit),
    Tree(Tree),
    Tag(Tag),
}

/// A tree entry as plain values; the name is held as its UTF-8 bytes.
pub struct TreeEntryView {
    pub mode: u32,
    pub name: Seq<u8>,
    pub hash: Seq<u8>,
}

/// A tree as plain values.
pub struct TreeView {
    pub children: Seq<TreeEntryView>,
}

/// A commit as plain values.
pub struct CommitView {
    pub tree: Seq<u8>,
    pub author: Seq<char>,
    pub committer: Seq<char>,
    pub date: Option<Seq<char>>,
    pub parent: Option<Seq<u8>>,
    pub message: Seq<char>,
}

/// An object as plain values: a blob is its bytes, a tag its name.
pub enum ObjectView {
    Blob(Seq<u8>),
    Commit(CommitView),
    Tree(TreeView),
    Tag(Seq<char>),
}

impl View for Blob {
    type V = Seq<u8>;

    open spec fn view(&self) -> Seq<u8> {
        self.bytes@
    }
}

impl View for TreeEntry {
    type V = TreeEntryView;

    open spec fn view(&self) -> TreeEntryView {
        TreeEntryView { mode: self.mode, name: encode_utf8(self.name@), hash: self.hash@ }
    }
}

/// The views of a run of tree entries, in the same order.
pub open spec fn entries_view(entries: Seq<TreeEntry>) -> Seq<TreeEntryView> {
    entries.map_values(|entry: TreeEntry| entry@)
}

impl View for Tree {
    type V = TreeView;

    open spec fn view(&self) -> TreeView {
        TreeView { children: entries_view(self.children@) }
    }
}

/// The view of an optional string.
pub open spec fn text_view(text: Option<String>) -> Option<Seq<char>> {
    match text {
        Some(s) => Some(s@),
        None => None,
    }
}

/// The view of an optional object id.
pub open spec fn id_view(id: Option<[u8; 20]>) -> Option<Seq<u8>> {
    match id {
        Some(h) => Some(h@),
        None => None,
    }
}

impl View for Commit {
    type V = CommitView;

    open spec fn view(&self) -> CommitView {
        CommitView {
            tree: self.tree@,
            author: self.author@,
            committer: self.committer@,
            date: text_view(self.date),
            parent: id_view(self.parent),
            message: self.message@,
        }
    }
}

impl View for Tag {
    type V = Seq<char>;

    closed spec fn view(&self) -> Seq<char> {
        self.name@
    }
}

impl View for Object {
    type V = ObjectView;

    open spec fn view(&self) -> ObjectView {
        match self {
            Object::Blob(blob) => ObjectView::Blob(blob@),
            Object::Commit(commit) => ObjectView::Commit(commit@),
            Object::Tree(tree) => ObjectView::Tree(tree@),
            Object::Tag(tag) => ObjectView::Tag(tag@),
        }
    }
}

/// Where an object lies in the store, relative to the repository root.
pub struct ObjectPlace {
    /// The directory: the metadata directory, `objects`, and the first two
    /// characters of the id's hexadecimal form.
    pub dir: String,
    /// The file in that directory: the other thirty-eight characters.
    pub file: String,
}

/// A place in the store as plain values.
pub struct ObjectPlaceView {
    pub dir: Seq<char>,
    pub file: Seq<char>,
}

impl View for ObjectPlace {
    type V = ObjectPlaceView;

    open spec fn view(&self) -> ObjectPlaceView {
        ObjectPlaceView { dir: self.dir@, file: self.file@ }
    }
}

/// An object made ready for the store: its place and its compressed bytes.
pub struct StoredObject {
    pub place: ObjectPlace,
    pub bytes: Vec<u8>,
}

/// An object made ready for the store, as plain values.
pub struct StoredObjectView {
    pub place: ObjectPlaceView,
    pub bytes: Seq<u8>,
}

impl View for StoredObject {
    type V = StoredObjectView;

    open spec fn view(&self) -> StoredObjectView {
        StoredObjectView { place: self.place@, bytes: self.bytes@ }
    }
}

/// What the store holds of an object: its place by its id, and its header and
/// content compressed; `None` where the compressor fails.
pub open spec fn spec_stored(object: ObjectView, git_mode: bool) -> Option<StoredObjectView> {
    match zlib_deflated(object.framed()) {
        Some(bytes) => Some(
            StoredObjectView { place: spec_object_place(object.id()@, git_mode), bytes },
        ),
        None => None,
    }
}

/// The place of the object with the given id.
pub open spec fn spec_object_place(id: Seq<u8>, git_mode: bool) -> ObjectPlaceView {
    ObjectPlaceView {
        dir: spec_git_dir_name(git_mode) + "/objects/"@ + hex_string(id).subrange(0, 2),
        file: hex_string(id).subrange(2, 40),
    }
}

/// The place in the store of the object with the given id.
pub fn object_place(hash: &[u8; 20], git_mode: bool) -> (place: ObjectPlace)
    ensures
        place@ == spec_object_place(hash@, git_mode),
{
    let hex = encode_hex(hash.as_slice());
    assert(vstd::utf8::is_ascii_chars(hex@)) by {
        crate::hashing::lemma_hex_is_ascii(hash@);
    }
    let mut dir = git_dir_name(GlobalOpts { git_mode });
    dir.append("/objects/");
    dir.append(hex.as_str().substring_ascii(0, 2));
    let file = String::from_str(hex.as_str().substring_ascii(2, 40));
    ObjectPlace { dir, file }
}

/// The record of one tree entry: its mode in octal, a space, its name, a NUL and
/// the twenty bytes of its id.
pub open spec fn tree_record(entry: TreeEntryView) -> Seq<u8> {
    octal(entry.mode as nat) + seq![0x20u8] + entry.name + seq![0u8] + entry.hash
}

/// The content of a tree: the records of its entries, in their order.
pub open spec fn tree_content(children: Seq<TreeEntryView>) -> Seq<u8>
    decreases children.len(),
{
    if children.len() == 0 {
        Seq::empty()
    } else {
        tree_record(children.first()) + tree_content(children.drop_first())
    }
}

/// One header line of a commit: the key, a space, the value and a newline.
pub open spec fn header_line(key: Seq<char>, value: Seq<char>) -> Seq<char> {
    key + seq![' '] + value + seq!['\n']
}

/// A header line that is only there where the value is.
pub open spec fn optional_line(key: Seq<char>, value: Option<Seq<char>>) -> Seq<char> {
    match value {
        Some(v) => header_line(key, v),
        None => Seq::empty(),
    }
}

/// The hexadecimal form of an optional id.
pub open spec fn optional_hex(id: Option<Seq<u8>>) -> Option<Seq<char>> {
    match id {
        Some(h) => Some(hex_string(h)),
        None => None,
    }
}

/// The text of a commit: the header lines `tree`, `parent` (where there is one),
/// `author`, `committer` and `date` (where there is one), an empty line, and the
/// message as it stands.
pub open spec fn commit_text(commit: CommitView) -> Seq<char> {
    header_line("tree"@, hex_string(commit.tree)) + optional_line(
        "parent"@,
        optional_hex(commit.parent),
    ) + header_line("author"@, commit.author) + header_line("committer"@, commit.committer)
        + optional_line("date"@, commit.date) + seq!['\n'] + commit.message
}

/// An object's content behind its header: the type's name, a space, the length
/// of the content in decimal and a NUL.
pub open spec fn frame(kind_name: Seq<char>, content: Seq<u8>) -> Seq<u8> {
    encode_utf8(kind_name) + seq![0x20u8] + decimal(content.len()) + seq![0u8] + content
}

impl ObjectView {
    /// The token that names the object's type.
    pub open spec fn kind_name(self) -> Seq<char> {
        match self {
            ObjectView::Blob(_) => "blob"@,
            ObjectView::Commit(_) => "commit"@,
            ObjectView::Tree(_) => "tree"@,
            ObjectView::Tag(_) => "tag"@,
        }
    }

    /// The object's content as bytes.
    pub open spec fn content(self) -> Seq<u8> {
        match self {
            ObjectView::Blob(bytes) => bytes,
            ObjectView::Commit(commit) => encode_utf8(commit_text(commit)),
            ObjectView::Tree(tree) => tree_content(tree.children),
            ObjectView::Tag(name) => encode_utf8(name),
        }
    }

    /// The bytes that are hashed and stored: header, then content.
    pub open spec fn framed(self) -> Seq<u8> {
        frame(self.kind_name(), self.content())
    }

    /// The object's id: the SHA-1 digest of header and content.
    pub open spec fn id(self) -> [u8; 20] {
        sha1_digest(self.framed())
    }
}

/// What every kind of object offers: a type name and a content, and from them the
/// framed bytes and the id.
pub trait GitObject {
    /// The token that names the type.
    spec fn spec_kind_name(&self) -> Seq<char>;

    /// The content as bytes.
    spec fn spec_content(&self) -> Seq<u8>;

    fn kind_name(&self) -> (name: String)
        ensures
            name@ == self.spec_kind_name(),
    ;

    fn content_bytes(&self) -> (content: Vec<u8>)
        ensures
            content@ == self.spec_content(),
    ;

    /// Header and content: what is hashed and what is stored.
    fn content_with_header(&self) -> (framed: Vec<u8>)
        ensures
            framed@ == frame(self.spec_kind_name(), self.spec_content()),
    {
        let content = self.content_bytes();
        let name = self.kind_name();
        let mut bytes: Vec<u8> = Vec::new();
        append_bytes(&mut bytes, name.as_str().as_bytes());
        bytes.push(0x20u8);
        push_decimal(&mut bytes, content.len());
        bytes.push(0u8);
        append_bytes(&mut bytes, content.as_slice());
        assert(bytes@ =~= frame(self.spec_kind_name(), self.spec_content()));
        bytes
    }

    /// Header and content, compressed for the store.
    fn compress(&self) -> (compressed: Result<Vec<u8>, Error>)
        ensures
            compressed matches Ok(bytes) ==> zlib_deflated(
                frame(self.spec_kind_name(), self.spec_content()),
            ) == Some(bytes@),
            compressed matches Err(e) ==> e == Error::Io && zlib_deflated(
                frame(self.spec_kind_name(), self.spec_content()),
            ) is None,
    {
        let bytes = self.content_with_header();
        match deflate(bytes.as_slice()) {
            Ok(compressed) => Ok(compressed),
            Err(_) => Err(Error::Io),
        }
    }

    /// The object's id.
    fn hash(&self) -> (id: [u8; 20])
        ensures
            id == sha1_digest(frame(self.spec_kind_name(), self.spec_content())),
    {
        let bytes = self.content_with_header();
        sha1(bytes.as_slice())
    }

    /// What the store holds of the object and where: the file is named by the id's
    /// hexadecimal form, the first two characters of which name its directory.
    /// Writing the same object again gives the same place and the same bytes.
    fn write(&self, global_opts: GlobalOpts) -> (stored: Result<StoredObject, Error>)
        ensures
            stored matches Ok(record) ==> {
                &&& record.place@ == spec_object_place(
                    sha1_digest(frame(self.spec_kind_name(), self.spec_content()))@,
                    global_opts.git_mode,
                )
                &&& zlib_deflated(frame(self.spec_kind_name(), self.spec_content())) == Some(
                    record.bytes@,
                )
            },
            stored matches Err(e) ==> e == Error::Io && zlib_deflated(
                frame(self.spec_kind_name(), self.spec_content()),
            ) is None,
    {
        let hash = self.hash();
        let bytes = match self.compress() {
            Ok(bytes) => bytes,
            Err(e) => {
                return Err(e);
            },
        };
        Ok(StoredObject { place: object_place(&hash, global_opts.git_mode), bytes })
    }
}

impl GitObject for Blob {
    open spec fn spec_kind_name(&self) -> Seq<char> {
        "blob"@
    }

    open spec fn spec_content(&self) -> Seq<u8> {
        self.bytes@
    }

    fn kind_name(&self) -> (name: String) {
        String::from_str("blob")
    }

    fn content_bytes(&self) -> (content: Vec<u8>) {
        vstd::slice::slice_to_vec(self.bytes.as_slice())
    }
}


impl GitObject for Tag {
    open spec fn spec_kind_name(&self) -> Seq<char> {
        "tag"@
    }

    open spec fn spec_content(&self) -> Seq<u8> {
        encode_utf8(self@)
    }

    fn kind_name(&self) -> (name: String) {
        String::from_str("tag")
    }

    fn content_bytes(&self) -> (content: Vec<u8>) {
        vstd::slice::slice_to_vec(self.name.as_str().as_bytes())
    }
}

impl Tag {
    /// A tag with the given name.
    pub fn new(name: String) -> (tag: Tag)
        ensures
            tag@ == name@,
    {
        Tag { name }
    }

    /// The tag's name.
    pub fn name(&self) -> (name: &String)
        ensures
            name@ == self@,
    {
        &self.name
    }
}

/// Appends the record of one tree entry.
fn push_tree_record(bytes: &mut Vec<u8>, entry: &TreeEntry)
    ensures
        final(bytes)@ == old(bytes)@ + tree_record(entry@),
{
    let mut record: Vec<u8> = Vec::new();
    // The mode is written as the ASCII form of its octal value.
    push_octal(&mut record, entry.mode);
    assert(record@ =~= octal(entry.mode as nat));
    record.push(0x20u8);
    append_bytes(&mut record, entry.name.as_str().as_bytes());
    record.push(0u8);
    append_bytes(&mut record, entry.hash.as_slice());
    assert(record@ =~= tree_record(entry@));
    append_bytes(bytes, record.as_slice());
}

impl GitObject for Tree {
    open spec fn spec_kind_name(&self) -> Seq<char> {
        "tree"@
    }

    open spec fn spec_content(&self) -> Seq<u8> {
        tree_content(self@.children)
    }

    fn kind_name(&self) -> (name: String) {
        String::from_str("tree")
    }

    fn content_bytes(&self) -> (content: Vec<u8>) {
        let mut bytes: Vec<u8> = Vec::new();
        let ghost all = self@.children;
        let mut i: usize = 0;
        assert(all.skip(0) =~= all);
        while i < self.children.len()
            invariant
                i <= self.children.len(),
                all == self@.children,
                bytes@ + tree_content(all.skip(i as int)) == tree_content(all),
            decreases self.children.len() - i,
        {
            let ghost rest = all.skip(i as int);
            assert(rest.first() == self.children[i as int]@);
            assert(rest.drop_first() =~= all.skip(i + 1));
            let ghost before = bytes@;
            push_tree_record(&mut bytes, &self.children[i]);
            assert(bytes@ + tree_content(all.skip(i + 1)) =~= before + tree_content(rest));
            i += 1;
        }
        assert(tree_content(all.skip(i as int)) =~= Seq::<u8>::empty());
        assert(bytes@ =~= bytes@ + Seq::<u8>::empty());
        bytes
    }
}

/// Appends one header line.
fn push_header_line(text: &mut String, key: &str, value: &str)
    ensures
        final(text)@ == old(text)@ + header_line(key@, value@),
{
    text.append(key);
    text.push(' ');
    text.append(value);
    text.push('\n');
    assert(text@ =~= old(text)@ + header_line(key@, value@));
}

impl Commit {
    /// The text of the commit, as it is stored.
    pub fn text(&self) -> (text: String)
        ensures
            text@ == commit_text(self@),
    {
        let mut text = String::new();
        let tree = encode_hex(self.tree.as_slice());
        push_header_line(&mut text, "tree", tree.as_str());
        assert(text@ =~= header_line("tree"@, hex_string(self@.tree)));
        match &self.parent {
            Some(parent) => {
                let parent_hex = encode_hex(parent.as_slice());
                push_header_line(&mut text, "parent", parent_hex.as_str());
            },
            None => {
                assert(text@ =~= text@ + Seq::<char>::empty());
            },
        }
        push_header_line(&mut text, "author", self.author.as_str());
        push_header_line(&mut text, "committer", self.committer.as_str());
        match &self.date {
            Some(date) => {
                push_header_line(&mut text, "date", date.as_str());
            },
            None => {
                assert(text@ =~= text@ + Seq::<char>::empty());
            },
        }
        text.push('\n');
        text.append(self.message.as_str());
        assert(text@ =~= commit_text(self@));
        text
    }
}

impl GitObject for Commit {
    open spec fn spec_kind_name(&self) -> Seq<char> {
        "commit"@
    }

    open spec fn spec_content(&self) -> Seq<u8> {
        encode_utf8(commit_text(self@))
    }

    fn kind_name(&self) -> (name: String) {
        String::from_str("commit")
    }

    fn content_bytes(&self) -> (content: Vec<u8>) {
        let text = self.text();
        vstd::slice::slice_to_vec(text.as_str().as_bytes())
    }
}

impl GitObject for Object {
    open spec fn spec_kind_name(&self) -> Seq<char> {
        self@.kind_name()
    }

    open spec fn spec_content(&self) -> Seq<u8> {
        self@.content()
    }

    fn kind_name(&self) -> (name: String) {
        match self {
            Object::Blob(x) => x.kind_name(),
            Object::Commit(x) => x.kind_name(),
            Object::Tree(x) => x.kind_name(),
            Object::Tag(x) => x.kind_name(),
        }
    }

    fn content_bytes(&self) -> (content: Vec<u8>) {
        match self {
            Object::Blob(x) => x.content_bytes(),
            Object::Commit(x) => x.content_bytes(),
            Object::Tree(x) => x.content_bytes(),
            Object::Tag(x) => x.content_bytes(),
        }
    }
}


/// The kinds of objects.
#[derive(Clone, Copy, Debug, PartialEq, Eq, Structural)]
pub enum ObjectKind {
    Blob,
    Tree,
    Commit,
    Tag,
}

impl ObjectView {
    /// The kind of the object.
    pub open spec fn kind(self) -> ObjectKind {
        match self {
            ObjectView::Blob(_) => ObjectKind::Blob,
            ObjectView::Commit(_) => ObjectKind::Commit,
            ObjectView::Tree(_) => ObjectKind::Tree,
            ObjectView::Tag(_) => ObjectKind::Tag,
        }
    }
}

impl Object {
    /// The kind of the object.
    pub fn kind(&self) -> (kind: ObjectKind)
        ensures
            kind == self@.kind(),
    {
        match self {
            Object::Blob(_) => ObjectKind::Blob,
            Object::Commit(_) => ObjectKind::Commit,
            Object::Tree(_) => ObjectKind::Tree,
            Object::Tag(_) => ObjectKind::Tag,
        }
    }
}

/// One line of a commit's description: the label, a colon, a space, the value
/// and a newline.
pub open spec fn labelled_line(label: Seq<char>, value: Seq<char>) -> Seq<char> {
    label + seq![':', ' '] + value + seq!['\n']
}

/// A labelled line that is only there where the value is.
pub open spec fn optional_labelled_line(label: Seq<char>, value: Option<Seq<char>>) -> Seq<char> {
    match value {
        Some(v) => labelled_line(label, v),
        None => Seq::empty(),
    }
}

/// A commit as it is shown to the user: the tree, the parent where there is one,
/// the author and the committer, each on a line of its own, then an empty line
/// and the message.
pub open spec fn commit_description(commit: CommitView) -> Seq<char> {
    labelled_line("tree"@, hex_string(commit.tree)) + optional_labelled_line(
        "parent"@,
        optional_hex(commit.parent),
    ) + labelled_line("author"@, commit.author) + labelled_line("committer"@, commit.committer)
        + seq!['\n'] + commit.message + seq!['\n']
}

/// Appends one labelled line.
fn push_labelled_line(text: &mut String, label: &str, value: &str)
    ensures
        final(text)@ == old(text)@ + labelled_line(label@, value@),
{
    text.append(label);
    text.push(':');
    text.push(' ');
    text.append(value);
    text.push('\n');
    assert(text@ =~= old(text)@ + labelled_line(label@, value@));
}

impl Commit {
    /// The commit as it is shown to the user.
    pub fn describe(&self) -> (text: String)
        ensures
            text@ == commit_description(self@),
    {
        let mut text = String::new();
        let tree = encode_hex(self.tree.as_slice());
        push_labelled_line(&mut text, "tree", tree.as_str());
        assert(text@ =~= labelled_line("tree"@, hex_string(self@.tree)));
        match &self.parent {
            Some(parent) => {
                let parent_hex = encode_hex(parent.as_slice());
                push_labelled_line(&mut text, "parent", parent_hex.as_str());
            },
            None => {
                assert(text@ =~= text@ + Seq::<char>::empty());
            },
        }
        push_labelled_line(&mut text, "author", self.author.as_str());
        push_labelled_line(&mut text, "committer", self.committer.as_str());
        text.push('\n');
        text.append(self.message.as_str());
        text.push('\n');
        assert(text@ =~= commit_description(self@));
        text
    }
}

/// The lines that the log shows for a commit: its id as it was asked for, its
/// committer, its date where it has one, and its message behind a tab, with an
/// empty line before the message and one after it.
pub open spec fn spec_log_entry(commit: CommitView, id: Seq<char>) -> Seq<Seq<char>> {
    let head = seq!["commit "@ + id, "Author: "@ + commit.committer];
    let dated = match commit.date {
        Some(date) => head.push("Date: "@ + date),
        None => head,
    };
    dated + seq![Seq::empty(), seq!['\t'] + commit.message, Seq::empty()]
}

/// The views of a run of lines.
pub open spec fn lines_view(lines: Seq<String>) -> Seq<Seq<char>> {
    lines.map_values(|line: String| line@)
}

/// A line made of a label and a value.
fn joined(label: &str, value: &str) -> (line: String)
    ensures
        line@ == label@ + value@,
{
    let mut line = String::from_str(label);
    line.append(value);
    line
}

impl Commit {
    /// The lines that the log shows for the commit; `id` is the id as text.
    pub fn log_entry(&self, id: &String) -> (lines: Vec<String>)
        ensures
            lines_view(lines@) == spec_log_entry(self@, id@),
    {
        let mut lines: Vec<String> = Vec::new();
        lines.push(joined("commit ", id.as_str()));
        lines.push(joined("Author: ", self.committer.as_str()));
        match &self.date {
            Some(date) => {
                lines.push(joined("Date: ", date.as_str()));
            },
            None => {},
        }
        lines.push(String::new());
        let mut message = String::new();
        message.push('\t');
        message.append(self.message.as_str());
        assert(message@ =~= seq!['\t'] + self.message@);
        lines.push(message);
        lines.push(String::new());
        assert(lines_view(lines@) =~= spec_log_entry(self@, id@));
        lines
    }
}


/// Two objects of the same type and with the same content have the same id: the
/// id depends on nothing else.
pub proof fn lemma_same_content_same_id(a: ObjectView, b: ObjectView)
    requires
        a.kind_name() == b.kind_name(),
        a.content() == b.content(),
    ensures
        a.id() == b.id(),
{
}

} // verus!
