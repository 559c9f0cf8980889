//! Taking objects out of the store: inflating what a file holds and reading the
//! object from it.

use vstd::prelude::*;
use vstd::utf8::{decode_utf8, encode_utf8, valid_utf8};
use crate::bytes::{decimal, find_byte, lemma_decimal, lemma_find_byte_unique, position_of, same_bytes};
use crate::error::{Corruption, Error};
use crate::objects::commit::{lemma_parse_commit_written, parse_commit, spec_parse_commit};
use crate::objects::tree::{lemma_parse_tree_written, parse_tree, spec_parse_tree};
use crate::objects::{Blob, Object, ObjectView, Tag};
use crate::text::{decode_lossy, lossy_text};
use crate::zlib::{inflate, zlib_deflated, zlib_inflated};

verus! {

/// The failure of a stored object whose header lacks the space or the NUL.
pub open spec fn malformed_header<T>() -> Result<T, Error> {
    Err(Error::Corrupt(Corruption::MalformedHeader))
}

/// Reads an object from header and content. The type runs to the first space,
/// the length from there to the first NUL, and the rest is the content, which is
/// read as the type says. The length is not examined. The text of a commit and
/// the name of a tag are decoded with a replacement for what is not UTF-8.
pub open spec fn spec_parse_object(raw: Seq<u8>) -> Result<ObjectView, Error> {
    let type_end = find_byte(raw, 0x20, 0);
    let size_end = find_byte(raw, 0, type_end + 1);
    let kind = raw.subrange(0, type_end);
    let content = raw.subrange(size_end + 1, raw.len() as int);
    if type_end >= raw.len() || size_end >= raw.len() {
        malformed_header()
    } else if kind == encode_utf8("blob"@) {
        Ok(ObjectView::Blob(content))
    } else if kind == encode_utf8("tree"@) {
        match spec_parse_tree(content) {
            Ok(tree) => Ok(ObjectView::Tree(tree)),
            Err(e) => Err(e),
        }
    } else if kind == encode_utf8("tag"@) {
        Ok(ObjectView::Tag(lossy_text(content)))
    } else if kind == encode_utf8("commit"@) {
        match spec_parse_commit(lossy_text(content)) {
            Ok(commit) => Ok(ObjectView::Commit(commit)),
            Err(e) => Err(e),
        }
    } else {
        Err(Error::Corrupt(Corruption::UnknownType))
    }
}

/// What a file of the store inflates to: nothing where there is no file, a
/// failure where the file holds no zlib stream.
pub open spec fn spec_read_raw(stored: Option<Seq<u8>>) -> Result<Option<Seq<u8>>, Error> {
    match stored {
        None => Ok(None),
        Some(bytes) => match zlib_inflated(bytes) {
            Some(raw) => Ok(Some(raw)),
            None => Err(Error::Corrupt(Corruption::Inflate)),
        },
    }
}

/// The object that a file of the store holds: none where there is no file.
pub open spec fn spec_search(stored: Option<Seq<u8>>) -> Result<Option<ObjectView>, Error> {
    match spec_read_raw(stored) {
        Err(e) => Err(e),
        Ok(None) => Ok(None),
        Ok(Some(raw)) => match spec_parse_object(raw) {
            Ok(object) => Ok(Some(object)),
            Err(e) => Err(e),
        },
    }
}

/// The view of the bytes of a file that may be missing.
pub open spec fn stored_view(stored: Option<&[u8]>) -> Option<Seq<u8>> {
    match stored {
        Some(bytes) => Some(bytes@),
        None => None,
    }
}

impl ObjectView {
    /// An object that the store can hold and give back: a tree or a commit that
    /// is well-formed, any blob, any tag.
    pub open spec fn well_formed(self) -> bool {
        match self {
            ObjectView::Blob(_) => true,
            ObjectView::Commit(commit) => commit.well_formed(),
            ObjectView::Tree(tree) => tree.well_formed(),
            ObjectView::Tag(_) => true,
        }
    }
}

/// The type names as bytes.
pub proof fn lemma_kind_tokens()
    ensures
        encode_utf8("blob"@) == seq![0x62u8, 0x6cu8, 0x6fu8, 0x62u8],
        encode_utf8("tree"@) == seq![0x74u8, 0x72u8, 0x65u8, 0x65u8],
        encode_utf8("tag"@) == seq![0x74u8, 0x61u8, 0x67u8],
        encode_utf8("commit"@) == seq![0x63u8, 0x6fu8, 0x6du8, 0x6du8, 0x69u8, 0x74u8],
{
    reveal_strlit("blob");
    reveal_strlit("tree");
    reveal_strlit("tag");
    reveal_strlit("commit");
    crate::text::lemma_ascii_bytes("blob"@);
    crate::text::lemma_ascii_bytes("tree"@);
    crate::text::lemma_ascii_bytes("tag"@);
    crate::text::lemma_ascii_bytes("commit"@);
    assert(encode_utf8("blob"@) =~= seq![0x62u8, 0x6cu8, 0x6fu8, 0x62u8]);
    assert(encode_utf8("tree"@) =~= seq![0x74u8, 0x72u8, 0x65u8, 0x65u8]);
    assert(encode_utf8("tag"@) =~= seq![0x74u8, 0x61u8, 0x67u8]);
    assert(encode_utf8("commit"@) =~= seq![0x63u8, 0x6fu8, 0x6du8, 0x6du8, 0x69u8, 0x74u8]);
}

/// The length of an object's type name in bytes.
pub open spec fn kind_len(object: ObjectView) -> int {
    encode_utf8(object.kind_name()).len() as int
}

/// The number of digits of the length of an object's content.
pub open spec fn size_len(object: ObjectView) -> int {
    decimal(object.content().len()).len() as int
}

/// Where the header of a framed object ends, and what lies on either side.
pub proof fn lemma_frame_layout(object: ObjectView)
    ensures
        find_byte(object.framed(), 0x20, 0) == kind_len(object),
        find_byte(object.framed(), 0, kind_len(object) + 1) == kind_len(object) + 1 + size_len(
            object,
        ),
        kind_len(object) + 1 + size_len(object) < object.framed().len(),
        object.framed().subrange(0, kind_len(object)) == encode_utf8(object.kind_name()),
        object.framed().subrange(
            kind_len(object) + 1 + size_len(object) + 1,
            object.framed().len() as int,
        ) == object.content(),
{
    lemma_kind_tokens();
    let raw = object.framed();
    let kind = encode_utf8(object.kind_name());
    let size = decimal(object.content().len());
    let k = kind.len() as int;
    let d = size.len() as int;
    lemma_decimal(object.content().len());
    assert(raw.len() == k + 1 + d + 1 + object.content().len());
    assert forall|i: int| 0 <= i < k implies raw[i] != 0x20 by {
        assert(raw[i] == kind[i]);
    }
    assert(raw[k] == 0x20);
    lemma_find_byte_unique(raw, 0x20, 0, k);
    assert forall|i: int| k + 1 <= i < k + 1 + d implies raw[i] != 0 by {
        assert(raw[i] == size[i - k - 1]);
    }
    assert(raw[k + 1 + d] == 0);
    lemma_find_byte_unique(raw, 0, k + 1, k + 1 + d);
    assert(raw.subrange(0, k) =~= kind);
    assert(raw.subrange(k + 1 + d + 1, raw.len() as int) =~= object.content());
}

/// Reading header and content of a well-formed object gives the object back,
/// given that the text of a commit and the name of a tag, which are UTF-8,
/// decode to their characters.
pub proof fn lemma_parse_framed(object: ObjectView)
    requires
        object.well_formed(),
        (object is Commit || object is Tag) ==> lossy_text(object.content()) == decode_utf8(
            object.content(),
        ),
    ensures
        spec_parse_object(object.framed()) == Ok::<ObjectView, Error>(object),
{
    lemma_kind_tokens();
    lemma_frame_layout(object);
    let content = object.content();
    match object {
        ObjectView::Blob(_) => {},
        ObjectView::Tree(tree) => {
            assert(content.subrange(0, content.len() as int) =~= content);
            lemma_parse_tree_written(content, 0, tree.children);
        },
        ObjectView::Tag(name) => {
            vstd::utf8::encode_utf8_decode_utf8(name);
        },
        ObjectView::Commit(commit) => {
            vstd::utf8::encode_utf8_decode_utf8(crate::objects::commit_text(commit));
            lemma_parse_commit_written(commit);
        },
    }
}

/// Whether the bytes are the UTF-8 form of `name`.
fn is_token(kind: &[u8], name: &str) -> (same: bool)
    ensures
        same == (kind@ == encode_utf8(name@)),
{
    same_bytes(kind, name.as_bytes())
}

/// Reads an object from header and content. An object that is well-formed is
/// read back from its own header and content as it was.
pub fn parse_object(raw: &[u8]) -> (parsed: Result<Object, Error>)
    ensures
        parsed matches Ok(object) ==> spec_parse_object(raw@) == Ok::<ObjectView, Error>(object@),
        parsed matches Err(e) ==> spec_parse_object(raw@) == Err::<ObjectView, Error>(e),
        forall|object: ObjectView|
            object.well_formed() && raw@ == #[trigger] object.framed() ==> (parsed matches Ok(found)
                && found@ == object),
{
    let type_end = position_of(raw, 0x20, 0);
    if type_end >= raw.len() {
        proof {
            lemma_no_frame(raw@);
        }
        return Err(Error::Corrupt(Corruption::MalformedHeader));
    }
    let size_end = position_of(raw, 0, type_end + 1);
    if size_end >= raw.len() {
        proof {
            lemma_no_frame(raw@);
        }
        return Err(Error::Corrupt(Corruption::MalformedHeader));
    }
    let kind = vstd::slice::slice_subrange(raw, 0, type_end);
    let contents = vstd::slice::slice_subrange(raw, size_end + 1, raw.len());
    proof {
        lemma_kind_tokens();
    }
    if is_token(kind, "blob") {
        let blob = Blob { bytes: vstd::slice::slice_to_vec(contents) };
        proof {
            lemma_framed_is_parsed(raw@, contents@);
        }
        Ok(Object::Blob(blob))
    } else if is_token(kind, "tree") {
        proof {
            lemma_framed_is_parsed(raw@, contents@);
        }
        match parse_tree(contents) {
            Ok(tree) => Ok(Object::Tree(tree)),
            Err(e) => Err(e),
        }
    } else if is_token(kind, "tag") {
        let name = decode_lossy(contents);
        proof {
            lemma_framed_is_parsed(raw@, contents@);
        }
        Ok(Object::Tag(Tag::new(name)))
    } else if is_token(kind, "commit") {
        let text = decode_lossy(contents);
        proof {
            lemma_framed_is_parsed(raw@, contents@);
        }
        match parse_commit(&text) {
            Ok(commit) => Ok(Object::Commit(commit)),
            Err(e) => Err(e),
        }
    } else {
        proof {
            lemma_framed_is_parsed(raw@, contents@);
        }
        Err(Error::Corrupt(Corruption::UnknownType))
    }
}

/// Bytes whose header lacks a delimiter are not the header and content of any
/// object.
pub proof fn lemma_no_frame(raw: Seq<u8>)
    requires
        find_byte(raw, 0x20, 0) >= raw.len() || find_byte(raw, 0, find_byte(raw, 0x20, 0) + 1)
            >= raw.len(),
    ensures
        forall|object: ObjectView| raw == #[trigger] object.framed() ==> false,
{
    assert forall|object: ObjectView| raw == #[trigger] object.framed() implies false by {
        lemma_frame_layout(object);
    }
}

/// Bytes that are the header and content of a well-formed object are read as
/// that object, given that their content, where it is UTF-8, decodes to its
/// characters.
pub proof fn lemma_framed_is_parsed(raw: Seq<u8>, content: Seq<u8>)
    requires
        content == raw.subrange(
            find_byte(raw, 0, find_byte(raw, 0x20, 0) + 1) + 1,
            raw.len() as int,
        ),
        valid_utf8(content) && (raw.subrange(0, find_byte(raw, 0x20, 0)) == encode_utf8("tag"@)
            || raw.subrange(0, find_byte(raw, 0x20, 0)) == encode_utf8("commit"@)) ==> lossy_text(
            content,
        ) == decode_utf8(content),
    ensures
        forall|object: ObjectView|
            object.well_formed() && raw == #[trigger] object.framed() ==> spec_parse_object(raw)
                == Ok::<ObjectView, Error>(object),
{
    assert forall|object: ObjectView|
        object.well_formed() && raw == #[trigger] object.framed() implies spec_parse_object(raw)
        == Ok::<ObjectView, Error>(object) by {
        lemma_kind_tokens();
        lemma_frame_layout(object);
        match object {
            ObjectView::Tag(name) => {
                vstd::utf8::encode_utf8_valid_utf8(name);
            },
            ObjectView::Commit(commit) => {
                vstd::utf8::encode_utf8_valid_utf8(crate::objects::commit_text(commit));
            },
            _ => {},
        }
        lemma_parse_framed(object);
    }
}

/// Inflates what a file of the store holds. `stored` is the file's content, and
/// `None` where there is no file for the id.
pub fn read_object_raw(stored: Option<&[u8]>) -> (raw: Result<Option<Vec<u8>>, Error>)
    ensures
        raw matches Ok(Some(bytes)) ==> spec_read_raw(stored_view(stored)) == Ok::<
            Option<Seq<u8>>,
            Error,
        >(Some(bytes@)),
        raw matches Ok(None) ==> stored is None,
        raw matches Err(e) ==> spec_read_raw(stored_view(stored)) == Err::<Option<Seq<u8>>, Error>(e),
        forall|data: Seq<u8>|
            stored is Some && stored_view(stored) == #[trigger] zlib_deflated(data) ==> (raw matches Ok(
                Some(bytes),
            ) && bytes@ == data),
{
    match stored {
        None => Ok(None),
        Some(bytes) => match inflate(bytes) {
            Ok(raw) => Ok(Some(raw)),
            Err(_) => Err(Error::Corrupt(Corruption::Inflate)),
        },
    }
}

/// Looks an object up in what the store holds for its id: `stored` is the
/// content of the object's file, and `None` where there is no such file, which
/// is no failure. What `write` made of a well-formed object is found again as
/// that object.
pub fn search_object(stored: Option<&[u8]>) -> (found: Result<Option<Object>, Error>)
    ensures
        found matches Ok(Some(object)) ==> spec_search(stored_view(stored)) == Ok::<
            Option<ObjectView>,
            Error,
        >(Some(object@)),
        found matches Ok(None) ==> stored is None,
        found matches Err(e) ==> spec_search(stored_view(stored)) == Err::<Option<ObjectView>, Error>(
            e,
        ),
        forall|object: ObjectView|
            object.well_formed() && stored is Some && stored_view(stored) == zlib_deflated(
                #[trigger] object.framed(),
            ) ==> (found matches Ok(Some(same)) && same@ == object),
{
    match read_object_raw(stored) {
        Ok(Some(bytes)) => match parse_object(bytes.as_slice()) {
            Ok(object) => Ok(Some(object)),
            Err(e) => Err(e),
        },
        Ok(None) => Ok(None),
        Err(e) => Err(e),
    }
}

/// The object that another object refers to. That the store holds no file for
/// it is a failure here: the store is damaged.
pub fn get_object(stored: Option<&[u8]>) -> (found: Result<Object, Error>)
    ensures
        found matches Ok(object) ==> spec_search(stored_view(stored)) == Ok::<
            Option<ObjectView>,
            Error,
        >(Some(object@)),
        found matches Err(e) ==> (if stored is None {
            e == Error::Corrupt(Corruption::Absent)
        } else {
            spec_search(stored_view(stored)) == Err::<Option<ObjectView>, Error>(e)
        }),
        forall|object: ObjectView|
            object.well_formed() && stored is Some && stored_view(stored) == zlib_deflated(
                #[trigger] object.framed(),
            ) ==> (found matches Ok(same) && same@ == object),
{
    match search_object(stored) {
        Ok(Some(x)) => Ok(x),
        Ok(None) => Err(Error::Corrupt(Corruption::Absent)),
        Err(e) => Err(e),
    }
}

} // verus!
