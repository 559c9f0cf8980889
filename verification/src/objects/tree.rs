//! Reading the content of a tree.

use vstd::prelude::*;
use vstd::utf8::valid_utf8;
use crate::bytes::{
    find_byte,
    lemma_find_byte,
    lemma_find_byte_unique,
    lemma_octal,
    lemma_parse_octal_written,
    octal,
    parse_octal,
    position_of,
    read_octal,
};
use crate::error::{Error, Malformation};
use crate::index::read_hash;
use crate::objects::{entries_view, tree_content, tree_record, Tree, TreeEntry, TreeEntryView, TreeView};

verus! {

/// The failure of a tree record that lacks a delimiter, has a bad mode or a short id.
pub open spec fn bad_record<T>() -> Result<T, Error> {
    Err(Error::Malformed(Malformation::BadTreeRecord))
}

/// Reads the record at `pos`: the mode runs to the first space and is octal, the
/// name runs from there to the first NUL and is UTF-8, and twenty bytes of id
/// follow. Gives the entry and the position behind it.
pub open spec fn parse_tree_node_at(bytes: Seq<u8>, pos: int) -> Result<(TreeEntryView, int), Error> {
    let mode_end = find_byte(bytes, 0x20, pos);
    let name_end = find_byte(bytes, 0, mode_end + 1);
    if mode_end >= bytes.len() {
        bad_record()
    } else if parse_octal(bytes.subrange(pos, mode_end)) is None {
        bad_record()
    } else if name_end >= bytes.len() {
        bad_record()
    } else if !valid_utf8(bytes.subrange(mode_end + 1, name_end)) {
        Err(Error::Malformed(Malformation::InvalidUtf8))
    } else if name_end + 21 > bytes.len() {
        bad_record()
    } else {
        Ok(
            (
                TreeEntryView {
                    mode: parse_octal(bytes.subrange(pos, mode_end)).unwrap(),
                    name: bytes.subrange(mode_end + 1, name_end),
                    hash: bytes.subrange(name_end + 1, name_end + 21),
                },
                name_end + 21,
            ),
        )
    }
}

/// A record that is read ends behind where it starts, and within the bytes.
pub proof fn lemma_node_advances(bytes: Seq<u8>, pos: int)
    requires
        0 <= pos <= bytes.len(),
    ensures
        parse_tree_node_at(bytes, pos) matches Ok((_, next)) ==> pos < next <= bytes.len(),
{
    lemma_find_byte(bytes, 0x20, pos);
    let mode_end = find_byte(bytes, 0x20, pos);
    if mode_end < bytes.len() {
        lemma_find_byte(bytes, 0, mode_end + 1);
    }
}

/// Reads records from `pos` until the bytes are used up: the entries in their
/// order, or the first failure.
pub open spec fn parse_tree_from(bytes: Seq<u8>, pos: int) -> Result<Seq<TreeEntryView>, Error>
    decreases bytes.len() - pos,
{
    if pos < 0 || pos >= bytes.len() {
        Ok(Seq::empty())
    } else {
        match parse_tree_node_at(bytes, pos) {
            Err(e) => Err(e),
            Ok((entry, next)) => {
                proof {
                    lemma_node_advances(bytes, pos);
                }
                match parse_tree_from(bytes, next) {
                    Err(e) => Err(e),
                    Ok(rest) => Ok(seq![entry] + rest),
                }
            },
        }
    }
}

/// Reads the content of a tree.
pub open spec fn spec_parse_tree(bytes: Seq<u8>) -> Result<TreeView, Error> {
    match parse_tree_from(bytes, 0) {
        Err(e) => Err(e),
        Ok(children) => Ok(TreeView { children }),
    }
}

/// Reads the record at `pos` and moves `pos` behind it.
pub fn parse_tree_node(bytes: &[u8], pos: &mut usize) -> (node: Result<TreeEntry, Error>)
    requires
        *old(pos) <= bytes@.len(),
    ensures
        node matches Ok(entry) ==> parse_tree_node_at(bytes@, *old(pos) as int) == Ok::<
            (TreeEntryView, int),
            Error,
        >((entry@, *final(pos) as int)) && *old(pos) < *final(pos) <= bytes@.len(),
        node matches Err(e) ==> parse_tree_node_at(bytes@, *old(pos) as int) == Err::<
            (TreeEntryView, int),
            Error,
        >(e),
{
    let start = *pos;
    // The space that ends the file mode.
    let mode_end = position_of(bytes, 0x20, start);
    if mode_end >= bytes.len() {
        return Err(Error::Malformed(Malformation::BadTreeRecord));
    }
    let mode = match read_octal(vstd::slice::slice_subrange(bytes, start, mode_end)) {
        Some(mode) => mode,
        None => {
            return Err(Error::Malformed(Malformation::BadTreeRecord));
        },
    };
    // The NUL that ends the name.
    let name_end = position_of(bytes, 0, mode_end + 1);
    if name_end >= bytes.len() {
        return Err(Error::Malformed(Malformation::BadTreeRecord));
    }
    let name_bytes = vstd::slice::slice_to_vec(
        vstd::slice::slice_subrange(bytes, mode_end + 1, name_end),
    );
    let name = match String::from_utf8(name_bytes) {
        Ok(name) => name,
        Err(_) => {
            return Err(Error::Malformed(Malformation::InvalidUtf8));
        },
    };
    proof {
        vstd::utf8::decode_utf8_encode_utf8(bytes@.subrange(mode_end + 1, name_end as int));
    }
    if bytes.len() - name_end < 21 {
        return Err(Error::Malformed(Malformation::BadTreeRecord));
    }
    let mut at = name_end + 1;
    let hash = read_hash(bytes, &mut at);
    *pos = at;
    Ok(TreeEntry { mode, name, hash })
}

/// Reads the content of a tree: one record after the other until the bytes are
/// used up.
pub fn parse_tree(bytes: &[u8]) -> (tree: Result<Tree, Error>)
    ensures
        tree matches Ok(t) ==> spec_parse_tree(bytes@) == Ok::<TreeView, Error>(t@),
        tree matches Err(e) ==> spec_parse_tree(bytes@) == Err::<TreeView, Error>(e),
{
    let mut nodes: Vec<TreeEntry> = Vec::new();
    let mut pos: usize = 0;
    let max = bytes.len();
    assert(entries_view(nodes@) =~= Seq::empty());
    assert(match parse_tree_from(bytes@, 0) {
        Ok(rest) => Ok::<Seq<TreeEntryView>, Error>(Seq::<TreeEntryView>::empty() + rest),
        Err(e) => Err(e),
    } == parse_tree_from(bytes@, 0)) by {
        if let Ok(rest) = parse_tree_from(bytes@, 0) {
            assert(Seq::<TreeEntryView>::empty() + rest =~= rest);
        }
    }
    while pos < max
        invariant
            pos <= max,
            max == bytes@.len(),
            parse_tree_from(bytes@, 0) == match parse_tree_from(bytes@, pos as int) {
                Ok(rest) => Ok::<Seq<TreeEntryView>, Error>(entries_view(nodes@) + rest),
                Err(e) => Err(e),
            },
        decreases max - pos,
    {
        let ghost held = entries_view(nodes@);
        let ghost start = pos as int;
        let node = match parse_tree_node(bytes, &mut pos) {
            Ok(node) => node,
            Err(e) => {
                return Err(e);
            },
        };
        proof {
            if let Ok(rest) = parse_tree_from(bytes@, pos as int) {
                assert(held + (seq![node@] + rest) =~= held.push(node@) + rest);
            }
        }
        nodes.push(node);
        assert(entries_view(nodes@) =~= held.push(node@));
    }
    assert(entries_view(nodes@) + Seq::<TreeEntryView>::empty() =~= entries_view(nodes@));
    Ok(Tree { children: nodes })
}

impl TreeEntryView {
    /// What a tree can hold of an entry: a name that is UTF-8 and has no NUL in it,
    /// and an id of twenty bytes.
    pub open spec fn well_formed(self) -> bool {
        &&& valid_utf8(self.name)
        &&& forall|i: int| 0 <= i < self.name.len() ==> self.name[i] != 0
        &&& self.hash.len() == 20
    }
}

impl TreeView {
    /// A tree whose entries are all well-formed.
    pub open spec fn well_formed(self) -> bool {
        forall|i: int| 0 <= i < self.children.len() ==> (#[trigger] self.children[i]).well_formed()
    }
}

/// A record that was written at `pos` is read back from there.
pub proof fn lemma_parse_node_written(bytes: Seq<u8>, pos: int, entry: TreeEntryView)
    requires
        entry.well_formed(),
        0 <= pos,
        pos + tree_record(entry).len() <= bytes.len(),
        bytes.subrange(pos, pos + tree_record(entry).len() as int) == tree_record(entry),
    ensures
        parse_tree_node_at(bytes, pos) == Ok::<(TreeEntryView, int), Error>(
            (entry, pos + tree_record(entry).len() as int),
        ),
{
    let record = tree_record(entry);
    let mode = octal(entry.mode as nat);
    let m = mode.len() as int;
    let n = entry.name.len() as int;
    lemma_octal(entry.mode as nat);
    lemma_parse_octal_written(entry.mode);
    assert(record.len() == m + 1 + n + 1 + 20);
    assert forall|i: int| 0 <= i < record.len() implies bytes[pos + i] == record[i] by {
        assert(bytes.subrange(pos, pos + record.len() as int)[i] == bytes[pos + i]);
    }
    assert forall|i: int| pos <= i < pos + m implies bytes[i] != 0x20 by {
        assert(bytes[i] == record[i - pos]);
        assert(record[i - pos] == mode[i - pos]);
    }
    assert(bytes[pos + m] == record[m]);
    lemma_find_byte_unique(bytes, 0x20, pos, pos + m);
    assert(bytes.subrange(pos, pos + m) =~= mode);
    assert forall|i: int| pos + m + 1 <= i < pos + m + 1 + n implies bytes[i] != 0 by {
        assert(bytes[i] == record[i - pos]);
        assert(record[i - pos] == entry.name[i - pos - m - 1]);
    }
    assert(bytes[pos + m + 1 + n] == record[m + 1 + n]);
    lemma_find_byte_unique(bytes, 0, pos + m + 1, pos + m + 1 + n);
    assert forall|i: int| 0 <= i < n implies bytes.subrange(pos + m + 1, pos + m + 1 + n)[i]
        == entry.name[i] by {
        assert(bytes[pos + (m + 1 + i)] == record[m + 1 + i]);
    }
    assert(bytes.subrange(pos + m + 1, pos + m + 1 + n) =~= entry.name);
    assert forall|i: int| 0 <= i < 20 implies bytes.subrange(
        pos + m + 1 + n + 1,
        pos + m + 1 + n + 21,
    )[i] == entry.hash[i] by {
        assert(bytes[pos + (m + 1 + n + 1 + i)] == record[m + 1 + n + 1 + i]);
    }
    assert(bytes.subrange(pos + m + 1 + n + 1, pos + m + 1 + n + 21) =~= entry.hash);
}

/// The entries of a tree that was written from `pos` to the end of the bytes are
/// read back from there.
pub proof fn lemma_parse_tree_written(bytes: Seq<u8>, pos: int, children: Seq<TreeEntryView>)
    requires
        forall|i: int| 0 <= i < children.len() ==> (#[trigger] children[i]).well_formed(),
        0 <= pos,
        pos + tree_content(children).len() == bytes.len(),
        bytes.subrange(pos, bytes.len() as int) == tree_content(children),
    ensures
        parse_tree_from(bytes, pos) == Ok::<Seq<TreeEntryView>, Error>(children),
    decreases children.len(),
{
    if children.len() == 0 {
        assert(children =~= Seq::empty());
    } else {
        let first = children.first();
        let rest = children.drop_first();
        let record = tree_record(first);
        let r = record.len() as int;
        lemma_octal(first.mode as nat);
        assert(first.well_formed());
        assert(tree_content(children) == record + tree_content(rest));
        assert(bytes.subrange(pos, pos + r) =~= record) by {
            assert(bytes.subrange(pos, bytes.len() as int).subrange(0, r) =~= bytes.subrange(
                pos,
                pos + r,
            ));
            assert((record + tree_content(rest)).subrange(0, r) =~= record);
        }
        lemma_parse_node_written(bytes, pos, first);
        assert(bytes.subrange(pos + r, bytes.len() as int) =~= tree_content(rest)) by {
            assert(bytes.subrange(pos, bytes.len() as int).subrange(
                r,
                bytes.len() as int - pos,
            ) =~= bytes.subrange(pos + r, bytes.len() as int));
            assert((record + tree_content(rest)).subrange(r, bytes.len() as int - pos)
                =~= tree_content(rest));
        }
        assert forall|i: int| 0 <= i < rest.len() implies (#[trigger] rest[i]).well_formed() by {
            assert(rest[i] == children[i + 1]);
        }
        lemma_parse_tree_written(bytes, pos + r, rest);
        assert(seq![first] + rest =~= children);
    }
}

} // verus!
