//! Building the trees of a snapshot from the staging area.
//!
//! The staging area lists files by their full paths. A snapshot holds one tree
//! for the root and one for every directory below it. A level is described by
//! the offset at which its names start in the paths: zero for the root, and for
//! a directory the length of its own path and the `/` behind it.

use vstd::prelude::*;
use crate::bytes::{find_byte, lemma_find_byte, position_of, same_bytes};
use crate::error::Error;
use crate::index::{items_view, Index, IndexItem, IndexItemView};
use crate::objects::{
    entries_view,
    spec_stored,
    GitObject,
    ObjectView,
    StoredObject,
    Tree,
    TreeEntry,
    TreeEntryView,
    TreeView,
};
use crate::text::{lemma_utf8_between_ascii, string_of};
use crate::GlobalOpts;

verus! {

/// The mode that marks a directory in a tree.
pub const DIRECTORY_MODE: u32 = 0o40000;

/// The length of the longest path.
pub open spec fn path_bound(entries: Seq<IndexItemView>) -> nat
    decreases entries.len(),
{
    if entries.len() == 0 {
        0
    } else if entries.last().path.len() > path_bound(entries.drop_last()) {
        entries.last().path.len()
    } else {
        path_bound(entries.drop_last())
    }
}

/// No path is longer than the longest.
pub proof fn lemma_path_bound(entries: Seq<IndexItemView>, i: int)
    requires
        0 <= i < entries.len(),
    ensures
        entries[i].path.len() <= path_bound(entries),
    decreases entries.len(),
{
    if i < entries.len() - 1 {
        lemma_path_bound(entries.drop_last(), i);
    }
}

/// Where the name ends that starts at `start`: at the next `/`, or at the end of
/// the path.
pub open spec fn name_end(path: Seq<u8>, start: int) -> int {
    find_byte(path, 0x2f, start)
}

/// Whether a path lies in the directory whose path, with the `/` behind it, is
/// `prefix`.
pub open spec fn in_directory(path: Seq<u8>, prefix: Seq<u8>) -> bool {
    path.len() >= prefix.len() && path.subrange(0, prefix.len() as int) == prefix
}

/// The end of the run of entries, from `from` on and before `hi`, that lie in the
/// directory `prefix`.
pub open spec fn run_end(entries: Seq<IndexItemView>, prefix: Seq<u8>, from: int, hi: int) -> int
    decreases hi - from,
{
    if from < 0 || from >= hi || hi > entries.len() {
        from
    } else if !in_directory(entries[from].path, prefix) {
        from
    } else {
        run_end(entries, prefix, from + 1, hi)
    }
}

/// The run ends between where it starts and `hi`, and its entries lie in the
/// directory.
pub proof fn lemma_run_end(entries: Seq<IndexItemView>, prefix: Seq<u8>, from: int, hi: int)
    requires
        0 <= from <= hi <= entries.len(),
    ensures
        from <= run_end(entries, prefix, from, hi) <= hi,
        forall|i: int|
            from <= i < run_end(entries, prefix, from, hi) ==> in_directory(
                (#[trigger] entries[i]).path,
                prefix,
            ),
    decreases hi - from,
{
    if from < hi && in_directory(entries[from].path, prefix) {
        lemma_run_end(entries, prefix, from + 1, hi);
    }
}

/// The entry of a file: the mode and the id that were staged, under the last
/// component of the path.
pub open spec fn file_entry(item: IndexItemView, start: int) -> TreeEntryView {
    TreeEntryView { mode: item.mode, name: item.path.subrange(start, item.path.len() as int), hash: item.hash }
}

/// The entry of a directory: the directory mode and the id of the directory's
/// tree, under the directory's name.
pub open spec fn directory_entry(path: Seq<u8>, start: int, children: Seq<TreeEntryView>) -> TreeEntryView {
    TreeEntryView {
        mode: DIRECTORY_MODE,
        name: path.subrange(start, name_end(path, start)),
        hash: ObjectView::Tree(TreeView { children }).id()@,
    }
}

/// The entries of the tree of one level, made of the staged entries from `lo` up
/// to `hi` with names that start at `start`. An entry whose path has no `/` from
/// `start` on is a file of this level. Any other is the first of a run of
/// entries in one subdirectory: the run gives that directory's tree, one level
/// down, and the directory one entry here.
pub open spec fn children_from(entries: Seq<IndexItemView>, start: int, lo: int, hi: int) -> Seq<
    TreeEntryView,
>
    decreases path_bound(entries) - start, hi - lo,
{
    if start < 0 || lo < 0 || lo >= hi || hi > entries.len() {
        Seq::empty()
    } else {
        let path = entries[lo].path;
        let end = name_end(path, start);
        if end >= path.len() {
            seq![file_entry(entries[lo], start)] + children_from(entries, start, lo + 1, hi)
        } else {
            let next = run_end(entries, path.subrange(0, end + 1), lo + 1, hi);
            proof {
                lemma_find_byte(path, 0x2f, start);
                lemma_path_bound(entries, lo);
                lemma_run_end(entries, path.subrange(0, end + 1), lo + 1, hi);
            }
            seq![directory_entry(path, start, children_from(entries, end + 1, lo, next))]
                + children_from(entries, start, next, hi)
        }
    }
}

/// The trees of the subdirectories of one level, every directory's subdirectories
/// before the directory itself, in the order of the staged entries.
pub open spec fn trees_from(entries: Seq<IndexItemView>, start: int, lo: int, hi: int) -> Seq<TreeView>
    decreases path_bound(entries) - start, hi - lo,
{
    if start < 0 || lo < 0 || lo >= hi || hi > entries.len() {
        Seq::empty()
    } else {
        let path = entries[lo].path;
        let end = name_end(path, start);
        if end >= path.len() {
            trees_from(entries, start, lo + 1, hi)
        } else {
            let next = run_end(entries, path.subrange(0, end + 1), lo + 1, hi);
            proof {
                lemma_find_byte(path, 0x2f, start);
                lemma_path_bound(entries, lo);
                lemma_run_end(entries, path.subrange(0, end + 1), lo + 1, hi);
            }
            trees_from(entries, end + 1, lo, next).push(
                TreeView { children: children_from(entries, end + 1, lo, next) },
            ) + trees_from(entries, start, next, hi)
        }
    }
}

/// The tree of the root directory.
pub open spec fn root_tree(entries: Seq<IndexItemView>) -> TreeView {
    TreeView { children: children_from(entries, 0, 0, entries.len() as int) }
}

/// All the trees of a snapshot: those of the subdirectories, each behind the
/// trees of its own subdirectories, and the root's tree last.
pub open spec fn snapshot_trees(entries: Seq<IndexItemView>) -> Seq<TreeView> {
    trees_from(entries, 0, 0, entries.len() as int).push(root_tree(entries))
}

/// The views of a run of trees, in the same order.
pub open spec fn trees_view(trees: Seq<Tree>) -> Seq<TreeView> {
    trees.map_values(|tree: Tree| tree@)
}

/// Whether `path` starts with the first `len` bytes of `other`.
fn shares_prefix(path: &[u8], other: &[u8], len: usize) -> (shares: bool)
    requires
        len <= other@.len(),
    ensures
        shares == in_directory(path@, other@.subrange(0, len as int)),
{
    if path.len() < len {
        return false;
    }
    same_bytes(
        vstd::slice::slice_subrange(path, 0, len),
        vstd::slice::slice_subrange(other, 0, len),
    )
}

/// The levels of the entries from `lo` up to `hi` start at `start`: each path
/// reaches that far, and a `/` stands before it unless it is the path's start.
pub open spec fn level_starts(entries: Seq<IndexItemView>, start: int, lo: int, hi: int) -> bool {
    forall|i: int|
        lo <= i < hi ==> {
            &&& start <= (#[trigger] entries[i]).path.len()
            &&& (start == 0 || entries[i].path[start - 1] == 0x2f)
        }
}

/// Builds the tree of one level and, before it, the trees of its subdirectories,
/// which are added to `out`.
pub fn write_subtree(start: usize, index: &[IndexItem], lo: usize, hi: usize, out: &mut Vec<Tree>) -> (tree:
    Tree)
    requires
        lo <= hi <= index@.len(),
        level_starts(items_view(index@), start as int, lo as int, hi as int),
    ensures
        tree@.children == children_from(items_view(index@), start as int, lo as int, hi as int),
        trees_view(final(out)@) == trees_view(old(out)@) + trees_from(
            items_view(index@),
            start as int,
            lo as int,
            hi as int,
        ),
    decreases path_bound(items_view(index@)) - start, hi - lo,
{
    let ghost entries = items_view(index@);
    let ghost before = trees_view(out@);
    let mut children: Vec<TreeEntry> = Vec::new();
    let mut pos = lo;
    assert(entries_view(children@) + children_from(entries, start as int, lo as int, hi as int)
        =~= children_from(entries, start as int, lo as int, hi as int));
    while pos < hi
        invariant
            lo <= pos <= hi <= index@.len(),
            entries == items_view(index@),
            level_starts(entries, start as int, lo as int, hi as int),
            entries_view(children@) + children_from(entries, start as int, pos as int, hi as int)
                == children_from(entries, start as int, lo as int, hi as int),
            trees_view(out@) + trees_from(entries, start as int, pos as int, hi as int) == before
                + trees_from(entries, start as int, lo as int, hi as int),
        decreases hi - pos,
    {
        let first = &index[pos];
        let path = first.path.as_str().as_bytes();
        let ghost held = entries_view(children@);
        let ghost built = trees_view(out@);
        assert(entries[pos as int] == first@);
        assert(path@ == entries[pos as int].path);
        let end = position_of(path, 0x2f, start);
        proof {
            vstd::utf8::encode_utf8_valid_utf8(first.path@);
        }
        if end >= path.len() {
            // A file of this level.
            proof {
                lemma_utf8_between_ascii(path@, start as int, path@.len() as int);
            }
            let name = string_of(vstd::slice::slice_subrange(path, start, path.len()));
            let entry = TreeEntry { mode: first.mode, name, hash: first.hash };
            assert(entry@ == file_entry(entries[pos as int], start as int));
            children.push(entry);
            assert(entries_view(children@) =~= held.push(entry@));
            assert(held.push(entry@) + children_from(entries, start as int, pos + 1, hi as int)
                =~= held + children_from(entries, start as int, pos as int, hi as int));
            pos += 1;
        } else {
            // The first entry of a subdirectory: find the entries in it and build
            // its tree from them.
            let ghost prefix = path@.subrange(0, end + 1);
            let below_start = end + 1;
            let mut next = pos + 1;
            while next < hi && shares_prefix(index[next].path.as_str().as_bytes(), path, below_start)
                invariant
                    pos < next <= hi <= index@.len(),
                    end < path@.len(),
                    below_start == end + 1,
                    prefix == path@.subrange(0, end + 1),
                    entries == items_view(index@),
                    run_end(entries, prefix, next as int, hi as int) == run_end(
                        entries,
                        prefix,
                        pos + 1,
                        hi as int,
                    ),
                    forall|i: int| pos < i < next ==> in_directory((#[trigger] entries[i]).path, prefix),
                decreases hi - next,
            {
                assert(entries[next as int] == index[next as int]@);
                next += 1;
            }
            assert(next == run_end(entries, prefix, pos + 1, hi as int)) by {
                if next < hi {
                    assert(entries[next as int] == index[next as int]@);
                }
            }
            proof {
                lemma_path_bound(entries, pos as int);
                assert(in_directory(path@, prefix)) by {
                    assert(path@.subrange(0, prefix.len() as int) =~= prefix);
                }
                lemma_find_byte(path@, 0x2f, start as int);
                assert(prefix[end as int] == path@[end as int]);
                assert forall|i: int| pos <= i < next implies {
                    &&& end + 1 <= (#[trigger] entries[i]).path.len()
                    &&& entries[i].path[end as int] == 0x2f
                } by {
                    assert(in_directory(entries[i].path, prefix));
                    assert(entries[i].path.subrange(0, prefix.len() as int)[end as int]
                        == entries[i].path[end as int]);
                }
            }
            let subtree = write_subtree(below_start, index, pos, next, out);
            proof {
                lemma_utf8_between_ascii(path@, start as int, end as int);
            }
            let name = string_of(vstd::slice::slice_subrange(path, start, end));
            let hash = subtree.hash();
            let entry = TreeEntry { mode: DIRECTORY_MODE, name, hash };
            assert(entry@ == directory_entry(
                entries[pos as int].path,
                start as int,
                children_from(entries, end + 1, pos as int, next as int),
            ));
            let ghost below = trees_from(entries, end + 1, pos as int, next as int);
            let ghost subtree_view = subtree@;
            out.push(subtree);
            assert(trees_view(out@) =~= (built + below).push(subtree_view));
            assert((built + below).push(subtree_view) + trees_from(
                entries,
                start as int,
                next as int,
                hi as int,
            ) =~= built + trees_from(entries, start as int, pos as int, hi as int));
            children.push(entry);
            assert(entries_view(children@) =~= held.push(entry@));
            assert(held.push(entry@) + children_from(entries, start as int, next as int, hi as int)
                =~= held + children_from(entries, start as int, pos as int, hi as int));
            pos = next;
        }
    }
    assert(entries_view(children@) + Seq::<TreeEntryView>::empty() =~= entries_view(children@));
    assert(trees_view(out@) + Seq::<TreeView>::empty() =~= trees_view(out@));
    Tree { children }
}


/// The trees of a snapshot, made ready for the store.
pub struct TreeWrite {
    /// The tree of the root directory; its id is the snapshot's tree id.
    pub root: Tree,
    /// Every tree of the snapshot as the store is to hold it: a directory's
    /// subdirectories before the directory itself, and the root last.
    pub stored: Vec<StoredObject>,
}

/// Builds the trees of the staged files, the root's and one for every
/// directory, and makes each ready for the store. The staging area has to be
/// well-formed: from entries that are not in ascending order of their paths,
/// trees would come that never come from the same files staged in order.
pub fn write_tree(index: Index, global_opts: GlobalOpts) -> (written: Result<TreeWrite, Error>)
    requires
        index@.well_formed(),
    ensures
        written matches Ok(done) ==> {
            &&& done.root@ == root_tree(index@.items)
            &&& done.stored@.len() == snapshot_trees(index@.items).len()
            &&& forall|i: int|
                0 <= i < done.stored@.len() ==> spec_stored(
                    ObjectView::Tree(snapshot_trees(index@.items)[i]),
                    global_opts.git_mode,
                ) == Some((#[trigger] done.stored@[i])@)
        },
        written matches Err(e) ==> e == Error::Io && exists|i: int|
            0 <= i < snapshot_trees(index@.items).len() && spec_stored(
                ObjectView::Tree(#[trigger] snapshot_trees(index@.items)[i]),
                global_opts.git_mode,
            ) is None,
{
    let ghost entries = index@.items;
    let ghost all = snapshot_trees(entries);
    let mut trees: Vec<Tree> = Vec::new();
    assert(trees_view(trees@) =~= Seq::empty());
    let root = write_subtree(0, index.items.as_slice(), 0, index.items.len(), &mut trees);
    assert(trees_view(trees@) =~= trees_from(entries, 0, 0, entries.len() as int));
    assert(all == trees_view(trees@).push(root@));
    let mut stored: Vec<StoredObject> = Vec::new();
    let mut i: usize = 0;
    while i < trees.len()
        invariant
            i <= trees.len(),
            stored@.len() == i,
            all == snapshot_trees(index@.items),
            all == trees_view(trees@).push(root@),
            forall|k: int|
                0 <= k < i ==> spec_stored(ObjectView::Tree(all[k]), global_opts.git_mode) == Some(
                    (#[trigger] stored@[k])@,
                ),
        decreases trees.len() - i,
    {
        assert(all[i as int] == trees[i as int]@);
        match trees[i].write(global_opts) {
            Ok(record) => {
                stored.push(record);
            },
            Err(e) => {
                assert(spec_stored(ObjectView::Tree(all[i as int]), global_opts.git_mode) is None);
                return Err(e);
            },
        }
        i += 1;
    }
    assert(all[i as int] == root@);
    match root.write(global_opts) {
        Ok(record) => {
            stored.push(record);
        },
        Err(e) => {
            assert(spec_stored(ObjectView::Tree(all[i as int]), global_opts.git_mode) is None);
            return Err(e);
        },
    }
    Ok(TreeWrite { root, stored })
}

} // verus!
