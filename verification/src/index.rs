//! The staging area: an ordered list of staged files.

pub mod format;

pub use crate::index::format::{append_string, append_u32, read_hash, read_u32};

use vstd::prelude::*;
use vstd::utf8::encode_utf8;
use crate::text::lemma_utf8_injective;

verus! {

/// One staged file: the metadata the file system reported, the id of its content,
/// and its path relative to the repository root, with `/` between components.
pub struct IndexItem {
    pub ctime: u32,
    pub ctime_nsec: u32,
    pub mtime: u32,
    pub mtime_nsec: u32,
    pub dev: u32,
    pub ino: u32,
    pub mode: u32,
    pub uid: u32,
    pub gid: u32,
    pub size: u32,
    pub hash: [u8; 20],
    pub path: String,
}

/// The staging area. A well-formed one keeps its items in strictly ascending
/// byte order of their paths, so that no path occurs twice.
pub struct Index {
    pub version: u32,
    pub items: Vec<IndexItem>,
}

/// A staged file as plain values; the path is held as its UTF-8 bytes.
pub struct IndexItemView {
    pub ctime: u32,
    pub ctime_nsec: u32,
    pub mtime: u32,
    pub mtime_nsec: u32,
    pub dev: u32,
    pub ino: u32,
    pub mode: u32,
    pub uid: u32,
    pub gid: u32,
    pub size: u32,
    pub hash: Seq<u8>,
    pub path: Seq<u8>,
}

/// The staging area as plain values.
pub struct IndexView {
    pub version: u32,
    pub items: Seq<IndexItemView>,
}

impl View for IndexItem {
    type V = IndexItemView;

    open spec fn view(&self) -> IndexItemView {
        IndexItemView {
            ctime: self.ctime,
            ctime_nsec: self.ctime_nsec,
            mtime: self.mtime,
            mtime_nsec: self.mtime_nsec,
            dev: self.dev,
            ino: self.ino,
            mode: self.mode,
            uid: self.uid,
            gid: self.gid,
            size: self.size,
            hash: self.hash@,
            path: encode_utf8(self.path@),
        }
    }
}

/// The views of a run of items, in the same order.
pub open spec fn items_view(items: Seq<IndexItem>) -> Seq<IndexItemView> {
    items.map_values(|item: IndexItem| item@)
}

impl View for Index {
    type V = IndexView;

    open spec fn view(&self) -> IndexView {
        IndexView { version: self.version, items: items_view(self.items@) }
    }
}

impl Clone for IndexItem {
    fn clone(&self) -> (copy: Self)
        ensures
            copy == *self,
    {
        IndexItem {
            ctime: self.ctime,
            ctime_nsec: self.ctime_nsec,
            mtime: self.mtime,
            mtime_nsec: self.mtime_nsec,
            dev: self.dev,
            ino: self.ino,
            mode: self.mode,
            uid: self.uid,
            gid: self.gid,
            size: self.size,
            hash: self.hash,
            path: self.path.clone(),
        }
    }
}

/// The first position at or after `from` where two byte strings differ, or where
/// the shorter one ends.
pub open spec fn first_difference(a: Seq<u8>, b: Seq<u8>, from: int) -> int
    decreases a.len() - from,
{
    if 0 <= from < a.len() && from < b.len() && a[from] == b[from] {
        first_difference(a, b, from + 1)
    } else {
        from
    }
}

/// Byte-wise order of paths: at the first position where they differ the smaller
/// byte decides, and a path that is a proper prefix of another comes first.
pub open spec fn path_lt(a: Seq<u8>, b: Seq<u8>) -> bool {
    let k = first_difference(a, b, 0);
    k < b.len() && (k == a.len() || a[k] < b[k])
}

/// Strictly ascending paths: every item's path is below that of each later item.
pub open spec fn sorted_by_path(items: Seq<IndexItemView>) -> bool {
    forall|i: int, j: int| 0 <= i < j < items.len() ==> path_lt(items[i].path, items[j].path)
}

impl IndexView {
    /// The invariant of the staging area: strictly ascending paths.
    pub open spec fn well_formed(self) -> bool {
        sorted_by_path(self.items)
    }
}

/// What `first_difference` finds: the strings agree before it, and differ at it
/// unless one of them ends there.
pub proof fn lemma_first_difference(a: Seq<u8>, b: Seq<u8>, from: int)
    requires
        0 <= from <= a.len(),
        from <= b.len(),
    ensures
        from <= first_difference(a, b, from) <= a.len(),
        first_difference(a, b, from) <= b.len(),
        forall|j: int| from <= j < first_difference(a, b, from) ==> a[j] == b[j],
        first_difference(a, b, from) < a.len() && first_difference(a, b, from) < b.len() ==> a[first_difference(
            a,
            b,
            from,
        )] != b[first_difference(a, b, from)],
    decreases a.len() - from,
{
    if from < a.len() && from < b.len() && a[from] == b[from] {
        lemma_first_difference(a, b, from + 1);
    }
}

/// A position with the properties of the first difference is the first difference.
pub proof fn lemma_first_difference_unique(a: Seq<u8>, b: Seq<u8>, from: int, k: int)
    requires
        0 <= from <= k <= a.len(),
        k <= b.len(),
        forall|j: int| from <= j < k ==> a[j] == b[j],
        k < a.len() && k < b.len() ==> a[k] != b[k],
    ensures
        first_difference(a, b, from) == k,
    decreases k - from,
{
    if from < k {
        lemma_first_difference_unique(a, b, from + 1, k);
    }
}

/// Of two different paths exactly one is below the other, and no path is below itself.
pub proof fn lemma_path_lt_trichotomy(a: Seq<u8>, b: Seq<u8>)
    ensures
        a != b ==> (path_lt(a, b) || path_lt(b, a)),
        !(path_lt(a, b) && path_lt(b, a)),
        a == b ==> !path_lt(a, b),
{
    lemma_first_difference(a, b, 0);
    let k = first_difference(a, b, 0);
    lemma_first_difference_unique(b, a, 0, k);
    if k == a.len() && k == b.len() {
        assert(a =~= b);
    }
}

/// The byte-wise order of paths is transitive.
pub proof fn lemma_path_lt_transitive(a: Seq<u8>, b: Seq<u8>, c: Seq<u8>)
    requires
        path_lt(a, b),
        path_lt(b, c),
    ensures
        path_lt(a, c),
{
    lemma_first_difference(a, b, 0);
    lemma_first_difference(b, c, 0);
    let k1 = first_difference(a, b, 0);
    let k2 = first_difference(b, c, 0);
    let k = if k1 < k2 {
        k1
    } else {
        k2
    };
    lemma_first_difference_unique(a, c, 0, k);
}


/// The sign that `mem_cmp` gives: `1` where the left string is below the right one,
/// `-1` where it is above, `0` where they are equal.
pub open spec fn spec_mem_cmp(left: Seq<u8>, right: Seq<u8>) -> int {
    if path_lt(left, right) {
        1
    } else if path_lt(right, left) {
        -1
    } else {
        0
    }
}

/// A position up to which two strings agree, and at which they differ unless one
/// ends, is where both orders of comparison stop.
pub proof fn lemma_difference_at(a: Seq<u8>, b: Seq<u8>, k: usize)
    requires
        k <= a.len(),
        k <= b.len(),
        forall|j: int| 0 <= j < k ==> a[j] == b[j],
        k < a.len() && k < b.len() ==> a[k as int] != b[k as int],
    ensures
        first_difference(a, b, 0) == k,
        first_difference(b, a, 0) == k,
{
    lemma_first_difference_unique(a, b, 0, k as int);
    lemma_first_difference_unique(b, a, 0, k as int);
}

/// Compares two byte strings as strings of unsigned bytes. The result is positive
/// where `left` sorts first, negative where `right` does, and zero where they are equal.
pub fn mem_cmp(left: &[u8], right: &[u8]) -> (order: isize)
    ensures
        order == spec_mem_cmp(left@, right@),
        order == 0 <==> left@ == right@,
{
    let min_len: usize = if left.len() < right.len() {
        left.len()
    } else {
        right.len()
    };
    let mut i: usize = 0;
    while i < min_len
        invariant
            i <= min_len,
            min_len <= left@.len(),
            min_len <= right@.len(),
            forall|k: int| 0 <= k < i ==> left@[k] == right@[k],
        decreases min_len - i,
    {
        if left[i] < right[i] {
            proof {
                lemma_difference_at(left@, right@, i);
                lemma_path_lt_trichotomy(left@, right@);
            }
            return 1;
        }
        if left[i] > right[i] {
            proof {
                lemma_difference_at(left@, right@, i);
                lemma_path_lt_trichotomy(left@, right@);
            }
            return -1;
        }
        i += 1;
    }
    proof {
        lemma_difference_at(left@, right@, i);
        lemma_path_lt_trichotomy(left@, right@);
    }
    if left.len() > right.len() {
        return -1;
    }
    if left.len() < right.len() {
        return 1;
    }
    0
}

/// Whether the path `a` sorts strictly before the path `b`.
pub fn precedes(a: &str, b: &str) -> (before: bool)
    ensures
        before == path_lt(encode_utf8(a@), encode_utf8(b@)),
{
    mem_cmp(a.as_bytes(), b.as_bytes()) > 0
}

/// The items whose path is not `path`, in their order.
pub open spec fn without_path(items: Seq<IndexItemView>, path: Seq<u8>) -> Seq<IndexItemView>
    decreases items.len(),
{
    if items.len() == 0 {
        items
    } else if items.last().path == path {
        without_path(items.drop_last(), path)
    } else {
        without_path(items.drop_last(), path).push(items.last())
    }
}

/// The position, at or after `from`, of the first item whose path is above `path`;
/// the number of items where there is none.
pub open spec fn insert_position(items: Seq<IndexItemView>, path: Seq<u8>, from: int) -> int
    decreases items.len() - from,
{
    if from < 0 || from >= items.len() {
        items.len() as int
    } else if path_lt(path, items[from].path) {
        from
    } else {
        insert_position(items, path, from + 1)
    }
}

/// Staging `item`: every entry with its path leaves, and it enters before the first
/// entry whose path is above its own, or at the end.
pub open spec fn spec_upsert(items: Seq<IndexItemView>, item: IndexItemView) -> Seq<IndexItemView> {
    let kept = without_path(items, item.path);
    kept.insert(insert_position(kept, item.path, 0), item)
}

/// Removing a path leaves items that were there before, none of them with that path.
pub proof fn lemma_without_path(items: Seq<IndexItemView>, path: Seq<u8>)
    ensures
        without_path(items, path).len() <= items.len(),
        forall|i: int|
            0 <= i < without_path(items, path).len() ==> (#[trigger] without_path(items, path)[i]).path
                != path,
        forall|i: int|
            0 <= i < without_path(items, path).len() ==> items.contains(
                #[trigger] without_path(items, path)[i],
            ),
        sorted_by_path(items) ==> sorted_by_path(without_path(items, path)),
    decreases items.len(),
{
    if items.len() > 0 {
        let front = items.drop_last();
        let rest = without_path(front, path);
        lemma_without_path(front, path);
        assert forall|i: int| 0 <= i < rest.len() implies items.contains(#[trigger] rest[i]) by {
            let j = choose|j: int| 0 <= j < front.len() && front[j] == rest[i];
            assert(items[j] == rest[i]);
        }
        assert(items.contains(items.last())) by {
            assert(items[items.len() - 1] == items.last());
        }
        if sorted_by_path(items) {
            assert(sorted_by_path(front)) by {
                assert forall|i: int, j: int| 0 <= i < j < front.len() implies path_lt(
                    front[i].path,
                    front[j].path,
                ) by {
                    assert(front[i] == items[i] && front[j] == items[j]);
                }
            }
            assert forall|i: int| 0 <= i < rest.len() implies path_lt(
                (#[trigger] rest[i]).path,
                items.last().path,
            ) by {
                let j = choose|j: int| 0 <= j < front.len() && front[j] == rest[i];
                assert(front[j] == items[j]);
            }
        }
    }
}

/// The insert position lies within the items; the items before it are not above
/// the path, and the item at it is.
pub proof fn lemma_insert_position(items: Seq<IndexItemView>, path: Seq<u8>, from: int)
    requires
        0 <= from <= items.len(),
    ensures
        from <= insert_position(items, path, from) <= items.len(),
        forall|i: int|
            from <= i < insert_position(items, path, from) ==> !path_lt(path, (#[trigger] items[i]).path),
        insert_position(items, path, from) < items.len() ==> path_lt(
            path,
            items[insert_position(items, path, from)].path,
        ),
    decreases items.len() - from,
{
    if from < items.len() && !path_lt(path, items[from].path) {
        lemma_insert_position(items, path, from + 1);
    }
}

/// Staging an item into a well-formed staging area leaves it well-formed.
pub proof fn lemma_upsert_sorted(items: Seq<IndexItemView>, item: IndexItemView)
    requires
        sorted_by_path(items),
    ensures
        sorted_by_path(spec_upsert(items, item)),
{
    let kept = without_path(items, item.path);
    let pos = insert_position(kept, item.path, 0);
    let after = spec_upsert(items, item);
    lemma_without_path(items, item.path);
    lemma_insert_position(kept, item.path, 0);
    assert forall|i: int, j: int| 0 <= i < j < after.len() implies path_lt(
        after[i].path,
        after[j].path,
    ) by {
        if j < pos {
            assert(after[i] == kept[i] && after[j] == kept[j]);
        } else if j == pos {
            assert(after[i] == kept[i]);
            lemma_path_lt_trichotomy(kept[i].path, item.path);
        } else if i < pos {
            assert(after[i] == kept[i] && after[j] == kept[j - 1]);
        } else if i == pos {
            assert(after[j] == kept[j - 1]);
            if j - 1 > pos {
                assert(path_lt(kept[pos].path, kept[j - 1].path));
                lemma_path_lt_transitive(item.path, kept[pos].path, kept[j - 1].path);
            }
        } else {
            assert(after[i] == kept[i - 1] && after[j] == kept[j - 1]);
        }
    }
}

/// The staging area that results from staging `items` one after the other, in the
/// order given, starting from `start`.
pub open spec fn upsert_all(start: Seq<IndexItemView>, items: Seq<IndexItemView>) -> Seq<IndexItemView>
    decreases items.len(),
{
    if items.len() == 0 {
        start
    } else {
        spec_upsert(upsert_all(start, items.drop_last()), items.last())
    }
}

/// Whatever is staged, and in whatever order, a staging area that was well-formed
/// stays well-formed: its paths ascend strictly, so none occurs twice.
pub proof fn lemma_upsert_all_sorted(start: Seq<IndexItemView>, items: Seq<IndexItemView>)
    requires
        sorted_by_path(start),
    ensures
        sorted_by_path(upsert_all(start, items)),
        forall|i: int, j: int|
            0 <= i < j < upsert_all(start, items).len() ==> upsert_all(start, items)[i].path
                != upsert_all(start, items)[j].path,
    decreases items.len(),
{
    if items.len() > 0 {
        lemma_upsert_all_sorted(start, items.drop_last());
        lemma_upsert_sorted(upsert_all(start, items.drop_last()), items.last());
    }
    let all = upsert_all(start, items);
    assert forall|i: int, j: int| 0 <= i < j < all.len() implies all[i].path != all[j].path by {
        lemma_path_lt_trichotomy(all[i].path, all[j].path);
    }
}

impl Index {
    /// A staging area with no entries, in format version 2.
    pub fn new() -> (index: Index)
        ensures
            index@.version == 2,
            index@.items.len() == 0,
            index@.well_formed(),
    {
        Index { version: 2, items: Vec::new() }
    }

    /// Stages `item`: replaces the entry that has its path, if there is one, and
    /// keeps the entries in ascending order of their paths.
    pub fn upsert(&mut self, item: IndexItem)
        ensures
            final(self)@.version == old(self)@.version,
            final(self)@.items == spec_upsert(old(self)@.items, item@),
            old(self)@.well_formed() ==> final(self)@.well_formed(),
    {
        let ghost before = self@.items;
        let ghost path = item@.path;
        let mut i: usize = 0;
        let ghost mut done: int = 0;
        while i < self.items.len()
            invariant
                0 <= done <= before.len(),
                i == without_path(before.take(done), path).len(),
                items_view(self.items@) == without_path(before.take(done), path) + before.skip(done),
                self.version == old(self).version,
                path == item@.path,
            decreases before.len() - done,
        {
            let ghost kept = without_path(before.take(done), path);
            let ghost current = items_view(self.items@);
            assert(current.len() == kept.len() + (before.len() - done));
            assert(current[i as int] == before.skip(done)[0]);
            assert(before.take(done + 1).drop_last() == before.take(done));
            assert(before.take(done + 1).last() == before[done]);
            let same = self.items[i].path == item.path;
            proof {
                lemma_utf8_injective(self.items[i as int].path@, item.path@);
            }
            if same {
                let ghost held = self.items@;
                self.items.remove(i);
                assert(self.items@ == held.remove(i as int));
                assert(items_view(self.items@) =~= current.remove(i as int));
                assert(current.remove(i as int) =~= kept + before.skip(done + 1));
            } else {
                i += 1;
                assert(current == kept.push(before[done]) + before.skip(done + 1));
            }
            proof {
                done = done + 1;
            }
        }
        assert(before.take(done) == before);
        let ghost kept = without_path(before, path);
        assert(items_view(self.items@) == kept);
        let n = self.items.len();
        let mut pos: usize = 0;
        let mut found = false;
        while pos < n && !found
            invariant
                pos <= n,
                n == self.items.len(),
                items_view(self.items@) == kept,
                path == item@.path,
                insert_position(kept, path, pos as int) == insert_position(kept, path, 0),
                found ==> pos < n && path_lt(path, kept[pos as int].path),
            decreases n - pos + (if found { 0int } else { 1int }),
        {
            assert(kept[pos as int] == self.items[pos as int]@);
            if precedes(item.path.as_str(), self.items[pos].path.as_str()) {
                found = true;
            } else {
                pos += 1;
            }
        }
        assert(pos == insert_position(kept, path, 0));
        let ghost item_view = item@;
        self.items.insert(pos, item);
        assert(items_view(self.items@) == kept.insert(pos as int, item_view));
        proof {
            if old(self)@.well_formed() {
                lemma_upsert_sorted(before, item_view);
            }
        }
    }
}


/// Items of which each is below the next are in strictly ascending order.
pub proof fn lemma_sorted_by_neighbours(items: Seq<IndexItemView>)
    requires
        forall|i: int| 0 < i < items.len() ==> path_lt(items[i - 1].path, #[trigger] items[i].path),
    ensures
        sorted_by_path(items),
    decreases items.len(),
{
    if items.len() > 1 {
        let front = items.drop_last();
        assert forall|i: int| 0 < i < front.len() implies path_lt(
            front[i - 1].path,
            #[trigger] front[i].path,
        ) by {
            assert(front[i] == items[i] && front[i - 1] == items[i - 1]);
        }
        lemma_sorted_by_neighbours(front);
        let last = items.len() - 1;
        assert forall|i: int, j: int| 0 <= i < j < items.len() implies path_lt(
            items[i].path,
            items[j].path,
        ) by {
            if j < last {
                assert(front[i] == items[i] && front[j] == items[j]);
            } else if i < last - 1 {
                assert(front[i] == items[i] && front[last - 1] == items[last - 1]);
                assert(path_lt(items[last - 1].path, items[last].path));
                lemma_path_lt_transitive(items[i].path, items[last - 1].path, items[last].path);
            } else {
                assert(path_lt(items[last - 1].path, items[last].path));
            }
        }
    }
}

impl Index {
    /// Whether the staging area is well-formed: its paths ascend strictly.
    pub fn is_sorted(&self) -> (sorted: bool)
        ensures
            sorted == self@.well_formed(),
    {
        let ghost items = self@.items;
        let mut i: usize = 1;
        while i < self.items.len()
            invariant
                1 <= i,
                items == self@.items,
                forall|k: int| 0 < k < i && k < items.len() ==> path_lt(
                    items[k - 1].path,
                    #[trigger] items[k].path,
                ),
            decreases self.items.len() - i,
        {
            assert(items[i as int] == self.items[i as int]@);
            assert(items[i - 1] == self.items[i - 1]@);
            if !precedes(self.items[i - 1].path.as_str(), self.items[i].path.as_str()) {
                assert(!path_lt(items[i - 1].path, items[i as int].path));
                assert(!sorted_by_path(items));
                return false;
            }
            i += 1;
        }
        proof {
            lemma_sorted_by_neighbours(items);
        }
        true
    }
}

} // verus!
