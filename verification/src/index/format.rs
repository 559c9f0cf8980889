//! The file format of the staging area.
//!
//! All numbers are written with the most significant byte first. The file
//! starts with the magic bytes `DIRC`, the version and the number of entries.
//! Each entry holds ten numbers of four bytes, the id, the flags, the path and
//! one to eight NUL bytes that bring its length to a multiple of eight. The
//! file ends with the SHA-1 digest of all that precedes it.

use vstd::prelude::*;
use vstd::utf8::{encode_utf8, valid_utf8};
use crate::bytes::{append_bytes, same_bytes};
use crate::error::{Corruption, Error};
use crate::hashing::{sha1, sha1_digest};
use crate::index::{items_view, Index, IndexItem, IndexItemView, IndexView};
use crate::text::lemma_ascii_bytes;

verus! {

/// The four bytes of a 32-bit number, the most significant first.
#[verifier::opaque]
pub open spec fn be32(value: u32) -> Seq<u8> {
    seq![
        (value / 0x100_0000) as u8,
        (value / 0x1_0000 % 0x100) as u8,
        (value / 0x100 % 0x100) as u8,
        (value % 0x100) as u8,
    ]
}

/// The two bytes of a 16-bit number, the most significant first.
#[verifier::opaque]
pub open spec fn be16(value: u16) -> Seq<u8> {
    seq![(value / 0x100) as u8, (value % 0x100) as u8]
}

/// The 32-bit number that the four bytes at `at` spell, the most significant first.
#[verifier::opaque]
pub open spec fn be32_at(bytes: Seq<u8>, at: int) -> u32 {
    (bytes[at] * 0x100_0000 + bytes[at + 1] * 0x1_0000 + bytes[at + 2] * 0x100 + bytes[at + 3]) as u32
}

/// The 16-bit number that the two bytes at `at` spell, the most significant first.
#[verifier::opaque]
pub open spec fn be16_at(bytes: Seq<u8>, at: int) -> u16 {
    (bytes[at] * 0x100 + bytes[at + 1]) as u16
}

/// The magic bytes `DIRC` that open the staging file.
pub open spec fn index_magic() -> Seq<u8> {
    seq![0x44u8, 0x49u8, 0x52u8, 0x43u8]
}

/// The number of NUL bytes after a path of the given length: between one and
/// eight, so that the entry's length is a multiple of eight.
pub open spec fn padding_len(path_len: int) -> int {
    8 - (62 + path_len) % 8
}

/// The flags of an entry: the length of its path, capped at `0xFFF`.
pub open spec fn entry_flags(path_len: int) -> u16 {
    if path_len < 0xFFF {
        path_len as u16
    } else {
        0xFFF
    }
}

/// `count` NUL bytes.
pub open spec fn zeros(count: int) -> Seq<u8> {
    Seq::new(count as nat, |i: int| 0u8)
}

/// One entry of the staging file: ten numbers of four bytes, the id, the flags,
/// the path and its padding.
#[verifier::opaque]
pub open spec fn entry_bytes(item: IndexItemView) -> Seq<u8> {
    be32(item.ctime) + be32(item.ctime_nsec) + be32(item.mtime) + be32(item.mtime_nsec) + be32(
        item.dev,
    ) + be32(item.ino) + be32(item.mode) + be32(item.uid) + be32(item.gid) + be32(item.size)
        + item.hash + be16(entry_flags(item.path.len() as int)) + item.path + zeros(
        padding_len(item.path.len() as int),
    )
}

/// The entries of the staging file, one after the other.
pub open spec fn entries_bytes(items: Seq<IndexItemView>) -> Seq<u8>
    decreases items.len(),
{
    if items.len() == 0 {
        Seq::empty()
    } else {
        entries_bytes(items.drop_last()) + entry_bytes(items.last())
    }
}

/// The staging file without its checksum: magic, version, count and entries.
pub open spec fn index_body(index: IndexView) -> Seq<u8> {
    index_magic() + be32(index.version) + be32(index.items.len() as u32) + entries_bytes(index.items)
}

/// The staging file: its body, then the SHA-1 digest of the body.
pub open spec fn index_bytes(index: IndexView) -> Seq<u8> {
    index_body(index) + sha1_digest(index_body(index))@
}

/// Appends the UTF-8 bytes of `val`.
pub fn append_string(current: &mut Vec<u8>, val: String)
    ensures
        final(current)@ == old(current)@ + encode_utf8(val@),
{
    append_bytes(current, val.as_str().as_bytes());
}

/// Appends `val` as four bytes, the most significant first.
pub fn append_u32(current: &mut Vec<u8>, val: u32)
    ensures
        final(current)@ == old(current)@ + be32(val),
{
    current.push((val / 0x100_0000) as u8);
    current.push((val / 0x1_0000 % 0x100) as u8);
    current.push((val / 0x100 % 0x100) as u8);
    current.push((val % 0x100) as u8);
    assert(current@ =~= old(current)@ + be32(val)) by {
        reveal(be32);
    }
}

/// Appends `val` as two bytes, the most significant first.
fn append_u16(current: &mut Vec<u8>, val: u16)
    ensures
        final(current)@ == old(current)@ + be16(val),
{
    current.push((val / 0x100) as u8);
    current.push((val % 0x100) as u8);
    assert(current@ =~= old(current)@ + be16(val)) by {
        reveal(be16);
    }
}

/// Appends one entry of the staging file.
fn append_entry(current: &mut Vec<u8>, item: &IndexItem)
    ensures
        final(current)@ == old(current)@ + entry_bytes(item@),
{
    let mut entry: Vec<u8> = Vec::new();
    append_u32(&mut entry, item.ctime);
    assert(entry@ =~= be32(item.ctime));
    append_u32(&mut entry, item.ctime_nsec);
    append_u32(&mut entry, item.mtime);
    append_u32(&mut entry, item.mtime_nsec);
    append_u32(&mut entry, item.dev);
    append_u32(&mut entry, item.ino);
    append_u32(&mut entry, item.mode);
    append_u32(&mut entry, item.uid);
    append_u32(&mut entry, item.gid);
    append_u32(&mut entry, item.size);
    append_bytes(&mut entry, item.hash.as_slice());
    let path = item.path.as_str().as_bytes();
    let flags: u16 = if path.len() < 0xFFF {
        path.len() as u16
    } else {
        0xFFF
    };
    append_u16(&mut entry, flags);
    append_bytes(&mut entry, path);
    let ghost unpadded = entry@;
    // One to eight NUL bytes bring the entry to a multiple of eight.
    let npad: usize = 8 - (6 + path.len() % 8) % 8;
    assert(npad == padding_len(path@.len() as int)) by {
        lemma_padding_len(path@.len() as int);
    }
    let mut k: usize = 0;
    while k < npad
        invariant
            k <= npad,
            entry@ == unpadded + zeros(k as int),
        decreases npad - k,
    {
        entry.push(0u8);
        k += 1;
        assert(entry@ =~= unpadded + zeros(k as int));
    }
    assert(entry@ == entry_bytes(item@)) by {
        reveal(entry_bytes);
    }
    append_bytes(current, entry.as_slice());
}

impl Index {
    /// Writes the staging area in its file format. Paths longer than `0xFFF` bytes
    /// are written in full behind flags that say `0xFFF`: such a file does not read
    /// back, and no longer form is written in its place.
    pub fn serialize(&self) -> (encoded: Result<Vec<u8>, Error>)
        ensures
            self@.items.len() > u32::MAX ==> encoded == Err::<Vec<u8>, Error>(Error::TooManyEntries),
            self@.items.len() <= u32::MAX ==> (encoded matches Ok(bytes) && bytes@ == index_bytes(
                self@,
            )),
    {
        if self.items.len() > 0xFFFF_FFFF {
            return Err(Error::TooManyEntries);
        }
        let mut bytes: Vec<u8> = Vec::new();
        append_string(&mut bytes, String::from_str("DIRC"));
        proof {
            reveal_strlit("DIRC");
            lemma_ascii_bytes("DIRC"@);
            assert(encode_utf8("DIRC"@) =~= index_magic());
        }
        append_u32(&mut bytes, self.version);
        append_u32(&mut bytes, self.items.len() as u32);
        let ghost head = bytes@;
        let mut i: usize = 0;
        while i < self.items.len()
            invariant
                i <= self.items.len(),
                bytes@ == head + entries_bytes(self@.items.take(i as int)),
            decreases self.items.len() - i,
        {
            assert(self@.items.take(i + 1).drop_last() == self@.items.take(i as int));
            assert(self@.items.take(i + 1).last() == self.items[i as int]@);
            append_entry(&mut bytes, &self.items[i]);
            i += 1;
        }
        assert(self@.items.take(i as int) == self@.items);
        assert(bytes@ =~= index_body(self@));
        let checksum = sha1(bytes.as_slice());
        append_bytes(&mut bytes, checksum.as_slice());
        Ok(bytes)
    }
}

/// The padding is between one and eight bytes, and can be computed from the path's
/// length modulo eight.
pub proof fn lemma_padding_len(path_len: int)
    requires
        0 <= path_len,
    ensures
        1 <= padding_len(path_len) <= 8,
        padding_len(path_len) == 8 - (6 + path_len % 8) % 8,
        (62 + path_len + padding_len(path_len)) % 8 == 0,
{
}


/// The length of the path of the entry at `pos`: the low twelve bits of its flags.
pub open spec fn path_len_at(bytes: Seq<u8>, pos: int) -> int {
    be16_at(bytes, pos + 60) as int % 0x1000
}

/// The fields of the entry at `pos`, read in their fixed order.
pub open spec fn item_at(bytes: Seq<u8>, pos: int) -> IndexItemView {
    IndexItemView {
        ctime: be32_at(bytes, pos),
        ctime_nsec: be32_at(bytes, pos + 4),
        mtime: be32_at(bytes, pos + 8),
        mtime_nsec: be32_at(bytes, pos + 12),
        dev: be32_at(bytes, pos + 16),
        ino: be32_at(bytes, pos + 20),
        mode: be32_at(bytes, pos + 24),
        uid: be32_at(bytes, pos + 28),
        gid: be32_at(bytes, pos + 32),
        size: be32_at(bytes, pos + 36),
        hash: bytes.subrange(pos + 40, pos + 60),
        path: bytes.subrange(pos + 62, pos + 62 + path_len_at(bytes, pos)),
    }
}

/// Where the entry at `pos` ends: behind its path and the padding.
pub open spec fn entry_end(bytes: Seq<u8>, pos: int) -> int {
    pos + 62 + path_len_at(bytes, pos) + padding_len(path_len_at(bytes, pos))
}

/// Reads the entry at `pos`: the entry and the position behind it, or why the
/// bytes hold none there.
pub open spec fn parse_entry(bytes: Seq<u8>, pos: int) -> Result<(IndexItemView, int), Error> {
    if pos + 62 > bytes.len() {
        Err(Error::Corrupt(Corruption::Truncated))
    } else if entry_end(bytes, pos) > bytes.len() {
        Err(Error::Corrupt(Corruption::Truncated))
    } else if !valid_utf8(item_at(bytes, pos).path) {
        Err(Error::Corrupt(Corruption::InvalidUtf8))
    } else {
        Ok((item_at(bytes, pos), entry_end(bytes, pos)))
    }
}

/// Reads the first `count` entries, which start behind the twelve bytes of the
/// header: the entries and the position behind the last, or the first failure.
pub open spec fn parse_entries(bytes: Seq<u8>, count: nat) -> Result<(Seq<IndexItemView>, int), Error>
    decreases count,
{
    if count == 0 {
        Ok((Seq::empty(), 12))
    } else {
        match parse_entries(bytes, (count - 1) as nat) {
            Err(e) => Err(e),
            Ok((items, pos)) => match parse_entry(bytes, pos) {
                Err(e) => Err(e),
                Ok((item, next)) => Ok((items.push(item), next)),
            },
        }
    }
}

/// Reads a staging file. It starts with the magic bytes, the version and the
/// number of entries; the entries follow; its last twenty bytes are the SHA-1
/// digest of all the bytes before them.
pub open spec fn parse_index(bytes: Seq<u8>) -> Result<IndexView, Error> {
    if bytes.len() < 4 || bytes.subrange(0, 4) != index_magic() {
        Err(Error::Corrupt(Corruption::BadMagic))
    } else if bytes.len() < 12 {
        Err(Error::Corrupt(Corruption::Truncated))
    } else {
        match parse_entries(bytes, be32_at(bytes, 8) as nat) {
            Err(e) => Err(e),
            Ok((items, end)) => {
                let body = bytes.len() - 20;
                if end > body {
                    Err(Error::Corrupt(Corruption::Truncated))
                } else if bytes.subrange(body, bytes.len() as int) != sha1_digest(
                    bytes.subrange(0, body),
                )@ {
                    Err(Error::Corrupt(Corruption::ChecksumMismatch))
                } else {
                    Ok(IndexView { version: be32_at(bytes, 4), items })
                }
            },
        }
    }
}

/// Reads four bytes at `pos` as a number, the most significant byte first, and
/// moves `pos` behind them.
pub fn read_u32(bytes: &[u8], pos: &mut usize) -> (val: u32)
    requires
        *old(pos) + 4 <= bytes@.len(),
    ensures
        *final(pos) == *old(pos) + 4,
        val == be32_at(bytes@, *old(pos) as int),
{
    let at = *pos;
    let val = (bytes[at] as u32) * 0x100_0000 + (bytes[at + 1] as u32) * 0x1_0000 + (bytes[at
        + 2] as u32) * 0x100 + (bytes[at + 3] as u32);
    *pos = at + 4;
    proof {
        reveal(be32_at);
    }
    val
}

/// Reads the twenty bytes of an object id at `pos` and moves `pos` behind them.
pub fn read_hash(bytes: &[u8], pos: &mut usize) -> (val: [u8; 20])
    requires
        *old(pos) + 20 <= bytes@.len(),
    ensures
        *final(pos) == *old(pos) + 20,
        val@ == bytes@.subrange(*old(pos) as int, *old(pos) + 20),
{
    let at = *pos;
    let mut val = [0u8; 20];
    let mut i: usize = 0;
    while i < 20
        invariant
            i <= 20,
            at + 20 <= bytes.len(),
            forall|k: int| 0 <= k < i ==> val[k] == bytes@[at + k],
        decreases 20 - i,
    {
        val[i] = bytes[at + i];
        i += 1;
    }
    *pos = at + 20;
    assert(val@ =~= bytes@.subrange(at as int, at + 20));
    val
}

/// Reads the entry at `pos` and moves `pos` behind it.
fn read_entry(bytes: &[u8], pos: &mut usize) -> (entry: Result<IndexItem, Error>)
    requires
        *old(pos) <= bytes@.len(),
    ensures
        entry matches Ok(item) ==> parse_entry(bytes@, *old(pos) as int) == Ok::<
            (IndexItemView, int),
            Error,
        >((item@, *final(pos) as int)) && *final(pos) <= bytes@.len(),
        entry matches Err(e) ==> parse_entry(bytes@, *old(pos) as int) == Err::<
            (IndexItemView, int),
            Error,
        >(e),
{
    let start = *pos;
    if bytes.len() - start < 62 {
        return Err(Error::Corrupt(Corruption::Truncated));
    }
    let flags: u16 = (bytes[start + 60] as u16) * 0x100 + (bytes[start + 61] as u16);
    proof {
        reveal(be16_at);
    }
    let path_len: usize = (flags % 0x1000) as usize;
    // The padding brings the entry's length to the next multiple of eight.
    let npad: usize = 8 - (6 + path_len % 8) % 8;
    proof {
        lemma_padding_len(path_len as int);
    }
    if bytes.len() - start - 62 < path_len + npad {
        return Err(Error::Corrupt(Corruption::Truncated));
    }
    let ctime = read_u32(bytes, pos);
    let ctime_nsec = read_u32(bytes, pos);
    let mtime = read_u32(bytes, pos);
    let mtime_nsec = read_u32(bytes, pos);
    let dev = read_u32(bytes, pos);
    let ino = read_u32(bytes, pos);
    let mode = read_u32(bytes, pos);
    let uid = read_u32(bytes, pos);
    let gid = read_u32(bytes, pos);
    let size = read_u32(bytes, pos);
    let hash = read_hash(bytes, pos);
    let path_start = start + 62;
    let path_bytes = vstd::slice::slice_to_vec(vstd::slice::slice_subrange(bytes, path_start, path_start + path_len));
    let path = match String::from_utf8(path_bytes) {
        Ok(path) => path,
        Err(_) => {
            return Err(Error::Corrupt(Corruption::InvalidUtf8));
        },
    };
    proof {
        vstd::utf8::decode_utf8_encode_utf8(item_at(bytes@, start as int).path);
    }
    *pos = path_start + path_len + npad;
    Ok(IndexItem { ctime, ctime_nsec, mtime, mtime_nsec, dev, ino, mode, uid, gid, size, hash, path })
}

/// Reads `count` entries, the first of which starts behind the header.
fn read_entries(bytes: &[u8], count: u32) -> (entries: Result<(Vec<IndexItem>, usize), Error>)
    requires
        12 <= bytes@.len(),
    ensures
        entries matches Ok((items, end)) ==> parse_entries(bytes@, count as nat) == Ok::<
            (Seq<IndexItemView>, int),
            Error,
        >((items_view(items@), end as int)) && end <= bytes@.len(),
        entries matches Err(e) ==> parse_entries(bytes@, count as nat) == Err::<
            (Seq<IndexItemView>, int),
            Error,
        >(e),
{
    let mut pos: usize = 12;
    let mut items: Vec<IndexItem> = Vec::new();
    let mut i: u32 = 0;
    assert(items_view(items@) =~= Seq::empty());
    while i < count
        invariant
            i <= count,
            pos <= bytes@.len(),
            parse_entries(bytes@, i as nat) == Ok::<(Seq<IndexItemView>, int), Error>(
                (items_view(items@), pos as int),
            ),
        decreases count - i,
    {
        let ghost held = items_view(items@);
        let ghost start = pos as int;
        let entry = read_entry(bytes, &mut pos);
        assert(parse_entries(bytes@, (i + 1) as nat) == match parse_entry(bytes@, start) {
            Err(e) => Err::<(Seq<IndexItemView>, int), Error>(e),
            Ok((item, next)) => Ok((held.push(item), next)),
        });
        match entry {
            Err(e) => {
                proof {
                    lemma_parse_entries_fails(bytes@, (i + 1) as nat, count as nat);
                }
                return Err(e);
            },
            Ok(item) => {
                items.push(item);
                assert(items_view(items@) =~= held.push(item@));
            },
        }
        i += 1;
    }
    Ok((items, pos))
}

impl Index {
    /// Reads a staging area from the bytes of its file.
    pub fn deserialize(bytes: Vec<u8>) -> (decoded: Result<Index, Error>)
        ensures
            decoded matches Ok(index) ==> parse_index(bytes@) == Ok::<IndexView, Error>(index@),
            decoded matches Err(e) ==> parse_index(bytes@) == Err::<IndexView, Error>(e),
    {
        let data = bytes.as_slice();
        if data.len() < 4 || data[0] != 0x44 || data[1] != 0x49 || data[2] != 0x52 || data[3]
            != 0x43 {
            assert(data@.len() >= 4 ==> data@.subrange(0, 4)[0] == data@[0] && data@.subrange(0, 4)[1]
                == data@[1] && data@.subrange(0, 4)[2] == data@[2] && data@.subrange(0, 4)[3]
                == data@[3]);
            return Err(Error::Corrupt(Corruption::BadMagic));
        }
        assert(data@.subrange(0, 4) =~= index_magic());
        if data.len() < 12 {
            return Err(Error::Corrupt(Corruption::Truncated));
        }
        let mut pos: usize = 4;
        let version = read_u32(data, &mut pos);
        let num_entries = read_u32(data, &mut pos);
        let (items, end) = match read_entries(data, num_entries) {
            Ok(read) => read,
            Err(e) => {
                return Err(e);
            },
        };
        if data.len() - end < 20 {
            return Err(Error::Corrupt(Corruption::Truncated));
        }
        let body = data.len() - 20;
        let checksum = sha1(vstd::slice::slice_subrange(data, 0, body));
        if !same_bytes(vstd::slice::slice_subrange(data, body, data.len()), checksum.as_slice()) {
            return Err(Error::Corrupt(Corruption::ChecksumMismatch));
        }
        Ok(Index { version, items })
    }
}

/// Once reading some number of entries fails, reading more fails in the same way.
pub proof fn lemma_parse_entries_fails(bytes: Seq<u8>, failed: nat, count: nat)
    requires
        failed <= count,
        parse_entries(bytes, failed) is Err,
    ensures
        parse_entries(bytes, count) == parse_entries(bytes, failed),
    decreases count,
{
    if failed < count {
        lemma_parse_entries_fails(bytes, failed, (count - 1) as nat);
    }
}


/// What the file format can hold of an item: an id of twenty bytes, and a path
/// that is UTF-8 and no longer than the flags can express.
pub open spec fn storable(item: IndexItemView) -> bool {
    &&& item.hash.len() == 20
    &&& item.path.len() <= 0xFFF
    &&& valid_utf8(item.path)
}

/// Reading the four bytes that `be32` wrote gives the number back.
pub proof fn lemma_be32_at(bytes: Seq<u8>, at: int, value: u32)
    requires
        0 <= at,
        at + 4 <= bytes.len(),
        bytes.subrange(at, at + 4) == be32(value),
    ensures
        be32_at(bytes, at) == value,
{
    reveal(be32);
    reveal(be32_at);
    let field = bytes.subrange(at, at + 4);
    assert(field[0] == bytes[at] && field[1] == bytes[at + 1] && field[2] == bytes[at + 2]
        && field[3] == bytes[at + 3]);
    assert(bytes[at] == (value / 0x100_0000) as u8);
    assert(bytes[at + 1] == (value / 0x1_0000 % 0x100) as u8);
    assert(bytes[at + 2] == (value / 0x100 % 0x100) as u8);
    assert(bytes[at + 3] == (value % 0x100) as u8);
    assert((value / 0x100_0000) * 0x100_0000 + (value / 0x1_0000 % 0x100) * 0x1_0000 + (value
        / 0x100 % 0x100) * 0x100 + value % 0x100 == value) by (bit_vector);
}

/// Reading the two bytes that `be16` wrote gives the number back.
pub proof fn lemma_be16_at(bytes: Seq<u8>, at: int, value: u16)
    requires
        0 <= at,
        at + 2 <= bytes.len(),
        bytes.subrange(at, at + 2) == be16(value),
    ensures
        be16_at(bytes, at) == value,
{
    reveal(be16);
    reveal(be16_at);
    let field = bytes.subrange(at, at + 2);
    assert(field[0] == bytes[at] && field[1] == bytes[at + 1]);
    assert(bytes[at] == (value / 0x100) as u8);
    assert(bytes[at + 1] == (value % 0x100) as u8);
}

/// The lengths of numbers in the staging file.
pub proof fn lemma_be_len(value: u32, short: u16)
    ensures
        be32(value).len() == 4,
        be16(short).len() == 2,
{
    reveal(be32);
    reveal(be16);
}

/// Where each field of an entry lies within its bytes.
pub proof fn lemma_entry_layout(item: IndexItemView)
    requires
        item.hash.len() == 20,
    ensures
        entry_bytes(item).len() == 62 + item.path.len() + padding_len(item.path.len() as int),
        entry_bytes(item).subrange(0, 4) == be32(item.ctime),
        entry_bytes(item).subrange(4, 8) == be32(item.ctime_nsec),
        entry_bytes(item).subrange(8, 12) == be32(item.mtime),
        entry_bytes(item).subrange(12, 16) == be32(item.mtime_nsec),
        entry_bytes(item).subrange(16, 20) == be32(item.dev),
        entry_bytes(item).subrange(20, 24) == be32(item.ino),
        entry_bytes(item).subrange(24, 28) == be32(item.mode),
        entry_bytes(item).subrange(28, 32) == be32(item.uid),
        entry_bytes(item).subrange(32, 36) == be32(item.gid),
        entry_bytes(item).subrange(36, 40) == be32(item.size),
        entry_bytes(item).subrange(40, 60) == item.hash,
        entry_bytes(item).subrange(60, 62) == be16(entry_flags(item.path.len() as int)),
        entry_bytes(item).subrange(62, 62 + item.path.len() as int) == item.path,
{
    reveal(entry_bytes);
    lemma_padding_len(item.path.len() as int);
    lemma_be_len(item.ctime, entry_flags(item.path.len() as int));
    lemma_be_len(item.ctime_nsec, 0);
    lemma_be_len(item.mtime, 0);
    lemma_be_len(item.mtime_nsec, 0);
    lemma_be_len(item.dev, 0);
    lemma_be_len(item.ino, 0);
    lemma_be_len(item.mode, 0);
    lemma_be_len(item.uid, 0);
    lemma_be_len(item.gid, 0);
    lemma_be_len(item.size, 0);
    let e = entry_bytes(item);
    assert(e.len() == 62 + item.path.len() + padding_len(item.path.len() as int));
    assert(e.subrange(0, 4) =~= be32(item.ctime));
    assert(e.subrange(4, 8) =~= be32(item.ctime_nsec));
    assert(e.subrange(8, 12) =~= be32(item.mtime));
    assert(e.subrange(12, 16) =~= be32(item.mtime_nsec));
    assert(e.subrange(16, 20) =~= be32(item.dev));
    assert(e.subrange(20, 24) =~= be32(item.ino));
    assert(e.subrange(24, 28) =~= be32(item.mode));
    assert(e.subrange(28, 32) =~= be32(item.uid));
    assert(e.subrange(32, 36) =~= be32(item.gid));
    assert(e.subrange(36, 40) =~= be32(item.size));
    assert(e.subrange(40, 60) =~= item.hash);
    assert(e.subrange(60, 62) =~= be16(entry_flags(item.path.len() as int)));
    assert(e.subrange(62, 62 + item.path.len() as int) =~= item.path);
}

/// The number of bytes that an entry takes in the staging file.
pub open spec fn entry_len(item: IndexItemView) -> int {
    entry_bytes(item).len() as int
}

/// The number of bytes that a run of entries takes in the staging file.
pub open spec fn entries_len(items: Seq<IndexItemView>) -> int {
    entries_bytes(items).len() as int
}

/// Where two byte strings were written one after the other, each of them is found
/// in its place.
pub proof fn lemma_written_parts(bytes: Seq<u8>, start: int, head: Seq<u8>, tail: Seq<u8>)
    requires
        0 <= start,
        start + head.len() + tail.len() <= bytes.len(),
        bytes.subrange(start, start + (head + tail).len() as int) == head + tail,
    ensures
        bytes.subrange(start, start + head.len() as int) == head,
        bytes.subrange(start + head.len() as int, start + head.len() as int + tail.len() as int)
            == tail,
{
    let both = head + tail;
    let n = both.len() as int;
    let h = head.len() as int;
    assert(bytes.subrange(start, start + n).subrange(0, h) =~= bytes.subrange(start, start + h));
    assert(both.subrange(0, h) =~= head);
    assert(bytes.subrange(start, start + n).subrange(h, n) =~= bytes.subrange(start + h, start + n));
    assert(both.subrange(h, n) =~= tail);
}

/// An entry that was written at `pos` is read back from there.
pub proof fn lemma_parse_entry_written(bytes: Seq<u8>, pos: int, item: IndexItemView)
    requires
        storable(item),
        0 <= pos,
        pos + entry_len(item) <= bytes.len(),
        bytes.subrange(pos, pos + entry_len(item)) == entry_bytes(item),
    ensures
        parse_entry(bytes, pos) == Ok::<(IndexItemView, int), Error>((item, pos + entry_len(item))),
{
    lemma_entry_layout(item);
    let e = entry_bytes(item);
    let n = entry_len(item);
    let len = item.path.len() as int;
    assert forall|a: int, b: int| 0 <= a <= b <= n implies #[trigger] bytes.subrange(pos + a, pos + b)
        == e.subrange(a, b) by {
        assert(bytes.subrange(pos, pos + n).subrange(a, b) =~= bytes.subrange(pos + a, pos + b));
    }
    assert(bytes.subrange(pos + 0, pos + 4) == e.subrange(0, 4));
    lemma_be32_at(bytes, pos, item.ctime);
    assert(bytes.subrange(pos + 4, pos + 8) == e.subrange(4, 8));
    lemma_be32_at(bytes, pos + 4, item.ctime_nsec);
    assert(bytes.subrange(pos + 8, pos + 12) == e.subrange(8, 12));
    lemma_be32_at(bytes, pos + 8, item.mtime);
    assert(bytes.subrange(pos + 12, pos + 16) == e.subrange(12, 16));
    lemma_be32_at(bytes, pos + 12, item.mtime_nsec);
    assert(bytes.subrange(pos + 16, pos + 20) == e.subrange(16, 20));
    lemma_be32_at(bytes, pos + 16, item.dev);
    assert(bytes.subrange(pos + 20, pos + 24) == e.subrange(20, 24));
    lemma_be32_at(bytes, pos + 20, item.ino);
    assert(bytes.subrange(pos + 24, pos + 28) == e.subrange(24, 28));
    lemma_be32_at(bytes, pos + 24, item.mode);
    assert(bytes.subrange(pos + 28, pos + 32) == e.subrange(28, 32));
    lemma_be32_at(bytes, pos + 28, item.uid);
    assert(bytes.subrange(pos + 32, pos + 36) == e.subrange(32, 36));
    lemma_be32_at(bytes, pos + 32, item.gid);
    assert(bytes.subrange(pos + 36, pos + 40) == e.subrange(36, 40));
    lemma_be32_at(bytes, pos + 36, item.size);
    assert(bytes.subrange(pos + 40, pos + 60) == e.subrange(40, 60));
    assert(bytes.subrange(pos + 60, pos + 62) == e.subrange(60, 62));
    lemma_be16_at(bytes, pos + 60, entry_flags(len));
    assert(path_len_at(bytes, pos) == len);
    assert(bytes.subrange(pos + 62, pos + (62 + len)) == e.subrange(62, 62 + len));
    assert(item_at(bytes, pos) == item);
}

/// Entries that were written behind the header are read back from there.
pub proof fn lemma_parse_entries_written(bytes: Seq<u8>, items: Seq<IndexItemView>)
    requires
        forall|i: int| 0 <= i < items.len() ==> storable(#[trigger] items[i]),
        12 + entries_len(items) <= bytes.len(),
        bytes.subrange(12, 12 + entries_len(items)) == entries_bytes(items),
    ensures
        parse_entries(bytes, items.len()) == Ok::<(Seq<IndexItemView>, int), Error>(
            (items, 12 + entries_len(items)),
        ),
    decreases items.len(),
{
    if items.len() == 0 {
        assert(items =~= Seq::empty());
    } else {
        let front = items.drop_last();
        let last = items.last();
        let all = entries_bytes(items);
        let head = entries_bytes(front);
        let head_len = entries_len(front);
        assert(all == head + entry_bytes(last));
        lemma_written_parts(bytes, 12, head, entry_bytes(last));
        assert forall|i: int| 0 <= i < front.len() implies storable(#[trigger] front[i]) by {
            assert(front[i] == items[i]);
        }
        lemma_parse_entries_written(bytes, front);
        let pos = 12 + head_len;
        assert(storable(items[items.len() - 1]));
        lemma_parse_entry_written(bytes, pos, last);
        assert(front.push(last) =~= items);
    }
}

/// Reading what `serialize` wrote gives the staging area back, field for field,
/// provided that its paths are no longer than `0xFFF` bytes.
pub proof fn lemma_index_round_trip(index: IndexView)
    requires
        index.items.len() <= u32::MAX,
        forall|i: int| 0 <= i < index.items.len() ==> storable(#[trigger] index.items[i]),
    ensures
        parse_index(index_bytes(index)) == Ok::<IndexView, Error>(index),
{
    let body = index_body(index);
    let entries = entries_bytes(index.items);
    let bytes = index_bytes(index);
    let count = index.items.len() as u32;
    let n = entries_len(index.items);
    let total = bytes.len() as int;
    lemma_be_len(index.version, 0);
    lemma_be_len(count, 0);
    assert(body.len() == 12 + n);
    assert(total == body.len() + 20);
    assert(bytes.subrange(0, 4) =~= index_magic());
    assert(bytes.subrange(4, 8) =~= be32(index.version));
    assert(bytes.subrange(8, 12) =~= be32(count));
    lemma_be32_at(bytes, 4, index.version);
    lemma_be32_at(bytes, 8, count);
    assert(bytes.subrange(12, 12 + n) =~= entries);
    lemma_parse_entries_written(bytes, index.items);
    assert(bytes.subrange(0, total - 20) =~= body);
    assert(bytes.subrange(total - 20, total) =~= sha1_digest(body)@);
}


} // verus!
