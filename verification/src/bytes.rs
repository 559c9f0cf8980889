//! Searching byte strings, and numbers written as ASCII digits.

use vstd::prelude::*;

verus! {

/// The position of the first `needle` at or after `from`; the length of `bytes`
/// where there is none.
pub open spec fn find_byte(bytes: Seq<u8>, needle: u8, from: int) -> int
    decreases bytes.len() - from,
{
    if from < 0 || from >= bytes.len() {
        bytes.len() as int
    } else if bytes[from] == needle {
        from
    } else {
        find_byte(bytes, needle, from + 1)
    }
}

/// What `find_byte` finds: no `needle` lies between `from` and the position, and
/// the position holds one unless it is the end.
pub proof fn lemma_find_byte(bytes: Seq<u8>, needle: u8, from: int)
    requires
        0 <= from <= bytes.len(),
    ensures
        from <= find_byte(bytes, needle, from) <= bytes.len(),
        forall|i: int| from <= i < find_byte(bytes, needle, from) ==> bytes[i] != needle,
        find_byte(bytes, needle, from) < bytes.len() ==> bytes[find_byte(bytes, needle, from)]
            == needle,
    decreases bytes.len() - from,
{
    if from < bytes.len() && bytes[from] != needle {
        lemma_find_byte(bytes, needle, from + 1);
    }
}

/// A position with the properties of the first `needle` is what `find_byte` finds.
pub proof fn lemma_find_byte_unique(bytes: Seq<u8>, needle: u8, from: int, at: int)
    requires
        0 <= from <= at <= bytes.len(),
        forall|i: int| from <= i < at ==> bytes[i] != needle,
        at < bytes.len() ==> bytes[at] == needle,
    ensures
        find_byte(bytes, needle, from) == at,
    decreases at - from,
{
    if from < at {
        lemma_find_byte_unique(bytes, needle, from + 1, at);
    }
}

/// The position of the first `needle` at or after `from`, or the length of `bytes`.
pub fn position_of(bytes: &[u8], needle: u8, from: usize) -> (at: usize)
    requires
        from <= bytes@.len(),
    ensures
        at == find_byte(bytes@, needle, from as int),
        from <= at <= bytes@.len(),
{
    let mut at = from;
    while at < bytes.len() && bytes[at] != needle
        invariant
            from <= at <= bytes@.len(),
            forall|i: int| from <= i < at ==> bytes@[i] != needle,
        decreases bytes@.len() - at,
    {
        at += 1;
    }
    proof {
        lemma_find_byte_unique(bytes@, needle, from as int, at as int);
    }
    at
}

/// Whether two byte strings are equal.
pub fn same_bytes(a: &[u8], b: &[u8]) -> (same: bool)
    ensures
        same == (a@ == b@),
{
    if a.len() != b.len() {
        return false;
    }
    let mut i: usize = 0;
    while i < a.len()
        invariant
            i <= a@.len(),
            a@.len() == b@.len(),
            forall|k: int| 0 <= k < i ==> a@[k] == b@[k],
        decreases a@.len() - i,
    {
        if a[i] != b[i] {
            return false;
        }
        i += 1;
    }
    assert(a@ =~= b@);
    true
}

/// Appends `bytes` to `current`.
pub fn append_bytes(current: &mut Vec<u8>, bytes: &[u8])
    ensures
        final(current)@ == old(current)@ + bytes@,
{
    current.extend_from_slice(bytes);
    assert(current@ =~= old(current)@ + bytes@);
}

/// A number in decimal: ASCII digits without leading zeros, `0` for zero.
pub open spec fn decimal(value: nat) -> Seq<u8>
    decreases value,
{
    if value < 10 {
        seq![(48 + value) as u8]
    } else {
        decimal(value / 10).push((48 + value % 10) as u8)
    }
}

/// A number in octal: ASCII digits without leading zeros, `0` for zero.
pub open spec fn octal(value: nat) -> Seq<u8>
    decreases value,
{
    if value < 8 {
        seq![(48 + value) as u8]
    } else {
        octal(value / 8).push((48 + value % 8) as u8)
    }
}

/// Whether a byte is one of the ASCII digits `0` to `7`.
pub open spec fn is_octal_digit(byte: u8) -> bool {
    48 <= byte <= 55
}

/// The number that octal digits spell: `None` where there is no digit, where a
/// byte is not an octal digit, or where the number does not fit in 32 bits.
/// Leading zeros are accepted.
pub open spec fn parse_octal(text: Seq<u8>) -> Option<u32>
    decreases text.len(),
{
    if text.len() == 0 || !is_octal_digit(text.last()) {
        None
    } else if text.len() == 1 {
        Some((text.last() - 48) as u32)
    } else {
        match parse_octal(text.drop_last()) {
            None => None,
            Some(high) => if high * 8 + (text.last() - 48) <= u32::MAX {
                Some((high * 8 + (text.last() - 48)) as u32)
            } else {
                None
            },
        }
    }
}

/// A number in decimal has at least one byte, and each is an ASCII digit.
pub proof fn lemma_decimal(value: nat)
    ensures
        decimal(value).len() >= 1,
        forall|i: int| 0 <= i < decimal(value).len() ==> 48 <= #[trigger] decimal(value)[i] <= 57,
    decreases value,
{
    if value >= 10 {
        lemma_decimal(value / 10);
    }
}

/// A number in octal has at least one byte, and each is an octal digit.
pub proof fn lemma_octal(value: nat)
    ensures
        octal(value).len() >= 1,
        forall|i: int| 0 <= i < octal(value).len() ==> is_octal_digit(#[trigger] octal(value)[i]),
    decreases value,
{
    if value >= 8 {
        lemma_octal(value / 8);
    }
}

/// Reading the octal digits of a number gives the number back.
pub proof fn lemma_parse_octal_written(value: u32)
    ensures
        parse_octal(octal(value as nat)) == Some(value),
    decreases value,
{
    if value >= 8 {
        let high = (value / 8) as u32;
        lemma_parse_octal_written(high);
        lemma_octal(high as nat);
        assert(octal(value as nat).drop_last() =~= octal(high as nat));
    }
}

/// Once a prefix with at least one byte does not spell a number, no extension of it does.
pub proof fn lemma_parse_octal_fails(text: Seq<u8>, failed: int)
    requires
        1 <= failed <= text.len(),
        parse_octal(text.take(failed)) is None,
    ensures
        parse_octal(text) is None,
    decreases text.len(),
{
    if failed < text.len() {
        assert(text.drop_last().take(failed) =~= text.take(failed));
        lemma_parse_octal_fails(text.drop_last(), failed);
    } else {
        assert(text.take(failed) =~= text);
    }
}

/// Appends `value` in decimal.
pub fn push_decimal(out: &mut Vec<u8>, value: usize)
    ensures
        final(out)@ == old(out)@ + decimal(value as nat),
    decreases value,
{
    if value >= 10 {
        push_decimal(out, value / 10);
    }
    out.push((48 + value % 10) as u8);
    assert(out@ =~= old(out)@ + decimal(value as nat));
}

/// Appends `value` in octal.
pub fn push_octal(out: &mut Vec<u8>, value: u32)
    ensures
        final(out)@ == old(out)@ + octal(value as nat),
    decreases value,
{
    if value >= 8 {
        push_octal(out, value / 8);
    }
    out.push((48 + value % 8) as u8);
    assert(out@ =~= old(out)@ + octal(value as nat));
}

/// Reads a number from octal digits.
pub fn read_octal(text: &[u8]) -> (value: Option<u32>)
    ensures
        value == parse_octal(text@),
{
    if text.len() == 0 {
        return None;
    }
    let mut acc: u32 = 0;
    let mut i: usize = 0;
    while i < text.len()
        invariant
            i <= text@.len(),
            text@.len() > 0,
            i > 0 ==> parse_octal(text@.take(i as int)) == Some(acc),
            i == 0 ==> acc == 0,
        decreases text@.len() - i,
    {
        let byte = text[i];
        proof {
            assert(text@.take(i + 1).drop_last() =~= text@.take(i as int));
            assert(text@.take(i + 1).last() == byte);
        }
        if byte < 48 || byte > 55 || acc > 0x1FFF_FFFF {
            proof {
                lemma_parse_octal_fails(text@, i + 1);
            }
            return None;
        }
        acc = acc * 8 + (byte - 48) as u32;
        i += 1;
    }
    assert(text@.take(i as int) =~= text@);
    Some(acc)
}

} // verus!
