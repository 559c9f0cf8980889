//! Object ids: SHA-1 digests and their forty-character hexadecimal form.

use vstd::prelude::*;
use crate::error::Error;

verus! {

/// The SHA-1 digest of a byte string.
pub uninterp spec fn sha1_digest(data: Seq<u8>) -> [u8; 20];

/// The lowercase hexadecimal digit for a value below sixteen.
pub open spec fn hex_digit(n: int) -> char {
    seq!['0', '1', '2', '3', '4', '5', '6', '7', '8', '9', 'a', 'b', 'c', 'd', 'e', 'f'][n]
}

/// Two lowercase digits for every byte, high nibble first.
pub open spec fn hex_string(bytes: Seq<u8>) -> Seq<char> {
    Seq::new(
        2 * bytes.len(),
        |i: int|
            if i % 2 == 0 {
                hex_digit(bytes[i / 2] as int / 16)
            } else {
                hex_digit(bytes[i / 2] as int % 16)
            },
    )
}

/// The value of a hexadecimal digit of either case, `None` for any other character.
pub open spec fn hex_value(c: char) -> Option<int> {
    if '0' <= c && c <= '9' {
        Some(c as int - '0' as int)
    } else if 'a' <= c && c <= 'f' {
        Some(c as int - 'a' as int + 10)
    } else if 'A' <= c && c <= 'F' {
        Some(c as int - 'A' as int + 10)
    } else {
        None
    }
}

/// An even number of hexadecimal digits and nothing else.
pub open spec fn is_hex_string(s: Seq<char>) -> bool {
    &&& s.len() % 2 == 0
    &&& forall|i: int| 0 <= i < s.len() ==> (#[trigger] hex_value(s[i])) is Some
}

/// The bytes that a hexadecimal string spells, two digits to the byte.
pub open spec fn hex_bytes(s: Seq<char>) -> Seq<u8> {
    Seq::new(
        s.len() / 2,
        |i: int| (16 * hex_value(s[2 * i]).unwrap() + hex_value(s[2 * i + 1]).unwrap()) as u8,
    )
}

/// What `parse_hash` returns for a string.
pub open spec fn spec_parse_hash(s: Seq<char>) -> Result<Seq<u8>, Error> {
    if is_hex_string(s) && s.len() == 40 {
        Ok(hex_bytes(s))
    } else {
        Err(Error::Encoding)
    }
}

/// The failure of `hex::decode`, of which nothing is looked at.
#[verifier::external_type_specification]
#[verifier::external_body]
pub struct ExFromHexError(hex::FromHexError);

/// Computes SHA-1 with `sha1::Sha1` (`new`, `update`, `finalize`).
/// Trusted: the digest depends on the bytes alone; `sha1_digest` names it.
#[verifier::external_body]
pub(crate) fn sha1(data: &[u8]) -> (digest: [u8; 20])
    ensures
        digest == sha1_digest(data@),
{
    let mut hasher = <sha1::Sha1 as sha1::Digest>::new();
    sha1::Digest::update(&mut hasher, data);
    sha1::Digest::finalize(hasher).into()
}

/// Calls `hex::encode`.
/// Trusted: the result holds two lowercase digits per byte, the high nibble first.
#[verifier::external_body]
pub(crate) fn encode_hex(bytes: &[u8]) -> (text: String)
    ensures
        text@ == hex_string(bytes@),
{
    hex::encode(bytes)
}

/// Calls `hex::decode`.
/// Trusted: it succeeds exactly on an even number of hexadecimal digits of either
/// case, and then returns the byte that each pair of digits spells.
#[verifier::external_body]
pub(crate) fn decode_hex(text: &str) -> (decoded: Result<Vec<u8>, hex::FromHexError>)
    ensures
        decoded is Ok <==> is_hex_string(text@),
        decoded matches Ok(bytes) ==> bytes@ == hex_bytes(text@),
{
    hex::decode(text)
}

/// The forty lowercase hexadecimal characters of an object id.
pub fn hash_hex(hash: &[u8; 20]) -> (text: String)
    ensures
        text@ == hex_string(hash@),
        text@.len() == 40,
{
    encode_hex(hash.as_slice())
}

/// Reads an object id from its hexadecimal form, in either case.
pub fn parse_hash(hash: &String) -> (parsed: Result<[u8; 20], Error>)
    ensures
        parsed matches Ok(id) ==> spec_parse_hash(hash@) == Ok::<Seq<u8>, Error>(id@),
        parsed matches Err(e) ==> spec_parse_hash(hash@) == Err::<Seq<u8>, Error>(e),
{
    match decode_hex(hash.as_str()) {
        Err(_) => Err(Error::Encoding),
        Ok(bytes) => {
            if bytes.len() != 20 {
                return Err(Error::Encoding);
            }
            let mut id = [0u8; 20];
            let mut i: usize = 0;
            while i < 20
                invariant
                    i <= 20,
                    bytes.len() == 20,
                    forall|k: int| 0 <= k < i ==> id[k] == bytes[k],
                decreases 20 - i,
            {
                id[i] = bytes[i];
                i += 1;
            }
            assert(id@ =~= bytes@);
            Ok(id)
        },
    }
}

/// The hexadecimal form of any bytes is ASCII text.
pub proof fn lemma_hex_is_ascii(bytes: Seq<u8>)
    ensures
        vstd::utf8::is_ascii_chars(hex_string(bytes)),
        hex_string(bytes).len() == 2 * bytes.len(),
{
    let s = hex_string(bytes);
    assert forall|i: int| 0 <= i < s.len() implies '\0' <= #[trigger] s[i] <= '\u{7f}' by {
        let b = bytes[i / 2] as int;
        assert(0 <= b / 16 < 16 && 0 <= b % 16 < 16);
    }
}

/// Decoding the hexadecimal form of any bytes gives the bytes back.
pub proof fn lemma_hex_round_trip(bytes: Seq<u8>)
    ensures
        is_hex_string(hex_string(bytes)),
        hex_bytes(hex_string(bytes)) == bytes,
{
    let s = hex_string(bytes);
    assert forall|n: int| 0 <= n < 16 implies hex_value(#[trigger] hex_digit(n)) == Some(n) by {
    }
    assert forall|i: int| 0 <= i < s.len() implies (#[trigger] hex_value(s[i])) is Some by {
        let b = bytes[i / 2] as int;
        assert(0 <= b / 16 < 16 && 0 <= b % 16 < 16);
    }
    assert forall|i: int| 0 <= i < bytes.len() implies hex_bytes(s)[i] == bytes[i] by {
        let b = bytes[i] as int;
        assert((2 * i) / 2 == i && (2 * i + 1) / 2 == i);
        assert((2 * i) % 2 == 0 && (2 * i + 1) % 2 == 1);
        assert(0 <= b / 16 < 16 && 0 <= b % 16 < 16);
        assert(s[2 * i] == hex_digit(b / 16));
        assert(s[2 * i + 1] == hex_digit(b % 16));
        assert(16 * (b / 16) + b % 16 == b);
    }
    assert(hex_bytes(s) =~= bytes);
}

} // verus!
