//! Conversions between bytes and text that the standard library performs.

use vstd::prelude::*;
use vstd::utf8::{decode_utf8, valid_utf8};

verus! {

/// The failure of `String::from_utf8`, of which nothing is looked at.
#[verifier::external_type_specification]
#[verifier::external_body]
pub struct ExFromUtf8Error(std::string::FromUtf8Error);

/// `String::from_utf8` accepts exactly the byte strings that are UTF-8, and the
/// string it then returns holds the characters that the bytes encode.
pub assume_specification[ String::from_utf8 ](vec: Vec<u8>) -> (text: Result<
    String,
    std::string::FromUtf8Error,
>)
    ensures
        text is Ok <==> valid_utf8(vec@),
        text matches Ok(s) ==> s@ == decode_utf8(vec@),
;

/// The text that a byte string decodes to when every invalid sequence in it is
/// replaced by U+FFFD.
pub uninterp spec fn lossy_text(bytes: Seq<u8>) -> Seq<char>;

/// Calls `String::from_utf8_lossy` and takes the result as an owned string.
/// Trusted: the text depends on the bytes alone, `lossy_text` names it, and bytes
/// that are UTF-8 decode to the characters that they encode.
#[verifier::external_body]
pub(crate) fn decode_lossy(bytes: &[u8]) -> (text: String)
    ensures
        text@ == lossy_text(bytes@),
        valid_utf8(bytes@) ==> text@ == decode_utf8(bytes@),
{
    String::from_utf8_lossy(bytes).into_owned()
}

/// `String::push` appends one character.
pub assume_specification[ String::push ](text: &mut String, ch: char)
    ensures
        final(text)@ == old(text)@.push(ch),
;

/// `String::clear` leaves the string empty.
pub assume_specification[ String::clear ](text: &mut String)
    ensures
        final(text)@ == Seq::<char>::empty(),
;

/// Whether a character has the Unicode property `White_Space`.
pub uninterp spec fn unicode_whitespace(ch: char) -> bool;

/// Whether an ASCII character is white space: the space, and the controls from
/// the horizontal tab to the carriage return.
pub open spec fn ascii_whitespace(ch: char) -> bool {
    ch == ' ' || ('\t' <= ch && ch <= '\r')
}

/// White space: as above for ASCII, the Unicode property for all other characters.
pub open spec fn is_white(ch: char) -> bool {
    if ch <= '\u{7f}' {
        ascii_whitespace(ch)
    } else {
        unicode_whitespace(ch)
    }
}

/// `char::is_whitespace` depends on the character alone; `unicode_whitespace`
/// names its result. Of the ASCII characters it accepts the space and the
/// controls from U+0009 to U+000D.
pub assume_specification[ char::is_whitespace ](ch: char) -> (white: bool)
    ensures
        white == unicode_whitespace(ch),
        ch <= '\u{7f}' ==> white == ascii_whitespace(ch),
;

/// Two strings with the same UTF-8 bytes are the same string.
pub proof fn lemma_utf8_injective(a: Seq<char>, b: Seq<char>)
    ensures
        vstd::utf8::encode_utf8(a) == vstd::utf8::encode_utf8(b) <==> a == b,
{
    vstd::utf8::encode_utf8_decode_utf8(a);
    vstd::utf8::encode_utf8_decode_utf8(b);
}

/// The UTF-8 bytes of ASCII text are its characters' codes.
pub proof fn lemma_ascii_bytes(text: Seq<char>)
    requires
        vstd::utf8::is_ascii_chars(text),
    ensures
        vstd::utf8::encode_utf8(text) == Seq::new(text.len(), |i: int| text[i] as u8),
{
    vstd::utf8::is_ascii_chars_encode_utf8(text);
}

/// A part of UTF-8 text that ASCII bytes, or the ends of the text, delimit is
/// UTF-8 itself.
pub proof fn lemma_utf8_between_ascii(bytes: Seq<u8>, from: int, to: int)
    requires
        valid_utf8(bytes),
        0 <= from <= to <= bytes.len(),
        from == 0 || bytes[from - 1] < 0x80,
        to == bytes.len() || bytes[to] < 0x80,
    ensures
        valid_utf8(bytes.subrange(from, to)),
{
    let total = bytes.len() as int;
    if to == total {
        vstd::utf8::is_char_boundary_start_end_of_seq(bytes);
    } else {
        vstd::utf8::is_char_boundary_iff_not_is_continuation_byte(bytes, to);
    }
    vstd::utf8::valid_utf8_split(bytes, to);
    let head = bytes.subrange(0, to);
    if from == 0 {
    } else {
        assert(head[from - 1] == bytes[from - 1]);
        vstd::utf8::is_char_boundary_iff_not_is_continuation_byte(head, from - 1);
        vstd::utf8::valid_utf8_split(head, from - 1);
        let tail = head.subrange(from - 1, to);
        assert(tail[0] == bytes[from - 1]);
        assert(vstd::utf8::pop_first_scalar(tail) =~= bytes.subrange(from, to));
    }
}

/// The string that bytes encode which are known to be UTF-8.
pub fn string_of(bytes: &[u8]) -> (text: String)
    requires
        valid_utf8(bytes@),
    ensures
        vstd::utf8::encode_utf8(text@) == bytes@,
{
    let owned = vstd::slice::slice_to_vec(bytes);
    match String::from_utf8(owned) {
        Ok(text) => {
            proof {
                vstd::utf8::decode_utf8_encode_utf8(bytes@);
            }
            text
        },
        Err(_) => vstd::pervasive::unreached(),
    }
}

} // verus!
