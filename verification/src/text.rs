//! Strings on the wire: keys and one-line messages, as UTF-8 bytes.

use vstd::prelude::*;
use vstd::utf8::*;

verus! {

/// The longest key, in bytes.
pub const KEY_MAX: usize = 250;

/// The longest first line of a command that a client sends, in bytes, its end
/// included.
pub const LINE_MAX: usize = 256;

/// The bytes that write `text`: its UTF-8 encoding.
#[verifier::opaque]
pub open spec fn utf8(text: Seq<char>) -> Seq<u8> {
    encode_utf8(text)
}

/// Whether `b` may stand in a key: printable, and no space.
pub open spec fn is_key_byte(b: u8) -> bool {
    0x21 <= b <= 0x7e
}

/// Whether `b` ends a line, alone or as part of `\r\n`.
pub open spec fn is_line_break(b: u8) -> bool {
    b == 0x0d || b == 0x0a
}

/// Whether every byte of `s` may stand in a key.
pub open spec fn all_key_bytes(s: Seq<u8>) -> bool {
    forall|i: int| 0 <= i < s.len() ==> is_key_byte(#[trigger] s[i])
}

/// Whether no byte of `s` ends a line.
pub open spec fn one_line(s: Seq<u8>) -> bool {
    forall|i: int| 0 <= i < s.len() ==> !is_line_break(#[trigger] s[i])
}

/// Whether `key` can be sent: 1 to 250 bytes, each of them a key byte.
pub open spec fn key_ok(key: Seq<char>) -> bool {
    &&& 1 <= utf8(key).len() <= KEY_MAX
    &&& all_key_bytes(utf8(key))
}

/// Whether `text` can be sent as a message: it holds no line break.
pub open spec fn text_ok(text: Seq<char>) -> bool {
    one_line(utf8(text))
}

/// Why a frame was not written.
#[derive(Clone, Copy, Debug, PartialEq, Eq)]
pub enum BuildError {
    /// A key is empty, longer than 250 bytes, or holds a byte that no key may
    /// hold.
    BadKey,
    /// A payload is longer than a 32-bit length can say.
    PayloadTooLong,
    /// A message holds a line break.
    BadText,
    /// The first line of a command is longer than 256 bytes.
    LineTooLong,
}

/// Whether `chr` may stand in a key.
pub fn is_key_char(chr: u8) -> (r: bool)
    ensures
        r == is_key_byte(chr),
{
    chr >= 0x21 && chr <= 0x7e
}

/// Bytes below 0x80 are well-formed UTF-8.
pub proof fn lemma_ascii_valid(s: Seq<u8>)
    requires
        forall|i: int| 0 <= i < s.len() ==> #[trigger] s[i] <= 0x7f,
    ensures
        valid_utf8(s),
{
    assert(s.subrange(0, 0) =~= Seq::<u8>::empty());
    assert(valid_utf8(s.subrange(0, 0)));
    assert(partial_valid_utf8(s, 0));
    assert forall|i: int| 0 <= 0 <= i < s.len() <= s.len() implies #[trigger] is_leading_byte_width_1(
        s[i],
    ) by {}
    partial_valid_utf8_extend_ascii_block(s, 0, s.len() as int);
    assert(s.subrange(0, s.len() as int) =~= s);
}

/// What a literal of the grammar is on the wire: one byte for each of its
/// characters.
pub proof fn lemma_word(word: Seq<char>)
    requires
        is_ascii_chars(word),
    ensures
        utf8(word).len() == word.len(),
        forall|i: int| 0 <= i < word.len() ==> #[trigger] utf8(word)[i] == word[i] as u8,
{
    reveal(utf8);
    is_ascii_chars_encode_utf8(word);
}

/// A text is read back from its bytes, which are well-formed UTF-8.
pub proof fn lemma_utf8(text: Seq<char>)
    ensures
        valid_utf8(utf8(text)),
        decode_utf8(utf8(text)) == text,
{
    reveal(utf8);
    encode_utf8_valid_utf8(text);
    encode_utf8_decode_utf8(text);
}

/// Well-formed UTF-8 is the bytes of the text that it is read as.
pub proof fn lemma_utf8_of(bytes: Seq<u8>)
    requires
        valid_utf8(bytes),
    ensures
        utf8(decode_utf8(bytes)) == bytes,
{
    reveal(utf8);
    decode_utf8_encode_utf8(bytes);
}

/// The bytes that write a text are its UTF-8 encoding.
pub proof fn lemma_bytes_of(text: Seq<char>)
    ensures
        utf8(text) == encode_utf8(text),
{
    reveal(utf8);
}

/// `String::from_utf8`: the string whose bytes are `bytes`, where these are
/// well-formed UTF-8, and nothing where they are not.
#[verifier::external_body]
pub(crate) fn string_from_utf8(bytes: Vec<u8>) -> (r: Option<String>)
    ensures
        r is Some <==> valid_utf8(bytes@),
        r matches Some(s) ==> utf8(s@) == bytes@,
{
    match String::from_utf8(bytes) {
        Ok(s) => Some(s),
        Err(_) => None,
    }
}

/// Whether `key` can be sent.
pub fn check_key(key: &String) -> (r: bool)
    ensures
        r == key_ok(key@),
{
    let bytes = key.as_str().as_bytes();
    proof {
        lemma_bytes_of(key@);
    }
    if bytes.len() < 1 || bytes.len() > KEY_MAX {
        return false;
    }
    let mut i: usize = 0;
    while i < bytes.len()
        invariant
            i <= bytes.len(),
            bytes@ == utf8(key@),
            forall|k: int| 0 <= k < i ==> is_key_byte(#[trigger] bytes@[k]),
        decreases bytes.len() - i,
    {
        if !is_key_char(bytes[i]) {
            return false;
        }
        i += 1;
    }
    true
}

/// Whether `text` can be sent as a message.
pub fn check_text(text: &String) -> (r: bool)
    ensures
        r == text_ok(text@),
{
    let bytes = text.as_str().as_bytes();
    proof {
        lemma_bytes_of(text@);
    }
    let mut i: usize = 0;
    while i < bytes.len()
        invariant
            i <= bytes.len(),
            bytes@ == utf8(text@),
            forall|k: int| 0 <= k < i ==> !is_line_break(#[trigger] bytes@[k]),
        decreases bytes.len() - i,
    {
        if bytes[i] == 0x0d || bytes[i] == 0x0a {
            return false;
        }
        i += 1;
    }
    true
}

/// Appends `bytes` to `buf`.
pub fn push_bytes(buf: &mut Vec<u8>, bytes: &[u8])
    ensures
        final(buf)@ == old(buf)@ + bytes@,
{
    buf.extend_from_slice(bytes);
    assert(buf@ =~= old(buf)@ + bytes@);
}

/// Appends the bytes of `text` to `buf`.
pub fn push_text(buf: &mut Vec<u8>, text: &str)
    ensures
        final(buf)@ == old(buf)@ + utf8(text@),
{
    proof {
        lemma_bytes_of(text@);
    }
    push_bytes(buf, text.as_bytes());
}

} // verus!
