//! How the bytes of a text relate to its characters.
//!
//! A text is encoded in UTF-8: an ASCII character is one byte, the byte of
//! its own number, and the bytes of every other character are all `0x80` or
//! above. The lemmas here carry statements about bytes over to characters.
use vstd::prelude::*;
use vstd::string::StringSliceAdditionalSpecFns;
use vstd::utf8::*;

verus! {

/// The character is an ASCII character.
pub open spec fn is_ascii_char(c: char) -> bool {
    c <= '\u{7f}'
}

/// The encoding of an ASCII character is the one byte of its number; the
/// encoding of any other character starts and ends with a byte that is no
/// ASCII byte.
pub proof fn lemma_encoding_ends(c: char)
    ensures
        encode_scalar(c as u32).len() >= 1,
        is_ascii_char(c) ==> (c as u8) < 0x80 && (c as u8) as char == c,
        is_ascii_char(c) ==> encode_scalar(c as u32) == seq![c as u8],
        !is_ascii_char(c) ==> encode_scalar(c as u32).first() >= 0x80 && encode_scalar(
            c as u32,
        ).last() >= 0x80,
{
    let s = c as u32;
    char_is_scalar(c);
    if has_width_1_encoding(s) {
        assert((s & 0x7F) as u8 == s as u8) by (bit_vector)
            requires
                s <= 0x7F,
        ;
    } else {
        assert(0x80 | (s & 0x3F) as u8 >= 0x80) by (bit_vector);
        assert(0xC0 | ((s >> 6) & 0x1F) as u8 >= 0x80) by (bit_vector);
        assert(0xE0 | ((s >> 12) & 0x0F) as u8 >= 0x80) by (bit_vector);
        assert(0xF0 | ((s >> 18) & 0x7) as u8 >= 0x80) by (bit_vector);
    }
}

/// The encoding of two texts joined is the two encodings joined.
pub proof fn lemma_encode_concat(a: Seq<char>, b: Seq<char>)
    ensures
        encode_utf8(a + b) == encode_utf8(a) + encode_utf8(b),
    decreases a.len(),
{
    if a.len() > 0 {
        lemma_encode_concat(a.drop_first(), b);
        assert((a + b).drop_first() =~= a.drop_first() + b);
    }
}

/// The encoding of a text cut at character `n` is the encoding of the
/// characters before `n`, then that of the characters from `n` on.
pub proof fn lemma_encode_cut(text: Seq<char>, n: int)
    requires
        0 <= n <= text.len(),
    ensures
        encode_utf8(text) == encode_utf8(text.take(n)) + encode_utf8(text.skip(n)),
{
    assert(text =~= text.take(n) + text.skip(n));
    lemma_encode_concat(text.take(n), text.skip(n));
}

/// The encoding of a text starts with an ASCII byte exactly when the text
/// starts with an ASCII character, which is then that byte.
pub proof fn lemma_first_byte(text: Seq<char>)
    requires
        text.len() > 0,
    ensures
        encode_utf8(text).len() > 0,
        encode_utf8(text).first() < 0x80 <==> is_ascii_char(text.first()),
        is_ascii_char(text.first()) ==> encode_utf8(text).first() == text.first() as u8,
{
    lemma_encoding_ends(text.first());
}

/// The encoding of a text ends with an ASCII byte exactly when the text ends
/// with an ASCII character, which is then that byte.
pub proof fn lemma_last_byte(text: Seq<char>)
    requires
        text.len() > 0,
    ensures
        encode_utf8(text).len() > 0,
        encode_utf8(text).last() < 0x80 <==> is_ascii_char(text.last()),
        is_ascii_char(text.last()) ==> encode_utf8(text).last() == text.last() as u8,
{
    let n = text.len() - 1;
    lemma_encode_cut(text, n);
    let tail = text.skip(n);
    let end = encode_scalar(text.last() as u32);
    assert(encode_utf8(tail) =~= end) by {
        reveal_with_fuel(encode_utf8, 2);
    }
    lemma_encoding_ends(text.last());
}

/// The encoding of a text of ASCII characters has one byte for each
/// character: the byte of its number.
pub proof fn lemma_ascii_encoding(text: Seq<char>)
    requires
        forall|i: int| 0 <= i < text.len() ==> is_ascii_char(#[trigger] text[i]),
    ensures
        encode_utf8(text).len() == text.len(),
        forall|i: int| 0 <= i < text.len() ==> #[trigger] encode_utf8(text)[i] == text[i] as u8,
{
    assert forall|i: int| 0 <= i < text.len() implies '\0' <= #[trigger] text[i] <= '\u{7f}' by {
        lemma_encoding_ends(text[i]);
    }
    is_ascii_chars_encode_utf8(text);
}

/// Two texts with the same encoding are the same text.
pub proof fn lemma_same_bytes_same_chars(a: Seq<char>, b: Seq<char>)
    ensures
        (encode_utf8(a) == encode_utf8(b)) <==> a == b,
{
    encode_utf8_decode_utf8(a);
    encode_utf8_decode_utf8(b);
}

/// Cutting a text at a character boundary cuts its characters in two: the
/// characters of both parts, concatenated, are those of the whole.
pub proof fn lemma_cut_chars(whole: &str, left: &str, right: &str, k: int)
    requires
        is_char_boundary(whole.spec_bytes(), k),
        0 <= k <= whole.spec_bytes().len(),
        left.spec_bytes() == whole.spec_bytes().subrange(0, k),
        right.spec_bytes() == whole.spec_bytes().subrange(k, whole.spec_bytes().len() as int),
    ensures
        left@ + right@ == whole@,
{
    let bytes = whole.spec_bytes();
    encode_utf8_valid_utf8(whole@);
    encode_utf8_decode_utf8(whole@);
    encode_utf8_decode_utf8(left@);
    encode_utf8_decode_utf8(right@);
    decode_utf8_split(bytes, k);
}

/// In well-formed UTF-8, the byte after an ASCII byte that starts a
/// character starts a character too, or ends the text.
pub proof fn lemma_boundary_after_ascii(bytes: Seq<u8>, k: int)
    requires
        valid_utf8(bytes),
        0 <= k < bytes.len(),
        is_char_boundary(bytes, k),
        bytes[k] < 0x80,
    ensures
        is_char_boundary(bytes, k + 1),
    decreases bytes.len(),
{
    reveal_with_fuel(is_char_boundary, 2);
    if k > 0 {
        let rest = pop_first_scalar(bytes);
        let width = length_of_first_scalar(bytes);
        lemma_boundary_after_ascii(rest, k - width);
    }
}

/// `needle` stands in `hay` at offset `at`.
pub open spec fn stands_at(hay: Seq<u8>, at: int, needle: Seq<u8>) -> bool {
    &&& 0 <= at
    &&& at + needle.len() <= hay.len()
    &&& hay.subrange(at, at + needle.len()) == needle
}

/// A text that stands in well-formed UTF-8 stands at a character boundary,
/// unless it is empty.
pub proof fn lemma_text_stands_at_boundary(bytes: Seq<u8>, at: int, needle: Seq<u8>)
    requires
        valid_utf8(bytes),
        valid_utf8(needle),
        needle.len() > 0,
        stands_at(bytes, at, needle),
    ensures
        is_char_boundary(bytes, at),
{
    is_char_boundary_iff_not_is_continuation_byte(bytes, at);
}

} // verus!
