//! Slicing primitives: split a text at a byte offset or at the end of a
//! lexical run.
//!
//! Every contract speaks of a text through the bytes of its UTF-8 encoding
//! (`spec_bytes`), because offsets count bytes. Where a primitive goes by
//! characters, its contract says what it does to the characters too.
use crate::runs::{
    ends_prefix_run, lemma_prefix_run, lemma_prefix_run_of_chars, lemma_suffix_run,
    lemma_suffix_run_of_chars, prefix_run, same_ascii_class, starts_suffix_run, suffix_run,
};
use crate::text::{
    is_ascii_char, lemma_boundary_after_ascii, lemma_cut_chars, lemma_encoding_ends,
    lemma_same_bytes_same_chars, lemma_text_stands_at_boundary, stands_at,
};
use vstd::prelude::*;
use vstd::string::StringSliceAdditionalSpecFns;
use vstd::utf8::*;

verus! {

/// Why a slicing primitive refused its input.
#[derive(Debug, Clone, Copy, PartialEq, Eq, Structural)]
pub enum Error {
    /// The offset lies beyond the end of the buffer.
    InsufficientBuffer,
    /// The offset falls inside a multi-byte character.
    InvalidCharBoundary,
    /// A token was asked of an empty buffer.
    EmptyBuffer,
    /// The buffer does not start with the expected text.
    TagNotEqual,
    /// The buffer does not start with a letter or an underscore.
    InvalidPWord,
    /// Reserved for a failure while trimming; no primitive raises it.
    TrimingError,
}

/// A buffer cut in two: `left` is the part taken, `right` the remainder.
#[derive(Debug, Clone, Copy, PartialEq, Eq)]
pub struct Split<'s> {
    pub left: &'s str,
    pub right: &'s str,
}

/// The mathematical content of a [`Split`]: the bytes of both parts.
pub struct Parts {
    pub left: Seq<u8>,
    pub right: Seq<u8>,
}

impl<'s> View for Split<'s> {
    type V = Parts;

    open spec fn view(&self) -> Parts {
        Parts { left: self.left.spec_bytes(), right: self.right.spec_bytes() }
    }
}

impl<'s> Split<'s> {
    pub fn new(left: &'s str, right: &'s str) -> (split: Split<'s>)
        ensures
            split.left == left,
            split.right == right,
    {
        Split { left, right }
    }
}

/// `bytes` cut at offset `k`.
pub open spec fn cut(bytes: Seq<u8>, k: int) -> Parts {
    Parts { left: bytes.subrange(0, k), right: bytes.subrange(k, bytes.len() as int) }
}

/// The content of a primitive's result.
pub open spec fn parts_of(r: Result<Split, Error>) -> Result<Parts, Error> {
    match r {
        Ok(split) => Ok(split@),
        Err(e) => Err(e),
    }
}

/// The byte is an ASCII letter.
pub open spec fn spec_is_alphabetic(chr: u8) -> bool {
    (0x41 <= chr <= 0x5A) || (0x61 <= chr <= 0x7A)
}

/// The byte is an ASCII digit.
pub open spec fn spec_is_digit(chr: u8) -> bool {
    0x30 <= chr <= 0x39
}

/// The character is a blank.
pub open spec fn spec_is_blank(chr: char) -> bool {
    chr == ' ' || chr == '\t' || chr == '\r' || chr == '\n'
}

/// Tests if a byte is an ASCII letter: A-Z, a-z.
#[verifier::when_used_as_spec(spec_is_alphabetic)]
pub fn is_alphabetic(chr: u8) -> (r: bool)
    ensures
        r == spec_is_alphabetic(chr),
{
    (chr >= 0x41 && chr <= 0x5A) || (chr >= 0x61 && chr <= 0x7A)
}

/// Tests if a byte is an ASCII digit: 0-9.
#[verifier::when_used_as_spec(spec_is_digit)]
pub fn is_digit(chr: u8) -> (r: bool)
    ensures
        r == spec_is_digit(chr),
{
    chr >= 0x30 && chr <= 0x39
}

/// Tests if a character is a blank: space, tab, carriage return or line feed.
#[verifier::when_used_as_spec(spec_is_blank)]
pub fn is_blank(chr: char) -> (r: bool)
    ensures
        r == spec_is_blank(chr),
{
    chr == ' ' || chr == '\t' || chr == '\r' || chr == '\n'
}

/// What [`take`] yields on a buffer with the given bytes.
pub open spec fn spec_take(bytes: Seq<u8>, count: int) -> Result<Parts, Error> {
    if bytes.len() < count {
        Err(Error::InsufficientBuffer)
    } else if !is_char_boundary(bytes, count) {
        Err(Error::InvalidCharBoundary)
    } else {
        Ok(cut(bytes, count))
    }
}

/// What [`tag`] yields: the cut that [`take`] makes at the length of `value`,
/// provided the part taken is `value`.
pub open spec fn spec_tag(bytes: Seq<u8>, value: Seq<u8>) -> Result<Parts, Error> {
    match spec_take(bytes, value.len() as int) {
        Err(e) => Err(e),
        Ok(parts) => if parts.left == value {
            Ok(parts)
        } else {
            Err(Error::TagNotEqual)
        },
    }
}

/// Splits `buffer` at byte offset `count`.
pub fn take<'s>(buffer: &'s str, count: usize) -> (r: Result<Split<'s>, Error>)
    ensures
        parts_of(r) == spec_take(buffer.spec_bytes(), count as int),
        r matches Ok(split) ==> split.left@ + split.right@ == buffer@,
{
    if buffer.as_bytes().len() < count {
        return Err(Error::InsufficientBuffer);
    } else if !buffer.is_char_boundary(count) {
        return Err(Error::InvalidCharBoundary);
    }
    let (left, right) = buffer.split_at(count);
    proof {
        lemma_cut_chars(buffer, left, right, count as int);
    }
    Ok(Split::new(left, right))
}

/// Splits `buffer` at byte offset `count`; the caller drops the left part.
pub fn skip<'s>(buffer: &'s str, count: usize) -> (r: Result<Split<'s>, Error>)
    ensures
        parts_of(r) == spec_take(buffer.spec_bytes(), count as int),
        r matches Ok(split) ==> split.left@ + split.right@ == buffer@,
{
    take(buffer, count)
}

/// The bytes that make a blank: those of space, tab, carriage return and line
/// feed.
pub open spec fn blank_byte() -> spec_fn(u8) -> bool {
    |b: u8| spec_is_blank(b as char)
}

/// The bytes that may open a word: ASCII letters and the underscore.
pub open spec fn word_start() -> spec_fn(u8) -> bool {
    |b: u8| spec_is_alphabetic(b) || b == 0x5F
}

/// The bytes that may continue a word: ASCII letters, digits and the
/// underscore.
pub open spec fn word_byte() -> spec_fn(u8) -> bool {
    |b: u8| spec_is_alphabetic(b) || spec_is_digit(b) || b == 0x5F
}

/// What [`triml`] yields: the cut after the leading blanks.
pub open spec fn spec_triml(bytes: Seq<u8>) -> Parts {
    cut(bytes, prefix_run(bytes, blank_byte()) as int)
}

/// What [`trimr`] yields: the cut before the trailing blanks.
pub open spec fn spec_trimr(bytes: Seq<u8>) -> Parts {
    cut(bytes, bytes.len() - suffix_run(bytes, blank_byte()))
}

/// What [`trim`] yields: the text without its leading and trailing blanks.
pub open spec fn spec_trim(bytes: Seq<u8>) -> Seq<u8> {
    spec_trimr(spec_triml(bytes).right).left
}

/// What [`pword`] yields: the cut after the word that opens the buffer.
pub open spec fn spec_pword(bytes: Seq<u8>) -> Result<Parts, Error> {
    if bytes.len() == 0 {
        Err(Error::EmptyBuffer)
    } else if !word_start()(bytes[0]) {
        Err(Error::InvalidPWord)
    } else {
        Ok(cut(bytes, 1 + prefix_run(bytes.drop_first(), word_byte()) as int))
    }
}

/// Cuts `buffer` after its leading blanks: `left` holds the blanks, `right`
/// the rest.
pub fn triml<'s>(buffer: &'s str) -> (r: Result<Split<'s>, Error>)
    ensures
        parts_of(r) == Ok::<Parts, Error>(spec_triml(buffer.spec_bytes())),
        r matches Ok(split) ==> split.left@ == buffer@.take(prefix_run(buffer@, blank_char()) as int)
            && split.right@ == buffer@.skip(prefix_run(buffer@, blank_char()) as int),
{
    let bytes = buffer.as_bytes();
    let mut count_ws: usize = 0;
    proof {
        encode_utf8_valid_utf8(buffer@);
    }
    while count_ws < bytes.len() && is_blank(bytes[count_ws as usize] as char)
        invariant
            bytes@ == buffer.spec_bytes(),
            valid_utf8(bytes@),
            count_ws <= bytes.len(),
            is_char_boundary(bytes@, count_ws as int),
            forall|i: int| 0 <= i < count_ws ==> blank_byte()(#[trigger] bytes@[i]),
        decreases bytes.len() - count_ws,
    {
        proof {
            lemma_boundary_after_ascii(bytes@, count_ws as int);
        }
        count_ws += 1;
    }
    proof {
        lemma_prefix_run(bytes@, blank_byte(), count_ws as int);
    }
    let (left, right) = buffer.split_at(count_ws);
    proof {
        let n = prefix_run(buffer@, blank_char()) as int;
        lemma_triml_chars(buffer@);
        lemma_same_bytes_same_chars(left@, buffer@.take(n));
        lemma_same_bytes_same_chars(right@, buffer@.skip(n));
    }
    Ok(Split::new(left, right))
}

/// Cuts `buffer` before its trailing blanks: `left` holds the text, `right`
/// the blanks.
pub fn trimr<'s>(buffer: &'s str) -> (r: Result<Split<'s>, Error>)
    ensures
        parts_of(r) == Ok::<Parts, Error>(spec_trimr(buffer.spec_bytes())),
        r matches Ok(split) ==> split.left@ == buffer@.take(
            buffer@.len() - suffix_run(buffer@, blank_char()),
        ) && split.right@ == buffer@.skip(buffer@.len() - suffix_run(buffer@, blank_char())),
{
    let bytes = buffer.as_bytes();
    let mut result_count: usize = bytes.len();
    proof {
        encode_utf8_valid_utf8(buffer@);
        is_char_boundary_start_end_of_seq(bytes@);
    }
    while result_count > 0 && is_blank(bytes[result_count - 1] as char)
        invariant
            bytes@ == buffer.spec_bytes(),
            valid_utf8(bytes@),
            result_count <= bytes.len(),
            is_char_boundary(bytes@, result_count as int),
            forall|i: int| result_count <= i < bytes.len() ==> blank_byte()(#[trigger] bytes@[i]),
        decreases result_count,
    {
        proof {
            is_char_boundary_iff_not_is_continuation_byte(bytes@, result_count - 1);
        }
        result_count -= 1;
    }
    proof {
        lemma_suffix_run(bytes@, blank_byte(), bytes.len() - result_count);
    }
    let (left, right) = buffer.split_at(result_count);
    proof {
        let n = buffer@.len() - suffix_run(buffer@, blank_char());
        lemma_trimr_chars(buffer@);
        lemma_same_bytes_same_chars(left@, buffer@.take(n));
        lemma_same_bytes_same_chars(right@, buffer@.skip(n));
    }
    Ok(Split::new(left, right))
}

/// Strips the leading and the trailing blanks of `buffer`.
pub fn trim<'s>(buffer: &'s str) -> (r: Result<&'s str, Error>)
    ensures
        r matches Ok(text) && text.spec_bytes() == spec_trim(buffer.spec_bytes()) && text@
            == trimmed(buffer@),
{
    let result = triml(buffer);
    if let Ok(Split { left: _, right }) = result {
        let result = trimr(right);
        if let Ok(Split { left, right: _ }) = result {
            return Ok(left);
        }
    }
    Err(Error::TrimingError)
}

/// Takes bytes while blank (space, tab, line feed, carriage return).
pub fn blank<'s>(buffer: &'s str) -> (r: Result<Split<'s>, Error>)
    ensures
        parts_of(r) == Ok::<Parts, Error>(spec_triml(buffer.spec_bytes())),
        r matches Ok(split) ==> split.left@ == buffer@.take(prefix_run(buffer@, blank_char()) as int)
            && split.right@ == buffer@.skip(prefix_run(buffer@, blank_char()) as int),
{
    triml(buffer)
}

/// Captures the word that opens `buffer`: a letter or an underscore, then
/// letters, digits and underscores as far as they go.
pub fn pword<'s>(buffer: &'s str) -> (r: Result<Split<'s>, Error>)
    ensures
        parts_of(r) == spec_pword(buffer.spec_bytes()),
        r matches Ok(split) ==> {
            &&& split.left@ + split.right@ == buffer@
            &&& split@.left.len() > 0
            &&& word_start()(split@.left[0])
        },
{
    let bytes = buffer.as_bytes();
    let mut i: usize = 0;
    proof {
        encode_utf8_valid_utf8(buffer@);
    }
    // first char must be alpha or '_'
    if bytes.len() == 0 {
        return Err(Error::EmptyBuffer);
    } else if !is_alphabetic(bytes[0]) && bytes[i] != 0x5F {
        return Err(Error::InvalidPWord);
    } else {
        proof {
            lemma_boundary_after_ascii(bytes@, 0);
        }
        i += 1;
    }
    let ghost rest = bytes@.drop_first();
    while i < bytes.len() && (is_digit(bytes[i]) || is_alphabetic(bytes[i]) || bytes[i] == 0x5F)
        invariant
            bytes@ == buffer.spec_bytes(),
            valid_utf8(bytes@),
            rest == bytes@.drop_first(),
            1 <= i <= bytes.len(),
            is_char_boundary(bytes@, i as int),
            forall|j: int| 0 <= j < i - 1 ==> word_byte()(#[trigger] rest[j]),
        decreases bytes.len() - i,
    {
        proof {
            lemma_boundary_after_ascii(bytes@, i as int);
        }
        i += 1;
    }
    proof {
        lemma_prefix_run(rest, word_byte(), i - 1);
    }
    let (left, right) = buffer.split_at(i);
    proof {
        lemma_cut_chars(buffer, left, right, i as int);
    }
    Ok(Split::new(left, right))
}

/// One of `endings` stands in `bytes` at offset `at`.
pub open spec fn ends_at(bytes: Seq<u8>, endings: Seq<Seq<u8>>, at: int) -> bool {
    exists|e: int| 0 <= e < endings.len() && stands_at(bytes, at, #[trigger] endings[e])
}

/// The first offset from `from` on at which one of `endings` stands in
/// `bytes`; the length of `bytes` if there is none.
pub open spec fn until_offset(bytes: Seq<u8>, endings: Seq<Seq<u8>>, from: int) -> int
    decreases bytes.len() - from,
{
    if from >= bytes.len() {
        bytes.len() as int
    } else if ends_at(bytes, endings, from) {
        from
    } else {
        until_offset(bytes, endings, from + 1)
    }
}

/// What [`until`] yields: the cut before the first ending.
pub open spec fn spec_until(bytes: Seq<u8>, endings: Seq<Seq<u8>>) -> Parts {
    cut(bytes, until_offset(bytes, endings, 0))
}

/// The bytes of each text of a list.
pub open spec fn texts(list: Seq<&str>) -> Seq<Seq<u8>> {
    Seq::new(list.len(), |i: int| list[i].spec_bytes())
}

/// Tests whether `needle` stands in `hay` at offset `at`.
pub fn starts_with_at(hay: &[u8], at: usize, needle: &[u8]) -> (r: bool)
    ensures
        r == stands_at(hay@, at as int, needle@),
{
    if at > hay.len() || needle.len() > hay.len() - at {
        return false;
    }
    let mut i: usize = 0;
    while i < needle.len()
        invariant
            at + needle.len() <= hay.len(),
            i <= needle.len(),
            forall|j: int| 0 <= j < i ==> hay@[at + j] == needle@[j],
        decreases needle.len() - i,
    {
        if hay[at + i] != needle[i] {
            return false;
        }
        i += 1;
    }
    proof {
        assert(hay@.subrange(at as int, at + needle.len()) =~= needle@);
    }
    true
}

/// Tests whether two texts are the same.
pub fn same_text(a: &str, b: &str) -> (r: bool)
    ensures
        r == (a.spec_bytes() == b.spec_bytes()),
        r == (a@ == b@),
{
    let x = a.as_bytes();
    let y = b.as_bytes();
    proof {
        lemma_same_bytes_same_chars(a@, b@);
        assert(x@.subrange(0, x@.len() as int) == x@);
    }
    x.len() == y.len() && starts_with_at(x, 0, y)
}

/// Cuts `buffer` at its first `value.len()` bytes, which must be `value`.
pub fn tag<'b, 'v>(buffer: &'b str, value: &'v str) -> (r: Result<Split<'b>, Error>)
    ensures
        parts_of(r) == spec_tag(buffer.spec_bytes(), value.spec_bytes()),
        r matches Ok(split) ==> split.left@ + split.right@ == buffer@,
{
    let rtake = take(buffer, value.as_bytes().len());
    match rtake {
        Err(e) => Err(e),
        Ok(split) => if same_text(split.left, value) {
            Ok(split)
        } else {
            Err(Error::TagNotEqual)
        },
    }
}

/// Takes bytes until the end of the buffer or until one of `ending` is found.
/// The part taken does not include the ending.
pub fn until<'a, 'b>(buffer: &'a str, ending: &[&'b str]) -> (r: Result<Split<'a>, Error>)
    ensures
        parts_of(r) == Ok::<Parts, Error>(spec_until(buffer.spec_bytes(), texts(ending@))),
        r matches Ok(split) ==> split.left@ + split.right@ == buffer@,
{
    let bytes = buffer.as_bytes();
    let ghost endings = texts(ending@);
    let mut i: usize = 0;
    proof {
        encode_utf8_valid_utf8(buffer@);
    }
    while i < bytes.len()
        invariant
            bytes@ == buffer.spec_bytes(),
            valid_utf8(bytes@),
            endings == texts(ending@),
            i <= bytes.len(),
            forall|j: int| 0 <= j < i ==> !ends_at(bytes@, endings, j),
            until_offset(bytes@, endings, 0) == until_offset(bytes@, endings, i as int),
        decreases bytes.len() - i,
    {
        let mut e: usize = 0;
        while e < ending.len()
            invariant
                bytes@ == buffer.spec_bytes(),
                valid_utf8(bytes@),
                endings == texts(ending@),
                i < bytes.len(),
                e <= ending.len(),
                forall|j: int| 0 <= j < i ==> !ends_at(bytes@, endings, j),
                until_offset(bytes@, endings, 0) == until_offset(bytes@, endings, i as int),
                forall|k: int| 0 <= k < e ==> !stands_at(bytes@, i as int, #[trigger] endings[k]),
            decreases ending.len() - e,
        {
            let end = ending[e];
            if starts_with_at(bytes, i, end.as_bytes()) {
                proof {
                    let needle = endings[e as int];
                    if needle.len() == 0 {
                        if i > 0 {
                            assert(bytes@.subrange(0, 0) =~= needle);
                        }
                    } else {
                        encode_utf8_valid_utf8(end@);
                        lemma_text_stands_at_boundary(bytes@, i as int, needle);
                    }
                }
                let (left, right) = buffer.split_at(i);
                proof {
                    lemma_cut_chars(buffer, left, right, i as int);
                }
                return Ok(Split::new(left, right));
            }
            e += 1;
        }
        i += 1;
    }
    proof {
        is_char_boundary_start_end_of_seq(bytes@);
    }
    let (left, right) = buffer.split_at(i);
    proof {
        lemma_cut_chars(buffer, left, right, i as int);
    }
    Ok(Split::new(left, right))
}

/// Taking succeeds exactly at an offset within the buffer that is a
/// character boundary, and then the two parts, concatenated, are the buffer.
pub proof fn lemma_take_rebuilds(bytes: Seq<u8>, count: int)
    requires
        0 <= count,
    ensures
        spec_take(bytes, count) is Ok <==> count <= bytes.len() && is_char_boundary(bytes, count),
        spec_take(bytes, count) matches Ok(parts) ==> parts.left + parts.right == bytes,
{
}

/// Each trimming cut loses nothing: its two parts, concatenated, are the
/// buffer.
pub proof fn lemma_trim_cuts_rebuild(bytes: Seq<u8>)
    ensures
        spec_triml(bytes).left + spec_triml(bytes).right == bytes,
        spec_trimr(bytes).left + spec_trimr(bytes).right == bytes,
{
    lemma_prefix_run(bytes, blank_byte(), 0);
    lemma_suffix_run(bytes, blank_byte(), 0);
}

/// A trimmed text neither starts nor ends with a blank.
pub proof fn lemma_trim_has_no_outer_blank(bytes: Seq<u8>)
    ensures
        spec_trim(bytes).len() > 0 ==> !blank_byte()(spec_trim(bytes).first()) && !blank_byte()(
            spec_trim(bytes).last(),
        ),
{
    let right = spec_triml(bytes).right;
    lemma_prefix_run(bytes, blank_byte(), 0);
    lemma_suffix_run(right, blank_byte(), 0);
    let trimmed = spec_trim(bytes);
}

/// Trimming is idempotent: a trimmed text is its own trimming.
pub proof fn lemma_trim_idempotent(bytes: Seq<u8>)
    ensures
        spec_trim(spec_trim(bytes)) == spec_trim(bytes),
{
    let trimmed = spec_trim(bytes);
    lemma_trim_has_no_outer_blank(bytes);
    lemma_prefix_run(trimmed, blank_byte(), 0);
    lemma_suffix_run(trimmed, blank_byte(), 0);
}

/// A word is never empty and opens with a letter or an underscore; the word
/// and the remainder, concatenated, are the buffer.
pub proof fn lemma_pword_token(bytes: Seq<u8>)
    ensures
        spec_pword(bytes) is Ok <==> bytes.len() > 0 && word_start()(bytes[0]),
        spec_pword(bytes) matches Ok(parts) ==> {
            &&& parts.left.len() > 0
            &&& word_start()(parts.left[0])
            &&& forall|i: int| 0 < i < parts.left.len() ==> word_byte()(#[trigger] parts.left[i])
            &&& parts.left + parts.right == bytes
        },
{
    if spec_pword(bytes) is Ok {
        let rest = bytes.drop_first();
        lemma_prefix_run(rest, word_byte(), 0);
        let k = 1 + prefix_run(rest, word_byte()) as int;
        let parts = cut(bytes, k);
        assert forall|i: int| 0 < i < parts.left.len() implies word_byte()(
            #[trigger] parts.left[i],
        ) by {
            assert(parts.left[i] == rest[i - 1]);
        }
    }
}

/// The characters that are blanks.
pub open spec fn blank_char() -> spec_fn(char) -> bool {
    |c: char| spec_is_blank(c)
}

/// The encodings of the two parts of `text` cut at character `n`.
pub open spec fn cut_chars(text: Seq<char>, n: int) -> Parts {
    Parts { left: encode_utf8(text.take(n)), right: encode_utf8(text.skip(n)) }
}

/// The text without its leading and trailing blank characters.
pub open spec fn trimmed(text: Seq<char>) -> Seq<char> {
    let rest = text.skip(prefix_run(text, blank_char()) as int);
    rest.take(rest.len() - suffix_run(rest, blank_char()))
}

/// The blank bytes are the bytes of the blank characters.
pub proof fn lemma_blank_class()
    ensures
        same_ascii_class(blank_byte(), blank_char()),
{
    assert forall|c: char| is_ascii_char(c) implies #[trigger] blank_char()(c) == blank_byte()(
        c as u8,
    ) by {
        lemma_encoding_ends(c);
    }
}

/// Trimming the bytes of a text on the left cuts the text after its leading
/// blank characters.
pub proof fn lemma_triml_chars(text: Seq<char>)
    ensures
        spec_triml(encode_utf8(text)) == cut_chars(text, prefix_run(text, blank_char()) as int),
{
    lemma_blank_class();
    lemma_prefix_run_of_chars(text, blank_byte(), blank_char());
}

/// Trimming the bytes of a text on the right cuts the text before its
/// trailing blank characters.
pub proof fn lemma_trimr_chars(text: Seq<char>)
    ensures
        spec_trimr(encode_utf8(text)) == cut_chars(
            text,
            text.len() - suffix_run(text, blank_char()),
        ),
{
    lemma_blank_class();
    lemma_suffix_run_of_chars(text, blank_byte(), blank_char());
}

/// Trimming the bytes of a text strips its leading and trailing blank
/// characters.
pub proof fn lemma_trim_chars(text: Seq<char>)
    ensures
        spec_trim(encode_utf8(text)) == encode_utf8(trimmed(text)),
{
    lemma_triml_chars(text);
    lemma_trimr_chars(text.skip(prefix_run(text, blank_char()) as int));
}

/// Stripping the blank characters at both ends is idempotent.
pub proof fn lemma_trimmed_idempotent(text: Seq<char>)
    ensures
        trimmed(trimmed(text)) == trimmed(text),
{
    lemma_trim_chars(text);
    lemma_trim_chars(trimmed(text));
    lemma_trim_idempotent(encode_utf8(text));
    lemma_same_bytes_same_chars(trimmed(trimmed(text)), trimmed(text));
}

} // verus!
