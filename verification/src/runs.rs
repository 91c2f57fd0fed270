//! Runs: the longest stretch of items of one class at the start or at the
//! end of a sequence.
//!
//! The lexical rules of the slicing primitives are runs of bytes; for a
//! class of ASCII characters a run of bytes is a run of characters.
use crate::text::{
    is_ascii_char, lemma_ascii_encoding, lemma_encode_cut, lemma_encoding_ends, lemma_first_byte,
    lemma_last_byte,
};
use vstd::prelude::*;
use vstd::utf8::encode_utf8;

verus! {

/// The length of the longest prefix of `items` whose items all satisfy `p`.
pub open spec fn prefix_run<T>(items: Seq<T>, p: spec_fn(T) -> bool) -> nat
    decreases items.len(),
{
    if items.len() > 0 && p(items[0]) {
        1 + prefix_run(items.drop_first(), p)
    } else {
        0
    }
}

/// The length of the longest suffix of `items` whose items all satisfy `p`.
pub open spec fn suffix_run<T>(items: Seq<T>, p: spec_fn(T) -> bool) -> nat
    decreases items.len(),
{
    if items.len() > 0 && p(items.last()) {
        1 + suffix_run(items.drop_last(), p)
    } else {
        0
    }
}

/// `k` is in range, every item before `k` satisfies `p`, and the item at `k`,
/// if there is one, does not.
pub open spec fn ends_prefix_run<T>(items: Seq<T>, p: spec_fn(T) -> bool, k: int) -> bool {
    &&& 0 <= k <= items.len()
    &&& forall|i: int| 0 <= i < k ==> p(#[trigger] items[i])
    &&& (k < items.len() ==> !p(items[k]))
}

/// The last `k` items satisfy `p`, and the item before them, if there is
/// one, does not.
pub open spec fn starts_suffix_run<T>(items: Seq<T>, p: spec_fn(T) -> bool, k: int) -> bool {
    &&& 0 <= k <= items.len()
    &&& forall|i: int| items.len() - k <= i < items.len() ==> p(#[trigger] items[i])
    &&& (k < items.len() ==> !p(items[items.len() - k - 1]))
}

/// The prefix run is the one offset at which a run of `p` from the start
/// ends.
pub proof fn lemma_prefix_run<T>(items: Seq<T>, p: spec_fn(T) -> bool, k: int)
    ensures
        ends_prefix_run(items, p, prefix_run(items, p) as int),
        ends_prefix_run(items, p, k) ==> prefix_run(items, p) == k,
    decreases items.len(),
{
    if items.len() > 0 && p(items[0]) {
        let rest = items.drop_first();
        lemma_prefix_run(rest, p, k - 1);
        let n = prefix_run(rest, p) as int;
        assert forall|i: int| 0 <= i < n + 1 implies p(#[trigger] items[i]) by {
            if i > 0 {
                assert(items[i] == rest[i - 1]);
            }
        }
    }
}

/// The suffix run is the one length at which a run of `p` up to the end
/// starts.
pub proof fn lemma_suffix_run<T>(items: Seq<T>, p: spec_fn(T) -> bool, k: int)
    ensures
        starts_suffix_run(items, p, suffix_run(items, p) as int),
        starts_suffix_run(items, p, k) ==> suffix_run(items, p) == k,
    decreases items.len(),
{
    let len = items.len() as int;
    if items.len() > 0 && p(items.last()) {
        let rest = items.drop_last();
        lemma_suffix_run(rest, p, k - 1);
        let n = suffix_run(rest, p) as int;
        assert forall|i: int| len - (n + 1) <= i < len implies p(#[trigger] items[i]) by {
            if i < len - 1 {
                assert(items[i] == rest[i]);
            }
        }
    }
}

/// A class of bytes and a class of characters that hold the same ASCII
/// characters and nothing else.
pub open spec fn same_ascii_class(pb: spec_fn(u8) -> bool, pc: spec_fn(char) -> bool) -> bool {
    &&& forall|b: u8| #[trigger] pb(b) ==> b < 0x80
    &&& forall|c: char| #[trigger] pc(c) ==> is_ascii_char(c)
    &&& forall|c: char| is_ascii_char(c) ==> #[trigger] pc(c) == pb(c as u8)
}

/// For an ASCII class, the leading run of bytes of a text is as long as its
/// leading run of characters, and the bytes of the run and of the rest are
/// the encodings of the characters of the run and of the rest.
pub proof fn lemma_prefix_run_of_chars(
    text: Seq<char>,
    pb: spec_fn(u8) -> bool,
    pc: spec_fn(char) -> bool,
)
    requires
        same_ascii_class(pb, pc),
    ensures
        prefix_run(encode_utf8(text), pb) == prefix_run(text, pc),
        encode_utf8(text).take(prefix_run(text, pc) as int) == encode_utf8(
            text.take(prefix_run(text, pc) as int),
        ),
        encode_utf8(text).skip(prefix_run(text, pc) as int) == encode_utf8(
            text.skip(prefix_run(text, pc) as int),
        ),
{
    let bytes = encode_utf8(text);
    lemma_prefix_run(text, pc, 0);
    let n = prefix_run(text, pc) as int;
    let head = text.take(n);
    let tail = text.skip(n);
    lemma_encode_cut(text, n);
    lemma_ascii_encoding(head);
    if n < bytes.len() {
        lemma_first_byte(tail);
        lemma_encoding_ends(tail.first());
    }
    lemma_prefix_run(bytes, pb, n);
}

/// For an ASCII class, the trailing run of bytes of a text is as long as its
/// trailing run of characters, and the bytes before the run and of the run
/// are the encodings of the characters before the run and of the run.
pub proof fn lemma_suffix_run_of_chars(
    text: Seq<char>,
    pb: spec_fn(u8) -> bool,
    pc: spec_fn(char) -> bool,
)
    requires
        same_ascii_class(pb, pc),
    ensures
        suffix_run(encode_utf8(text), pb) == suffix_run(text, pc),
        encode_utf8(text).take(encode_utf8(text).len() - suffix_run(text, pc)) == encode_utf8(
            text.take(text.len() - suffix_run(text, pc)),
        ),
        encode_utf8(text).skip(encode_utf8(text).len() - suffix_run(text, pc)) == encode_utf8(
            text.skip(text.len() - suffix_run(text, pc)),
        ),
{
    let bytes = encode_utf8(text);
    lemma_suffix_run(text, pc, 0);
    let m = suffix_run(text, pc) as int;
    let n = text.len() - m;
    let head = text.take(n);
    let tail = text.skip(n);
    lemma_encode_cut(text, n);
    lemma_ascii_encoding(tail);
    if m < bytes.len() {
        lemma_last_byte(head);
        lemma_encoding_ends(head.last());
    }
    lemma_suffix_run(bytes, pb, m);
}

} // verus!
