//! Decimal numerals: what the conversions of a chain read from a text.
//!
//! An integer is an optional sign and one or more digits. A real number is
//! recognised, not computed: the library holds no floating-point value, so a
//! real is carried as the numeral that denotes it.
use crate::runs::{lemma_prefix_run, prefix_run};
use crate::utils::{is_digit, spec_is_digit};
use vstd::prelude::*;
use vstd::string::StringSliceAdditionalSpecFns;

verus! {

/// The bytes that are decimal digits.
pub open spec fn digit_byte() -> spec_fn(u8) -> bool {
    |b: u8| spec_is_digit(b)
}

/// Every byte is a decimal digit.
pub open spec fn all_digits(bytes: Seq<u8>) -> bool {
    forall|i: int| 0 <= i < bytes.len() ==> spec_is_digit(#[trigger] bytes[i])
}

/// The number that a run of decimal digits denotes.
pub open spec fn decimal_value(digits: Seq<u8>) -> nat
    decreases digits.len(),
{
    if digits.len() == 0 {
        0
    } else {
        decimal_value(digits.drop_last()) * 10 + (digits.last() - 0x30) as nat
    }
}

/// The text starts with `+` or `-`.
pub open spec fn has_sign(text: Seq<u8>) -> bool {
    text.len() > 0 && (text[0] == 0x2B || text[0] == 0x2D)
}

/// The text starts with `-`.
pub open spec fn has_minus(text: Seq<u8>) -> bool {
    text.len() > 0 && text[0] == 0x2D
}

/// The text without its sign, if it has one.
pub open spec fn unsigned(text: Seq<u8>) -> Seq<u8> {
    if has_sign(text) {
        text.drop_first()
    } else {
        text
    }
}

/// The 32-bit integer that a text denotes: an optional `+` or `-`, then one
/// or more digits and nothing else, with a value in range.
pub open spec fn spec_parse_i32(text: Seq<u8>) -> Option<i32> {
    let digits = unsigned(text);
    let magnitude = decimal_value(digits) as int;
    let value = if has_minus(text) {
        -magnitude
    } else {
        magnitude
    };
    if digits.len() > 0 && all_digits(digits) && i32::MIN <= value <= i32::MAX {
        Some(value as i32)
    } else {
        None
    }
}

/// The 8-bit unsigned integer that a text denotes: an optional `+`, then one
/// or more digits and nothing else, with a value in range.
pub open spec fn spec_parse_u8(text: Seq<u8>) -> Option<u8> {
    let digits = if has_sign(text) && !has_minus(text) {
        text.drop_first()
    } else {
        text
    };
    if digits.len() > 0 && all_digits(digits) && decimal_value(digits) <= u8::MAX {
        Some(decimal_value(digits) as u8)
    } else {
        None
    }
}

/// A longer run of digits denotes no smaller a number than its prefix.
pub proof fn lemma_decimal_prefix(digits: Seq<u8>, k: int)
    requires
        0 <= k <= digits.len(),
    ensures
        decimal_value(digits.subrange(0, k)) <= decimal_value(digits),
    decreases digits.len() - k,
{
    if k == digits.len() {
        assert(digits.subrange(0, k) =~= digits);
    } else {
        lemma_decimal_prefix(digits.drop_last(), k);
        assert(digits.drop_last().subrange(0, k) =~= digits.subrange(0, k));
    }
}

/// Reads the digits from `start` to the end of `bytes` as a number no larger
/// than `limit`.
fn parse_magnitude(bytes: &[u8], start: usize, limit: u64) -> (r: Option<u64>)
    requires
        start <= bytes.len(),
        limit <= 0xFFFF_FFFF,
    ensures
        r == ({
            let digits = bytes@.subrange(start as int, bytes@.len() as int);
            if digits.len() > 0 && all_digits(digits) && decimal_value(digits) <= limit {
                Some(decimal_value(digits) as u64)
            } else {
                None
            }
        }),
{
    let ghost digits = bytes@.subrange(start as int, bytes@.len() as int);
    if start == bytes.len() {
        return None;
    }
    let mut acc: u64 = 0;
    let mut i: usize = start;
    while i < bytes.len()
        invariant
            digits == bytes@.subrange(start as int, bytes@.len() as int),
            start <= i <= bytes.len(),
            limit <= 0xFFFF_FFFF,
            acc <= limit,
            acc == decimal_value(digits.subrange(0, i - start)),
            all_digits(digits.subrange(0, i - start)),
        decreases bytes.len() - i,
    {
        let b = bytes[i];
        if !is_digit(b) {
            proof {
                assert(digits[i - start] == b);
            }
            return None;
        }
        let next: u64 = acc * 10 + (b - 0x30) as u64;
        proof {
            let upto = digits.subrange(0, i - start + 1);
            assert(upto.drop_last() =~= digits.subrange(0, i - start));
        }
        if next > limit {
            proof {
                lemma_decimal_prefix(digits, i - start + 1);
            }
            return None;
        }
        acc = next;
        i += 1;
    }
    proof {
        assert(digits.subrange(0, i - start) =~= digits);
    }
    Some(acc)
}

/// Reads a text as a 32-bit integer in decimal notation.
pub fn parse_i32(text: &str) -> (r: Option<i32>)
    ensures
        r == spec_parse_i32(text.spec_bytes()),
{
    let bytes = text.as_bytes();
    let negative = bytes.len() > 0 && bytes[0] == 0x2D;
    let signed = bytes.len() > 0 && (bytes[0] == 0x2B || bytes[0] == 0x2D);
    let start: usize = if signed {
        1
    } else {
        0
    };
    let limit: u64 = if negative {
        0x8000_0000
    } else {
        0x7FFF_FFFF
    };
    proof {
        assert(bytes@.subrange(start as int, bytes@.len() as int) =~= unsigned(bytes@));
    }
    match parse_magnitude(bytes, start, limit) {
        None => None,
        Some(magnitude) => {
            let value: i64 = if negative {
                0 - (magnitude as i64)
            } else {
                magnitude as i64
            };
            Some(value as i32)
        },
    }
}

/// Reads a text as an 8-bit unsigned integer in decimal notation.
pub fn parse_u8(text: &str) -> (r: Option<u8>)
    ensures
        r == spec_parse_u8(text.spec_bytes()),
{
    let bytes = text.as_bytes();
    let start: usize = if bytes.len() > 0 && bytes[0] == 0x2B {
        1
    } else {
        0
    };
    proof {
        let digits = if has_sign(bytes@) && !has_minus(bytes@) {
            bytes@.drop_first()
        } else {
            bytes@
        };
        assert(bytes@.subrange(start as int, bytes@.len() as int) =~= digits);
    }
    match parse_magnitude(bytes, start, 0xFF) {
        None => None,
        Some(magnitude) => Some(magnitude as u8),
    }
}

/// A byte with an ASCII capital letter turned into its small letter.
pub open spec fn lower(b: u8) -> u8 {
    if 0x41 <= b <= 0x5A {
        (b + 0x20) as u8
    } else {
        b
    }
}

/// `body` is `word`, whatever the case of its letters; `word` is in small
/// letters.
pub open spec fn spells(body: Seq<u8>, word: Seq<u8>) -> bool {
    &&& body.len() == word.len()
    &&& forall|i: int| 0 <= i < word.len() ==> lower(#[trigger] body[i]) == word[i]
}

/// The body of a numeral is one of the words `inf`, `infinity` and `nan`.
pub open spec fn is_special(body: Seq<u8>) -> bool {
    ||| spells(body, seq![0x69u8, 0x6E, 0x66])
    ||| spells(body, seq![0x6Eu8, 0x61, 0x6E])
    ||| spells(body, seq![0x69u8, 0x6E, 0x66, 0x69, 0x6E, 0x69, 0x74, 0x79])
}

/// An exponent: `e` or `E`, an optional sign, then one or more digits and
/// nothing else.
pub open spec fn is_exponent(tail: Seq<u8>) -> bool {
    &&& tail.len() > 0
    &&& (tail[0] == 0x65 || tail[0] == 0x45)
    &&& unsigned(tail.drop_first()).len() > 0
    &&& all_digits(unsigned(tail.drop_first()))
}

/// The body of a numeral is a decimal number: digits, optionally a point
/// and more digits, with at least one digit before or after the point, and
/// optionally an exponent.
pub open spec fn is_number(body: Seq<u8>) -> bool {
    let whole = prefix_run(body, digit_byte()) as int;
    let after = body.subrange(whole, body.len() as int);
    let pointed = after.len() > 0 && after[0] == 0x2E;
    let fraction = if pointed {
        prefix_run(after.drop_first(), digit_byte()) as int
    } else {
        0
    };
    let tail = if pointed {
        after.subrange(1 + fraction, after.len() as int)
    } else {
        after
    };
    whole + fraction > 0 && (tail.len() == 0 || is_exponent(tail))
}

/// The text is the numeral of a real number: an optional sign, then a
/// decimal number or one of the words `inf`, `infinity` and `nan`.
pub open spec fn is_real_literal(text: Seq<u8>) -> bool {
    is_special(unsigned(text)) || is_number(unsigned(text))
}

/// Tests whether the bytes of `bytes` from `start` on are `word`, whatever
/// the case of their letters.
fn spells_from(bytes: &[u8], start: usize, word: &[u8]) -> (r: bool)
    requires
        start <= bytes.len(),
    ensures
        r == spells(bytes@.subrange(start as int, bytes@.len() as int), word@),
{
    let ghost body = bytes@.subrange(start as int, bytes@.len() as int);
    if bytes.len() - start != word.len() {
        return false;
    }
    let mut i: usize = 0;
    while i < word.len()
        invariant
            body == bytes@.subrange(start as int, bytes@.len() as int),
            start + word.len() == bytes.len(),
            i <= word.len(),
            forall|j: int| 0 <= j < i ==> lower(#[trigger] body[j]) == word@[j],
        decreases word.len() - i,
    {
        let b = bytes[start + i];
        let small: u8 = if 0x41 <= b && b <= 0x5A {
            b + 0x20
        } else {
            b
        };
        if small != word[i] {
            proof {
                assert(body[i as int] == b);
            }
            return false;
        }
        i += 1;
    }
    true
}

/// The offset at which the run of digits that starts at `from` ends.
fn digits_end(bytes: &[u8], from: usize) -> (to: usize)
    requires
        from <= bytes.len(),
    ensures
        from <= to <= bytes.len(),
        to - from == prefix_run(bytes@.subrange(from as int, bytes@.len() as int), digit_byte()),
        to == bytes.len() <==> all_digits(bytes@.subrange(from as int, bytes@.len() as int)),
{
    let ghost rest = bytes@.subrange(from as int, bytes@.len() as int);
    let mut to: usize = from;
    while to < bytes.len() && is_digit(bytes[to])
        invariant
            rest == bytes@.subrange(from as int, bytes@.len() as int),
            from <= to <= bytes.len(),
            forall|j: int| 0 <= j < to - from ==> digit_byte()(#[trigger] rest[j]),
        decreases bytes.len() - to,
    {
        to += 1;
    }
    proof {
        lemma_prefix_run(rest, digit_byte(), to - from);
    }
    to
}

/// Tests whether the bytes from `start` on are one of the words `inf`,
/// `infinity` and `nan`.
fn special_from(bytes: &[u8], start: usize) -> (r: bool)
    requires
        start <= bytes.len(),
    ensures
        r == is_special(bytes@.subrange(start as int, bytes@.len() as int)),
{
    let inf: [u8; 3] = [0x69, 0x6E, 0x66];
    let nan: [u8; 3] = [0x6E, 0x61, 0x6E];
    let infinity: [u8; 8] = [0x69, 0x6E, 0x66, 0x69, 0x6E, 0x69, 0x74, 0x79];
    spells_from(bytes, start, inf.as_slice()) || spells_from(bytes, start, nan.as_slice())
        || spells_from(bytes, start, infinity.as_slice())
}

/// Tests whether the bytes from `start` on are an exponent.
fn exponent_from(bytes: &[u8], start: usize) -> (r: bool)
    requires
        start < bytes.len(),
    ensures
        r == is_exponent(bytes@.subrange(start as int, bytes@.len() as int)),
{
    let len = bytes.len();
    let ghost tail = bytes@.subrange(start as int, len as int);
    proof {
        assert(tail.drop_first() =~= bytes@.subrange(start + 1, len as int));
    }
    if bytes[start] != 0x65 && bytes[start] != 0x45 {
        return false;
    }
    let mut pos: usize = start + 1;
    if pos < len && (bytes[pos] == 0x2B || bytes[pos] == 0x2D) {
        proof {
            assert(tail.drop_first().drop_first() =~= bytes@.subrange(pos + 1, len as int));
        }
        pos += 1;
    }
    if pos == len {
        return false;
    }
    let end = digits_end(bytes, pos);
    end == len
}

/// Tests whether the bytes from `start` on are a decimal number.
fn number_from(bytes: &[u8], start: usize) -> (r: bool)
    requires
        start <= bytes.len(),
    ensures
        r == is_number(bytes@.subrange(start as int, bytes@.len() as int)),
{
    let len = bytes.len();
    let ghost body = bytes@.subrange(start as int, len as int);
    let whole_end = digits_end(bytes, start);
    let ghost after = body.subrange(whole_end - start, body.len() as int);
    proof {
        assert(after =~= bytes@.subrange(whole_end as int, len as int));
    }
    let mut count: usize = whole_end - start;
    let mut pos: usize = whole_end;
    if pos < len && bytes[pos] == 0x2E {
        proof {
            assert(after.drop_first() =~= bytes@.subrange(pos + 1, len as int));
        }
        let fraction_end = digits_end(bytes, pos + 1);
        count = count + (fraction_end - (pos + 1));
        proof {
            assert(after.subrange(1 + (fraction_end - (pos + 1)), after.len() as int)
                =~= bytes@.subrange(fraction_end as int, len as int));
        }
        pos = fraction_end;
    }
    if count == 0 {
        return false;
    }
    if pos == len {
        return true;
    }
    exponent_from(bytes, pos)
}

/// Tests whether a text is the numeral of a real number.
pub fn is_real(text: &str) -> (r: bool)
    ensures
        r == is_real_literal(text.spec_bytes()),
{
    let bytes = text.as_bytes();
    let start: usize = if bytes.len() > 0 && (bytes[0] == 0x2B || bytes[0] == 0x2D) {
        1
    } else {
        0
    };
    proof {
        assert(bytes@.subrange(start as int, bytes@.len() as int) =~= unsigned(bytes@));
    }
    special_from(bytes, start) || number_from(bytes, start)
}

} // verus!
