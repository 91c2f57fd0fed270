use fieldparse::utils::{
    blank, is_alphabetic, is_blank, is_digit, pword, same_text, skip, starts_with_at, tag, take,
    trim, triml, trimr, until, Error, Split,
};

const TEST_STRING: &'static str = "\t\r \nn͈̰̎u͔n͈̰̎i̙̮͚̦c͚̉o̼̩̰͗d͔̆̓ͥé\n\t   \t\r\r";

#[test]
fn triml_test() {
    assert_eq!("n͈̰̎u͔n͈̰̎i̙̮͚̦c͚̉o̼̩̰͗d͔̆̓ͥé\n\t   \t\r\r",
               triml(TEST_STRING).unwrap().right);
}

#[test]
fn trimr_test() {
    assert_eq!("\t\r \nn͈̰̎u͔n͈̰̎i̙̮͚̦c͚̉o̼̩̰͗d͔̆̓ͥé",
               trimr(TEST_STRING).unwrap().left);
}

#[test]
fn trim_test() {
    assert_eq!("n͈̰̎u͔n͈̰̎i̙̮͚̦c͚̉o̼̩̰͗d͔̆̓ͥé",
               trim(TEST_STRING).unwrap());
}

#[test]
fn triml_keeps_the_blanks_on_the_left() {
    let split = triml("  \t\r\n adln \n   \n").unwrap();
    assert_eq!(split.left, "  \t\r\n ");
    assert_eq!(split.right, "adln \n   \n");
}

#[test]
fn trimr_keeps_the_blanks_on_the_right() {
    let split = trimr("  \t\r\n adln \n   \n").unwrap();
    assert_eq!(split.left, "  \t\r\n adln");
    assert_eq!(split.right, " \n   \n");
}

#[test]
fn trim_of_blanks_only_is_empty() {
    assert_eq!(trim(" \t\r\n ").unwrap(), "");
    assert_eq!(trim("").unwrap(), "");
    assert_eq!(triml("   ").unwrap(), Split::new("   ", ""));
    assert_eq!(trimr("   ").unwrap(), Split::new("", "   "));
}

#[test]
fn trim_keeps_inner_blanks() {
    assert_eq!(trim("  a b\tc  ").unwrap(), "a b\tc");
}

#[test]
fn trim_does_not_strip_other_whitespace() {
    // A no-break space and a form feed are no blanks here.
    assert_eq!(trim("\u{a0}x\u{a0}").unwrap(), "\u{a0}x\u{a0}");
    assert_eq!(trim("\u{c}x\u{c}").unwrap(), "\u{c}x\u{c}");
}

#[test]
fn trim_is_idempotent_on_examples() {
    for s in ["", " ", "a", "  a  ", "\t\r\n a b \n", TEST_STRING, " é ", "\u{a0} x"] {
        let once = trim(s).unwrap();
        assert_eq!(trim(once).unwrap(), once);
    }
}

#[test]
fn take_splits_at_the_offset() {
    let split = take("ATOM     23", 6).unwrap();
    assert_eq!(split.left, "ATOM  ");
    assert_eq!(split.right, "   23");
}

#[test]
fn take_of_nothing_and_of_everything() {
    assert_eq!(take("abc", 0).unwrap(), Split::new("", "abc"));
    assert_eq!(take("abc", 3).unwrap(), Split::new("abc", ""));
    assert_eq!(take("", 0).unwrap(), Split::new("", ""));
}

#[test]
fn take_beyond_the_end_is_refused() {
    assert_eq!(take("abc", 4), Err(Error::InsufficientBuffer));
    assert_eq!(take("", 1), Err(Error::InsufficientBuffer));
}

#[test]
fn take_inside_a_character_is_refused() {
    // 'é' takes two bytes.
    assert_eq!(take("é", 1), Err(Error::InvalidCharBoundary));
    assert_eq!(take("aé", 2), Err(Error::InvalidCharBoundary));
    assert_eq!(take("aé", 3).unwrap(), Split::new("aé", ""));
    assert_eq!(take("日本", 3).unwrap(), Split::new("日", "本"));
    assert_eq!(take("日本", 4), Err(Error::InvalidCharBoundary));
}

#[test]
fn take_then_concatenation_rebuilds_the_buffer() {
    let buffer = "aé日本 𝄞 end";
    for n in 0..=buffer.len() {
        match take(buffer, n) {
            Ok(split) => {
                assert!(buffer.is_char_boundary(n));
                assert_eq!(split.left.len(), n);
                assert_eq!(format!("{}{}", split.left, split.right), buffer);
            }
            Err(e) => {
                assert_eq!(e, Error::InvalidCharBoundary);
                assert!(!buffer.is_char_boundary(n));
            }
        }
    }
}

#[test]
fn skip_checks_as_take_does() {
    assert_eq!(skip("abcdef", 2).unwrap().right, "cdef");
    assert_eq!(skip("abc", 4), Err(Error::InsufficientBuffer));
    assert_eq!(skip("é", 1), Err(Error::InvalidCharBoundary));
}

#[test]
fn tag_takes_the_expected_text() {
    let split = tag("d_7_ te2_243 st test", "d_7_ te2_243 st test").unwrap();
    assert_eq!(split.left, "d_7_ te2_243 st test");
    assert_eq!(split.right, "");
    assert_eq!(tag("ATOM  23", "ATOM").unwrap(), Split::new("ATOM", "  23"));
    assert_eq!(tag("abc", "").unwrap(), Split::new("", "abc"));
}

#[test]
fn tag_refuses_another_text() {
    assert_eq!(tag("HETATM", "ATOM"), Err(Error::TagNotEqual));
    assert_eq!(tag("AT", "ATOM"), Err(Error::InsufficientBuffer));
    assert_eq!(tag("éa", "a"), Err(Error::InvalidCharBoundary));
}

#[test]
fn character_classes() {
    assert!(is_alphabetic(b'A') && is_alphabetic(b'Z') && is_alphabetic(b'a') && is_alphabetic(b'z'));
    assert!(!is_alphabetic(b'@') && !is_alphabetic(b'[') && !is_alphabetic(b'`') && !is_alphabetic(b'{'));
    assert!(!is_alphabetic(b'_') && !is_alphabetic(b'0') && !is_alphabetic(0xC3));
    assert!(is_digit(b'0') && is_digit(b'9'));
    assert!(!is_digit(b'/') && !is_digit(b':') && !is_digit(b'a'));
    assert!(is_blank(' ') && is_blank('\t') && is_blank('\r') && is_blank('\n'));
    assert!(!is_blank('a') && !is_blank('\u{a0}') && !is_blank('\u{b}') && !is_blank('\u{c}'));
}

#[test]
fn pword_takes_a_word() {
    let split = pword("d_7_ te2_243 st test").unwrap();
    assert_eq!(split.left, "d_7_");
    assert_eq!(split.right, " te2_243 st test");
    assert_eq!(pword("_x9-y").unwrap(), Split::new("_x9", "-y"));
    assert_eq!(pword("Zé").unwrap(), Split::new("Z", "é"));
}

#[test]
fn pword_takes_a_word_that_ends_the_buffer() {
    assert_eq!(pword("word").unwrap(), Split::new("word", ""));
    assert_eq!(pword("a").unwrap(), Split::new("a", ""));
    assert_eq!(pword("_").unwrap(), Split::new("_", ""));
}

#[test]
fn pword_refuses_what_opens_with_no_letter() {
    assert_eq!(pword(""), Err(Error::EmptyBuffer));
    assert_eq!(pword("7up"), Err(Error::InvalidPWord));
    assert_eq!(pword(" a"), Err(Error::InvalidPWord));
    assert_eq!(pword("éa"), Err(Error::InvalidPWord));
}

#[test]
fn pword_token_opens_with_a_letter_or_an_underscore() {
    for s in ["a", "_", "a1", "_9x y", "Q_", "x-", "z9é"] {
        let split = pword(s).unwrap();
        let first = split.left.as_bytes()[0];
        assert!(!split.left.is_empty());
        assert!(is_alphabetic(first) || first == b'_');
        assert_eq!(format!("{}{}", split.left, split.right), s);
    }
}

#[test]
fn blank_takes_the_leading_blanks() {
    assert_eq!(blank(" \t x ").unwrap(), Split::new(" \t ", "x "));
    assert_eq!(blank("x").unwrap(), Split::new("", "x"));
    assert_eq!(blank("").unwrap(), Split::new("", ""));
}

#[test]
fn until_stops_before_the_first_ending() {
    assert_eq!(until("abcdefg", &["e", "c"]).unwrap(), Split::new("ab", "cdefg"));
    assert_eq!(until("abcdefg", &["fg", "efg"]).unwrap(), Split::new("abcd", "efg"));
    assert_eq!(until("abcdefg", &["a"]).unwrap(), Split::new("", "abcdefg"));
    assert_eq!(until("abcdefg", &["g"]).unwrap(), Split::new("abcdef", "g"));
}

#[test]
fn until_without_an_ending_takes_everything() {
    assert_eq!(until("abcdefg", &["j", "w"]).unwrap(), Split::new("abcdefg", ""));
    assert_eq!(until("abcdefg", &[]).unwrap(), Split::new("abcdefg", ""));
    assert_eq!(until("abcdefg", &["gh"]).unwrap(), Split::new("abcdefg", ""));
    assert_eq!(until("", &["a"]).unwrap(), Split::new("", ""));
}

#[test]
fn until_with_an_empty_ending_takes_nothing() {
    assert_eq!(until("abc", &[""]).unwrap(), Split::new("", "abc"));
    assert_eq!(until("", &[""]).unwrap(), Split::new("", ""));
}

#[test]
fn until_walks_over_multi_byte_characters() {
    assert_eq!(until("日本語;x", &[";"]).unwrap(), Split::new("日本語", ";x"));
    assert_eq!(until("aé日b", &["日"]).unwrap(), Split::new("aé", "日b"));
    assert_eq!(until("ééé", &["x"]).unwrap(), Split::new("ééé", ""));
}

#[test]
fn starts_with_at_finds_a_text_at_an_offset() {
    assert!(starts_with_at(b"abcdef", 2, b"cd"));
    assert!(starts_with_at(b"abcdef", 0, b"abcdef"));
    assert!(starts_with_at(b"abcdef", 6, b""));
    assert!(starts_with_at(b"", 0, b""));
    assert!(!starts_with_at(b"abcdef", 2, b"ce"));
    assert!(!starts_with_at(b"abcdef", 4, b"efg"));
    assert!(!starts_with_at(b"abcdef", 7, b""));
    assert!(!starts_with_at(b"abcdef", usize::MAX, b"a"));
}

#[test]
fn same_text_compares_whole_texts() {
    assert!(same_text("", ""));
    assert!(same_text("ATOM", "ATOM"));
    assert!(same_text("日本é", "日本é"));
    assert!(!same_text("ATOM", "ATOM "));
    assert!(!same_text("ATOM", "ATOm"));
    assert!(!same_text("", "a"));
}
