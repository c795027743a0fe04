use bible_search::text::{
    append_chars, char_is_digit, char_is_whitespace, contains_chars, from_chars, matches_at,
    same_chars, starts_with_chars, to_chars, to_lower, to_lower_char, to_upper, to_upper_char,
    trim_chars,
};

fn chars(s: &str) -> Vec<char> {
    s.chars().collect()
}

#[test]
fn chars_and_strings_convert_both_ways() {
    assert_eq!(to_chars("Jn 3:16"), chars("Jn 3:16"));
    assert_eq!(to_chars(""), Vec::<char>::new());
    assert_eq!(to_chars("añ\u{3000}b"), vec!['a', 'ñ', '\u{3000}', 'b']);
    assert_eq!(from_chars(&vec!['J', 'o', 'b']), "Job");
    assert_eq!(from_chars(&Vec::new()), "");
    assert_eq!(from_chars(&to_chars("Ünïcödé text")), "Ünïcödé text");
}

#[test]
fn whitespace_is_the_unicode_property() {
    for n in 0u32..=0x10FFFF {
        if let Some(c) = char::from_u32(n) {
            assert_eq!(char_is_whitespace(c), c.is_whitespace(), "code point {:#x}", n);
        }
    }
}

#[test]
fn digits_are_the_ascii_digits() {
    for n in 0u32..=0x10FFFF {
        if let Some(c) = char::from_u32(n) {
            assert_eq!(char_is_digit(c), c.is_ascii_digit(), "code point {:#x}", n);
        }
    }
}

#[test]
fn case_of_every_character_is_the_ascii_case() {
    for n in 0u32..=0x10FFFF {
        if let Some(c) = char::from_u32(n) {
            assert_eq!(to_upper_char(c), c.to_ascii_uppercase(), "code point {:#x}", n);
            assert_eq!(to_lower_char(c), c.to_ascii_lowercase(), "code point {:#x}", n);
        }
    }
}

#[test]
fn upper_and_lower_fold_ascii_letters_only() {
    assert_eq!(to_upper(&chars("1 Kings, ch. 3!")), chars("1 KINGS, CH. 3!"));
    assert_eq!(to_lower(&chars("1 Kings, CH. 3!")), chars("1 kings, ch. 3!"));
    assert_eq!(to_upper(&chars("straße")), chars("STRAßE"));
    assert_eq!(to_lower(&chars("ÀB")), chars("Àb"));
    assert_eq!(to_upper(&chars("")), chars(""));
}

#[test]
fn matches_at_compares_in_place() {
    let hay = chars("THE BOOK OF JOHN");
    assert!(matches_at(&hay, &chars("THE"), 0));
    assert!(matches_at(&hay, &chars("BOOK"), 4));
    assert!(!matches_at(&hay, &chars("BOOK"), 3));
    assert!(matches_at(&hay, &chars("JOHN"), 12));
    assert!(!matches_at(&hay, &chars("JOHN"), 13));
    assert!(!matches_at(&hay, &chars("JOHN"), usize::MAX));
    assert!(matches_at(&hay, &chars(""), 16));
    assert!(!matches_at(&hay, &chars(""), 17));
}

#[test]
fn contains_finds_a_substring_anywhere() {
    let hay = chars("  THE BOOK OF JOHN  ");
    assert!(contains_chars(&hay, &chars("THE BOOK OF JOHN")));
    assert!(contains_chars(&hay, &chars("JOHN  ")));
    assert!(contains_chars(&hay, &chars("  T")));
    assert!(contains_chars(&hay, &chars("")));
    assert!(contains_chars(&chars(""), &chars("")));
    assert!(!contains_chars(&chars(""), &chars("A")));
    assert!(!contains_chars(&hay, &chars("JOHNS")));
    assert!(!contains_chars(&hay, &chars("the book")));
    assert!(!contains_chars(&chars("aab"), &chars("abb")));
    assert!(contains_chars(&chars("aaab"), &chars("aab")));
    assert!(!contains_chars(&chars("ab"), &chars("abc")));
}

#[test]
fn contains_agrees_with_std_on_small_strings() {
    let alphabet = ['a', 'b'];
    let mut all: Vec<String> = vec![String::new()];
    let mut from = 0;
    for _ in 0..5 {
        let to = all.len();
        for i in from..to {
            for c in alphabet {
                let mut s = all[i].clone();
                s.push(c);
                all.push(s);
            }
        }
        from = to;
    }
    for hay in &all {
        for needle in &all {
            assert_eq!(
                contains_chars(&chars(hay), &chars(needle)),
                hay.contains(needle.as_str()),
                "{:?} in {:?}",
                needle,
                hay
            );
            assert_eq!(
                starts_with_chars(&chars(hay), &chars(needle)),
                hay.starts_with(needle.as_str())
            );
            assert_eq!(same_chars(&chars(hay), &chars(needle)), hay == needle);
        }
    }
}

#[test]
fn starts_with_is_a_prefix_test() {
    assert!(starts_with_chars(&chars("16 For God"), &chars("16")));
    assert!(starts_with_chars(&chars("16 For God"), &chars("")));
    assert!(starts_with_chars(&chars("16"), &chars("16")));
    assert!(!starts_with_chars(&chars("1"), &chars("16")));
    assert!(!starts_with_chars(&chars(" 16"), &chars("16")));
}

#[test]
fn append_adds_the_characters_at_the_end() {
    let mut v = chars("JOHN 3:");
    append_chars(&mut v, &chars("16 For God"));
    assert_eq!(v, chars("JOHN 3:16 For God"));
    append_chars(&mut v, &chars(""));
    assert_eq!(v, chars("JOHN 3:16 For God"));
    let mut empty = Vec::new();
    append_chars(&mut empty, &chars("x"));
    assert_eq!(empty, chars("x"));
}

#[test]
fn trim_removes_white_space_at_both_ends_only() {
    assert_eq!(trim_chars(&chars("  John \n")), chars("John"));
    assert_eq!(trim_chars(&chars("\t1 Kings\r\n")), chars("1 Kings"));
    assert_eq!(trim_chars(&chars("John")), chars("John"));
    assert_eq!(trim_chars(&chars("")), chars(""));
    assert_eq!(trim_chars(&chars(" \n\t ")), chars(""));
    assert_eq!(trim_chars(&chars("\u{a0}3\u{2003}")), chars("3"));
    for s in ["  a b  ", "a", " ", "", "\n16\n", "x \u{3000}", "\u{feff}a "] {
        assert_eq!(from_chars(&trim_chars(&chars(s))), s.trim());
    }
}
