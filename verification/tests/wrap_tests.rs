use bible_search::text::to_chars;
use bible_search::words::{join_chars, split_words};
use bible_search::wrap::{fill_lines, wrap_text, LINE_WIDTH};

fn chars(s: &str) -> Vec<char> {
    s.chars().collect()
}

fn word(c: char, n: usize) -> String {
    std::iter::repeat(c).take(n).collect()
}

#[test]
fn words_are_the_runs_between_white_space() {
    assert_eq!(
        split_words(&chars("  In the\tbeginning \n God ")),
        vec![chars("In"), chars("the"), chars("beginning"), chars("God")]
    );
    assert_eq!(split_words(&chars("CHAPTER 3")), vec![chars("CHAPTER"), chars("3")]);
    assert_eq!(split_words(&chars("one")), vec![chars("one")]);
    assert_eq!(split_words(&chars("")), Vec::<Vec<char>>::new());
    assert_eq!(split_words(&chars(" \n ")), Vec::<Vec<char>>::new());
    for s in ["a  b", " a", "a ", "a\u{2003}b\u{a0}c", "x\ny\r\nz", ""] {
        let expected: Vec<Vec<char>> = s.split_whitespace().map(|w| w.chars().collect()).collect();
        assert_eq!(split_words(&to_chars(s)), expected);
    }
}

#[test]
fn join_puts_the_separator_between_parts() {
    assert_eq!(join_chars(&vec![chars("a"), chars("bc"), chars("d")], '\n'), chars("a\nbc\nd"));
    assert_eq!(join_chars(&vec![chars("a")], '\n'), chars("a"));
    assert_eq!(join_chars(&Vec::new(), '\n'), chars(""));
    assert_eq!(join_chars(&vec![chars(""), chars("")], ','), chars(","));
}

#[test]
fn line_width_is_eighty() {
    assert_eq!(LINE_WIDTH, 80);
}

#[test]
fn fill_breaks_before_the_word_that_does_not_fit() {
    let ws = vec![chars(&word('a', 40)), chars(&word('b', 39)), chars("c")];
    let mut first = word('a', 40);
    first.push(' ');
    first.push_str(&word('b', 39));
    assert_eq!(fill_lines(&ws), vec![chars(&first), chars("c")]);
    assert_eq!(fill_lines(&Vec::new()), Vec::<Vec<char>>::new());
}

#[test]
fn short_text_is_returned_as_it_is() {
    assert_eq!(wrap_text("JOHN 3:16 For God so loved the world"), "JOHN 3:16 For God so loved the world");
    assert_eq!(wrap_text("x"), "x");
    assert_eq!(wrap_text(""), "");
}

#[test]
fn text_of_exactly_one_line_is_not_broken() {
    let text = format!("{} {}", word('a', 40), word('b', 39));
    assert_eq!(text.chars().count(), 80);
    assert_eq!(wrap_text(&text), text);
}

#[test]
fn text_one_character_longer_than_a_line_is_broken() {
    let text = format!("{} {}", word('a', 40), word('b', 40));
    assert_eq!(text.chars().count(), 81);
    assert_eq!(wrap_text(&text), format!("{}\n{}", word('a', 40), word('b', 40)));
}

#[test]
fn white_space_is_made_one_space() {
    assert_eq!(wrap_text("  In   the\tbeginning\n\nGod  "), "In the beginning God");
    assert_eq!(wrap_text(" \n\t "), "");
}

#[test]
fn a_long_verse_is_wrapped_between_words() {
    let verse = "JOHN 3:16 For God so loved the world, that he gave his only begotten Son, that whosoever believeth in him should not perish, but have everlasting life.";
    let expected = "JOHN 3:16 For God so loved the world, that he gave his only begotten Son, that\nwhosoever believeth in him should not perish, but have everlasting life.";
    assert_eq!(wrap_text(verse), expected);
}

#[test]
fn a_word_longer_than_a_line_stands_alone() {
    let long = word('x', 95);
    let text = format!("ab {} cd ef", long);
    assert_eq!(wrap_text(&text), format!("ab\n{}\ncd ef", long));
    assert_eq!(wrap_text(&long), long);
}

#[test]
fn width_counts_characters() {
    let text = format!("{} {}", word('é', 40), word('ü', 39));
    assert_eq!(wrap_text(&text), text);
    let longer = format!("{} {}", word('é', 40), word('ü', 40));
    assert_eq!(wrap_text(&longer), format!("{}\n{}", word('é', 40), word('ü', 40)));
}

fn sample_texts() -> Vec<String> {
    let mut texts = Vec::new();
    let mut seed: u32 = 12345;
    for n in 0..60 {
        let mut text = String::new();
        for _ in 0..(n * 3) {
            seed = seed.wrapping_mul(1664525).wrapping_add(1013904223);
            let len = 1 + (seed >> 24) as usize % 12;
            seed = seed.wrapping_mul(1664525).wrapping_add(1013904223);
            let gap = 1 + (seed >> 28) as usize % 3;
            text.push_str(&word('w', len));
            text.push_str(&word(' ', gap));
        }
        texts.push(text);
    }
    texts
}

#[test]
fn no_line_is_longer_than_the_width() {
    for text in sample_texts() {
        for line in wrap_text(&text).split('\n') {
            assert!(line.chars().count() <= 80, "{:?}", line);
        }
    }
}

#[test]
fn joining_the_lines_with_spaces_gives_the_normalized_text() {
    for text in sample_texts() {
        let normalized = text.split_whitespace().collect::<Vec<&str>>().join(" ");
        assert_eq!(wrap_text(&text).replace('\n', " "), normalized);
    }
}

#[test]
fn wrapping_keeps_the_words_and_does_nothing_twice() {
    for text in sample_texts() {
        let wrapped = wrap_text(&text);
        assert_eq!(
            wrapped.split_whitespace().collect::<Vec<&str>>(),
            text.split_whitespace().collect::<Vec<&str>>()
        );
        assert_eq!(wrap_text(&wrapped), wrapped);
    }
}

#[test]
fn wrapping_agrees_with_greedy_filling() {
    for text in sample_texts() {
        let mut lines: Vec<String> = Vec::new();
        let mut line = String::new();
        for w in text.split_whitespace() {
            if !line.is_empty() && line.chars().count() + w.chars().count() + 1 > 80 {
                lines.push(line.clone());
                line.clear();
            }
            if !line.is_empty() {
                line.push(' ');
            }
            line.push_str(w);
        }
        if !line.is_empty() {
            lines.push(line);
        }
        assert_eq!(wrap_text(&text), lines.join("\n"));
    }
}
