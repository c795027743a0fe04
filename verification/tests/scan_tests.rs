use bible_search::abbrev::AbbreviationTable;
use bible_search::reference::NormalizedReference;
use bible_search::scan::{scan_line, search_bible, ScanOutcome, ScanState, Step};

fn reference(book: &str, chapter: &str, verse: &str) -> NormalizedReference {
    NormalizedReference::normalize(book, chapter, verse, &AbbreviationTable::new())
}

fn lines(text: &[&str]) -> Vec<String> {
    text.iter().map(|l| l.to_string()).collect()
}

fn corpus() -> Vec<String> {
    lines(&[
        "THE PROJECT TEXT",
        "",
        "THE GOSPEL: THE BOOK OF LUKE",
        "CHAPTER 1",
        "1 Forasmuch as many have taken in hand",
        "2 Even as they delivered them unto us",
        "CHAPTER 3",
        "16 John answered, saying unto them all",
        "",
        "THE GOSPEL: THE BOOK OF JOHN",
        "CHAPTER 1",
        "1 In the beginning was the Word",
        "10 He was in the world",
        "CHAPTER 3",
        "1 There was a man of the Pharisees",
        "16 For God so loved the world...",
        "17 For God sent not his Son",
        "",
        "THE BOOK OF PSALMS",
        "PSALM 23",
        "1 The LORD is my shepherd; I shall not want.",
        "the end",
    ])
}

fn found(text: &str) -> Option<ScanOutcome> {
    Some(ScanOutcome::VerseFound(text.to_string()))
}

#[test]
fn verse_is_found_under_its_book_and_chapter() {
    let c = lines(&[
        "THE GOSPEL: THE BOOK OF JOHN",
        "CHAPTER 3",
        "16 For God so loved the world...",
    ]);
    assert_eq!(
        search_bible(&reference("John", "3", "16"), &c),
        found("JOHN 3:16 For God so loved the world...")
    );
}

#[test]
fn verse_is_found_in_the_right_book() {
    let c = corpus();
    assert_eq!(
        search_bible(&reference("John", "3", "16"), &c),
        found("JOHN 3:16 For God so loved the world...")
    );
    assert_eq!(
        search_bible(&reference("luke", "3", "16"), &c),
        found("LUKE 3:16 John answered, saying unto them all")
    );
    assert_eq!(
        search_bible(&reference(" Luke\n", "1\n", "2\n"), &c),
        found("LUKE 1:2 Even as they delivered them unto us")
    );
    assert_eq!(
        search_bible(&reference("Psalms", "23", "1"), &c),
        found("PSALMS 23:1 The LORD is my shepherd; I shall not want.")
    );
}

#[test]
fn chapter_that_is_never_seen_is_missing() {
    let c = lines(&[
        "THE GOSPEL: THE BOOK OF JOHN",
        "CHAPTER 3",
        "16 For God so loved the world...",
    ]);
    assert_eq!(search_bible(&reference("John", "99", "16"), &c), Some(ScanOutcome::ChapterMissing));
    assert_eq!(
        search_bible(&reference("John", "99", "16"), &corpus()),
        Some(ScanOutcome::ChapterMissing)
    );
    assert_eq!(
        search_bible(&reference("Luke", "2", "1"), &corpus()),
        Some(ScanOutcome::ChapterMissing)
    );
}

#[test]
fn verse_zero_is_always_missing() {
    let c = corpus();
    assert_eq!(search_bible(&reference("John", "3", "0"), &c), Some(ScanOutcome::VerseMissing));
    assert_eq!(search_bible(&reference("Xyzzy", "3", "0"), &c), Some(ScanOutcome::VerseMissing));
    assert_eq!(search_bible(&reference("John", "99", "0"), &c), Some(ScanOutcome::VerseMissing));
    let one = lines(&["anything at all"]);
    assert_eq!(search_bible(&reference("John", "3", "0"), &one), Some(ScanOutcome::VerseMissing));
    let after_markers = lines(&["THE BOOK OF JOHN", "CHAPTER 3", "16 For God", "17 For God"]);
    assert_eq!(
        search_bible(&reference("John", "3", "0"), &after_markers),
        Some(ScanOutcome::VerseMissing)
    );
}

#[test]
fn book_that_is_nowhere_is_missing() {
    assert_eq!(search_bible(&reference("Xyzzy", "3", "16"), &corpus()), Some(ScanOutcome::BookMissing));
    let one = lines(&["anything at all"]);
    assert_eq!(search_bible(&reference("Xyzzy", "3", "16"), &one), Some(ScanOutcome::BookMissing));
}

#[test]
fn book_is_missing_only_at_the_last_line() {
    let r = reference("Xyzzy", "3", "16");
    let c = corpus();
    let mut state = ScanState::new();
    for (i, line) in c.iter().enumerate() {
        let last = i + 1 == c.len();
        match scan_line(state, line, last, &r) {
            Step::Continue(next) => {
                assert!(!last);
                assert_eq!(next, ScanState { found_book: false, found_chapter: false });
                state = next;
            }
            Step::Done(outcome) => {
                assert!(last);
                assert_eq!(outcome, ScanOutcome::BookMissing);
            }
        }
    }
}

#[test]
fn shorter_number_does_not_match_a_longer_one() {
    let c = lines(&[
        "THE BOOK OF JOHN",
        "CHAPTER 1",
        "10 He was in the world",
        "11 He came unto his own",
        "1 In the beginning was the Word",
    ]);
    assert_eq!(
        search_bible(&reference("John", "1", "1"), &c),
        found("JOHN 1:1 In the beginning was the Word")
    );
    let without = lines(&["THE BOOK OF JOHN", "CHAPTER 1", "10 He was in the world", "the end"]);
    assert_eq!(search_bible(&reference("John", "1", "1"), &without), Some(ScanOutcome::VerseMissing));
    assert_eq!(
        search_bible(&reference("John", "1", "10"), &without),
        found("JOHN 1:10 He was in the world")
    );
}

#[test]
fn verse_number_ends_where_the_digits_end() {
    let c = lines(&["THE BOOK OF JOHN", "CHAPTER 1", "1. In the beginning", "2", "3rd line", "x"]);
    assert_eq!(search_bible(&reference("John", "1", "1"), &c), found("JOHN 1:1. In the beginning"));
    assert_eq!(search_bible(&reference("John", "1", "2"), &c), found("JOHN 1:2"));
    assert_eq!(search_bible(&reference("John", "1", "3"), &c), found("JOHN 1:3rd line"));
    assert_eq!(search_bible(&reference("John", "1", "4"), &c), Some(ScanOutcome::VerseMissing));
}

#[test]
fn verse_is_missing_when_the_chapter_ends() {
    let c = corpus();
    assert_eq!(search_bible(&reference("John", "1", "5"), &c), Some(ScanOutcome::VerseMissing));
    assert_eq!(search_bible(&reference("John", "3", "18"), &c), Some(ScanOutcome::VerseMissing));
    assert_eq!(search_bible(&reference("Psalms", "23", "7"), &c), Some(ScanOutcome::VerseMissing));
    assert_eq!(search_bible(&reference("Luke", "3", "17"), &c), Some(ScanOutcome::VerseMissing));
}

#[test]
fn verse_on_the_last_line_is_found() {
    let c = lines(&["THE BOOK OF JOHN", "CHAPTER 3", "16 For God so loved the world..."]);
    assert_eq!(
        search_bible(&reference("John", "3", "16"), &c),
        found("JOHN 3:16 For God so loved the world...")
    );
    assert_eq!(search_bible(&reference("John", "3", "17"), &c), Some(ScanOutcome::VerseMissing));
}

#[test]
fn nothing_is_decided_when_the_lines_end_on_a_marker() {
    let r = reference("John", "3", "16");
    assert_eq!(search_bible(&r, &Vec::new()), None);
    assert_eq!(search_bible(&r, &lines(&["THE BOOK OF JOHN"])), None);
    assert_eq!(search_bible(&r, &lines(&["x", "THE BOOK OF JOHN"])), None);
    assert_eq!(search_bible(&r, &lines(&["THE BOOK OF JOHN", "CHAPTER 3"])), None);
    assert_eq!(search_bible(&r, &lines(&["THE BOOK OF JOHN", "x", "CHAPTER 3"])), None);
    assert_eq!(
        search_bible(&r, &lines(&["THE BOOK OF JOHN", "x"])),
        Some(ScanOutcome::ChapterMissing)
    );
}

#[test]
fn book_marker_is_found_anywhere_in_its_line() {
    let c = lines(&["*** THE BOOK OF JOHN, CALLED THE FOURTH ***", "CHAPTER 3", "16 For God"]);
    assert_eq!(search_bible(&reference("John", "3", "16"), &c), found("JOHN 3:16 For God"));
    let c = lines(&["THE BOOK OF JOHNSON", "CHAPTER 3", "16 For God"]);
    assert_eq!(search_bible(&reference("John", "3", "16"), &c), found("JOHN 3:16 For God"));
}

#[test]
fn chapter_of_another_book_is_not_taken() {
    let c = lines(&[
        "THE BOOK OF LUKE",
        "CHAPTER 1",
        "1 Forasmuch",
        "THE BOOK OF JOHN",
        "CHAPTER 2",
        "1 And the third day",
    ]);
    assert_eq!(search_bible(&reference("Luke", "2", "1"), &c), Some(ScanOutcome::ChapterMissing));
    assert_eq!(search_bible(&reference("John", "2", "1"), &c), found("JOHN 2:1 And the third day"));
    assert_eq!(search_bible(&reference("John", "1", "1"), &c), Some(ScanOutcome::ChapterMissing));
}

#[test]
fn chapter_token_matches_as_a_substring() {
    let c = lines(&["THE BOOK OF JOHN", "CHAPTER 30", "16 thirty", "CHAPTER 3", "16 three"]);
    assert_eq!(search_bible(&reference("John", "3", "16"), &c), found("JOHN 3:16 thirty"));
}

#[test]
fn each_line_takes_one_step() {
    let r = reference("John", "3", "16");
    let start = ScanState::new();
    assert_eq!(start, ScanState { found_book: false, found_chapter: false });
    let book = ScanState { found_book: true, found_chapter: false };
    let chapter = ScanState { found_book: true, found_chapter: true };
    assert_eq!(scan_line(start, "THE BOOK OF JOHN", false, &r), Step::Continue(book));
    assert_eq!(scan_line(start, "THE BOOK OF JOHN", true, &r), Step::Continue(book));
    assert_eq!(scan_line(start, "CHAPTER 3", false, &r), Step::Continue(start));
    assert_eq!(scan_line(start, "16 For God", false, &r), Step::Continue(start));
    assert_eq!(scan_line(start, "16 For God", true, &r), Step::Done(ScanOutcome::BookMissing));
    assert_eq!(scan_line(book, "CHAPTER 3", false, &r), Step::Continue(chapter));
    assert_eq!(scan_line(book, "CHAPTER 3", true, &r), Step::Continue(chapter));
    assert_eq!(scan_line(book, "CHAPTER 2", false, &r), Step::Continue(book));
    assert_eq!(scan_line(book, "16 For God", false, &r), Step::Continue(book));
    assert_eq!(scan_line(book, "THE BOOK OF JOHN", false, &r), Step::Done(ScanOutcome::ChapterMissing));
    assert_eq!(scan_line(book, "THE BOOK OF ACTS", false, &r), Step::Done(ScanOutcome::ChapterMissing));
    assert_eq!(scan_line(book, "16 For God", true, &r), Step::Done(ScanOutcome::ChapterMissing));
    assert_eq!(scan_line(chapter, "CHAPTER 3", false, &r), Step::Continue(chapter));
    assert_eq!(scan_line(chapter, "15 That whosoever", false, &r), Step::Continue(chapter));
    assert_eq!(scan_line(chapter, "160 no", false, &r), Step::Continue(chapter));
    assert_eq!(
        scan_line(chapter, "16 For God", false, &r),
        Step::Done(ScanOutcome::VerseFound("JOHN 3:16 For God".to_string()))
    );
    assert_eq!(scan_line(chapter, "CHAPTER 4", false, &r), Step::Done(ScanOutcome::VerseMissing));
    assert_eq!(scan_line(chapter, "PSALM 4", false, &r), Step::Done(ScanOutcome::VerseMissing));
    assert_eq!(scan_line(chapter, "THE BOOK OF ACTS", false, &r), Step::Done(ScanOutcome::VerseMissing));
    assert_eq!(scan_line(chapter, "15 That whosoever", true, &r), Step::Done(ScanOutcome::VerseMissing));
}

#[test]
fn no_verse_ends_the_search_at_the_first_line_that_is_not_taken() {
    let r = reference("John", "3", "0");
    let start = ScanState::new();
    let book = ScanState { found_book: true, found_chapter: false };
    let chapter = ScanState { found_book: true, found_chapter: true };
    assert_eq!(scan_line(start, "any line", false, &r), Step::Done(ScanOutcome::VerseMissing));
    assert_eq!(scan_line(start, "THE BOOK OF JOHN", false, &r), Step::Continue(book));
    assert_eq!(scan_line(book, "any line", false, &r), Step::Done(ScanOutcome::VerseMissing));
    assert_eq!(scan_line(book, "CHAPTER 3", false, &r), Step::Continue(chapter));
    assert_eq!(scan_line(chapter, "1 There was", false, &r), Step::Done(ScanOutcome::VerseMissing));
    assert_eq!(
        scan_line(chapter, "0 nought", false, &r),
        Step::Done(ScanOutcome::VerseFound("JOHN 3:0 nought".to_string()))
    );
}
