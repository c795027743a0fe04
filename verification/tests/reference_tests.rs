use bible_search::abbrev::AbbreviationTable;
use bible_search::reference::NormalizedReference;

fn table() -> AbbreviationTable {
    AbbreviationTable::load(&vec![
        ("Jn".to_string(), "John".to_string()),
        ("Ps".to_string(), "Psalms".to_string()),
        ("1 Kgs".to_string(), "1 Kings".to_string()),
    ])
}

#[test]
fn book_is_put_in_upper_case_after_the_prefix() {
    let r = NormalizedReference::normalize("John", "3", "16", &table());
    assert_eq!(r.book(), "THE BOOK OF JOHN");
    assert_eq!(r.chapter(), "CHAPTER 3");
    assert_eq!(r.verse(), "16");
    assert_eq!(r.book_name(), "JOHN");
    assert_eq!(r.chapter_number(), "3");
}

#[test]
fn entries_are_trimmed() {
    let r = NormalizedReference::normalize("  genesis \n", " 1\n", "\t2 \n", &table());
    assert_eq!(r.book(), "THE BOOK OF GENESIS");
    assert_eq!(r.chapter(), "CHAPTER 1");
    assert_eq!(r.verse(), "2");
}

#[test]
fn abbreviation_is_replaced_by_its_name() {
    let r = NormalizedReference::normalize("jn\n", "3\n", "16\n", &table());
    assert_eq!(r.book(), "THE BOOK OF JOHN");
    let r = NormalizedReference::normalize("1 kgs", "8", "1", &table());
    assert_eq!(r.book(), "THE BOOK OF 1 KINGS");
    assert_eq!(r.book_name(), "1 KINGS");
}

#[test]
fn chapters_of_the_psalms_are_psalms() {
    let r = NormalizedReference::normalize("Psalms", "23", "1", &table());
    assert_eq!(r.book(), "THE BOOK OF PSALMS");
    assert_eq!(r.chapter(), "PSALM 23");
    assert_eq!(r.chapter_number(), "23");
    let r = NormalizedReference::normalize("ps", "119", "105", &table());
    assert_eq!(r.chapter(), "PSALM 119");
    let r = NormalizedReference::normalize("Psalm", "23", "1", &table());
    assert_eq!(r.chapter(), "CHAPTER 23");
}

#[test]
fn verse_keeps_its_case() {
    let r = NormalizedReference::normalize("John", "3", " 16a ", &table());
    assert_eq!(r.verse(), "16a");
}

#[test]
fn nothing_is_checked_for_being_a_number() {
    let r = NormalizedReference::normalize("", "", "", &AbbreviationTable::new());
    assert_eq!(r.book(), "THE BOOK OF ");
    assert_eq!(r.book_name(), "");
    assert_eq!(r.chapter(), "CHAPTER ");
    assert_eq!(r.chapter_number(), "");
    assert_eq!(r.verse(), "");
    let r = NormalizedReference::normalize("John", "three  or four", "x", &AbbreviationTable::new());
    assert_eq!(r.chapter(), "CHAPTER three  or four");
    assert_eq!(r.chapter_number(), "three");
}
