//! What holds of every search.

use vstd::prelude::*;
use crate::reference::ReferenceView;
use crate::scan::{
    begins_book, begins_chapter, carries_verse, found_text, next_step, no_verse, scan, scan_from,
    start, Outcome, ScanState, StepView,
};
use crate::text::{has_substring, is_digit};

verus! {

/// The state after the book was found.
pub open spec fn in_book() -> ScanState {
    ScanState { found_book: true, found_chapter: false }
}

/// The state after the book and the chapter were found.
pub open spec fn in_chapter() -> ScanState {
    ScanState { found_book: true, found_chapter: true }
}

/// The number of digits that `line` begins with.
pub open spec fn digits_len(line: Seq<char>) -> nat
    decreases line.len(),
{
    if line.len() > 0 && is_digit(line[0]) {
        1 + digits_len(line.skip(1))
    } else {
        0
    }
}

/// The number that `line` begins with: its digits up to the first character that
/// is none.
pub open spec fn number_of(line: Seq<char>) -> Seq<char> {
    line.take(digits_len(line) as int)
}

/// Every character of `s` is a digit.
pub open spec fn all_digits(s: Seq<char>) -> bool {
    forall|i: int| 0 <= i < s.len() ==> is_digit(#[trigger] s[i])
}

/// The verse of `r` stands on line `verse_at` of `corpus`, under its chapter,
/// which begins on line `chapter_at`, in its book, which begins on line `book_at`:
/// `book_at` is the first line that holds the book token; between it and
/// `chapter_at`, which holds the chapter token, no line holds that token or begins
/// a book; between `chapter_at` and `verse_at` a line that does not hold the
/// chapter token neither carries the verse nor begins a book or a chapter; and
/// line `verse_at` carries the verse and does not hold the chapter token.
pub open spec fn verse_stands_at(
    corpus: Seq<Seq<char>>,
    r: ReferenceView,
    book_at: int,
    chapter_at: int,
    verse_at: int,
) -> bool {
    &&& 0 <= book_at < chapter_at < verse_at < corpus.len()
    &&& forall|i: int| 0 <= i < book_at ==> !has_substring(#[trigger] corpus[i], r.book)
    &&& has_substring(corpus[book_at], r.book)
    &&& forall|i: int|
        book_at < i < chapter_at ==> !has_substring(#[trigger] corpus[i], r.chapter)
            && !begins_book(corpus[i])
    &&& has_substring(corpus[chapter_at], r.chapter)
    &&& forall|i: int|
        chapter_at < i < verse_at ==> has_substring(#[trigger] corpus[i], r.chapter) || (
        !carries_verse(corpus[i], r.verse) && !begins_book(corpus[i]) && !begins_chapter(
            corpus[i],
        ))
    &&& !has_substring(corpus[verse_at], r.chapter)
    &&& carries_verse(corpus[verse_at], r.verse)
}

/// A step never takes back what was found, and finds no chapter before the book.
pub proof fn lemma_step_keeps_progress(
    state: ScanState,
    line: Seq<char>,
    last: bool,
    r: ReferenceView,
)
    ensures
        next_step(state, line, last, r) matches StepView::Continue(next) ==> {
            &&& state.found_book ==> next.found_book
            &&& state.found_chapter ==> next.found_chapter
            &&& (state.found_chapter ==> state.found_book) ==> (next.found_chapter
                ==> next.found_book)
        },
{
}

proof fn lemma_digits_len(line: Seq<char>)
    ensures
        digits_len(line) <= line.len(),
        forall|i: int| 0 <= i < digits_len(line) ==> is_digit(#[trigger] line[i]),
        digits_len(line) < line.len() ==> !is_digit(line[digits_len(line) as int]),
    decreases line.len(),
{
    if line.len() > 0 && is_digit(line[0]) {
        let rest = line.skip(1);
        lemma_digits_len(rest);
        assert forall|i: int| 0 <= i < digits_len(line) implies is_digit(#[trigger] line[i]) by {
            if i > 0 {
                assert(line[i] == rest[i - 1]);
            }
        }
        if digits_len(line) < line.len() {
            assert(line[digits_len(line) as int] == rest[digits_len(rest) as int]);
        }
    }
}

/// A line whose number is longer than the verse token, and begins with it, does
/// not carry the verse.
pub proof fn lemma_longer_number_not_carried(line: Seq<char>, verse: Seq<char>)
    requires
        verse.is_prefix_of(number_of(line)),
        verse.len() < number_of(line).len(),
    ensures
        !carries_verse(line, verse),
{
    lemma_digits_len(line);
}

/// For a verse token made of digits, a line carries the verse just when the
/// number that the line begins with is the token.
pub proof fn lemma_number_carried(line: Seq<char>, verse: Seq<char>)
    requires
        all_digits(verse),
    ensures
        carries_verse(line, verse) <==> number_of(line) == verse,
{
    lemma_digits_len(line);
    let n = digits_len(line) as int;
    if carries_verse(line, verse) {
        assert(verse =~= line.subrange(0, verse.len() as int));
        if n < verse.len() {
            assert(is_digit(verse[n]));
            assert(verse[n] == line[n]);
        }
        if n > verse.len() {
            assert(is_digit(line[verse.len() as int]));
        }
        assert(number_of(line) =~= verse);
    }
    if number_of(line) == verse {
        assert(verse =~= line.subrange(0, verse.len() as int));
    }
}

proof fn lemma_found_from(corpus: Seq<Seq<char>>, r: ReferenceView, state: ScanState, from: int)
    requires
        0 <= from,
    ensures
        scan_from(corpus, r, state, from) matches Some(Outcome::VerseFound(text)) ==> exists|i: int|
            from <= i < corpus.len() && carries_verse(#[trigger] corpus[i], r.verse) && text
                == found_text(r, corpus[i]),
    decreases corpus.len() - from,
{
    if from < corpus.len() {
        match next_step(state, corpus[from], from == corpus.len() - 1, r) {
            StepView::Done(outcome) => {},
            StepView::Continue(next) => {
                lemma_found_from(corpus, r, next, from + 1);
            },
        }
    }
}

/// The text that a search gives out is that of a line of the corpus that carries
/// the verse.
pub proof fn lemma_found_line_carries_verse(corpus: Seq<Seq<char>>, r: ReferenceView)
    ensures
        scan(corpus, r) matches Some(Outcome::VerseFound(text)) ==> exists|i: int|
            0 <= i < corpus.len() && carries_verse(#[trigger] corpus[i], r.verse) && text
                == found_text(r, corpus[i]),
{
    lemma_found_from(corpus, r, start(), 0);
}

/// The text that is given out for a line tells the line.
pub proof fn lemma_found_text_tells_line(r: ReferenceView, a: Seq<char>, b: Seq<char>)
    requires
        found_text(r, a) == found_text(r, b),
    ensures
        a == b,
{
    let head = r.book_name() + seq![' '] + r.chapter_number() + seq![':'];
    assert(found_text(r, a).skip(head.len() as int) =~= a);
    assert(found_text(r, b).skip(head.len() as int) =~= b);
}

/// A search for a verse never gives out a line whose number is longer than the
/// verse token and begins with it: verse 1 is not found on the line of verse 10.
pub proof fn lemma_longer_number_not_found(
    corpus: Seq<Seq<char>>,
    r: ReferenceView,
    line: Seq<char>,
)
    requires
        r.verse.is_prefix_of(number_of(line)),
        r.verse.len() < number_of(line).len(),
    ensures
        scan(corpus, r) != Some(Outcome::VerseFound(found_text(r, line))),
{
    lemma_found_line_carries_verse(corpus, r);
    lemma_longer_number_not_carried(line, r.verse);
    if scan(corpus, r) == Some(Outcome::VerseFound(found_text(r, line))) {
        let i = choose|i: int|
            0 <= i < corpus.len() && carries_verse(#[trigger] corpus[i], r.verse) && found_text(
                r,
                line,
            ) == found_text(r, corpus[i]);
        lemma_found_text_tells_line(r, line, corpus[i]);
    }
}

proof fn lemma_pass_to_book(corpus: Seq<Seq<char>>, r: ReferenceView, from: int, to: int)
    requires
        0 <= from <= to < corpus.len(),
        r.verse != no_verse(),
        forall|i: int| from <= i < to ==> !has_substring(#[trigger] corpus[i], r.book),
    ensures
        scan_from(corpus, r, start(), from) == scan_from(corpus, r, start(), to),
    decreases to - from,
{
    if from < to {
        assert(!has_substring(corpus[from], r.book));
        lemma_pass_to_book(corpus, r, from + 1, to);
    }
}

proof fn lemma_pass_to_chapter(corpus: Seq<Seq<char>>, r: ReferenceView, from: int, to: int)
    requires
        0 <= from <= to < corpus.len(),
        r.verse != no_verse(),
        forall|i: int|
            from <= i < to ==> !has_substring(#[trigger] corpus[i], r.chapter) && !begins_book(
                corpus[i],
            ),
    ensures
        scan_from(corpus, r, in_book(), from) == scan_from(corpus, r, in_book(), to),
    decreases to - from,
{
    if from < to {
        assert(!has_substring(corpus[from], r.chapter));
        lemma_pass_to_chapter(corpus, r, from + 1, to);
    }
}

proof fn lemma_pass_to_verse(corpus: Seq<Seq<char>>, r: ReferenceView, from: int, to: int)
    requires
        0 <= from <= to < corpus.len(),
        r.verse != no_verse(),
        forall|i: int|
            from <= i < to ==> has_substring(#[trigger] corpus[i], r.chapter) || (!carries_verse(
                corpus[i],
                r.verse,
            ) && !begins_book(corpus[i]) && !begins_chapter(corpus[i])),
    ensures
        scan_from(corpus, r, in_chapter(), from) == scan_from(corpus, r, in_chapter(), to),
    decreases to - from,
{
    if from < to {
        assert(has_substring(corpus[from], r.chapter) || !carries_verse(corpus[from], r.verse));
        lemma_pass_to_verse(corpus, r, from + 1, to);
    }
}

proof fn lemma_pass_chapter_lines(corpus: Seq<Seq<char>>, r: ReferenceView, from: int, to: int)
    requires
        0 <= from <= to <= corpus.len(),
        forall|i: int| from <= i < to ==> has_substring(#[trigger] corpus[i], r.chapter),
    ensures
        scan_from(corpus, r, in_chapter(), from) == scan_from(corpus, r, in_chapter(), to),
    decreases to - from,
{
    if from < to {
        assert(has_substring(corpus[from], r.chapter));
        lemma_pass_chapter_lines(corpus, r, from + 1, to);
    }
}

/// A verse that stands in the corpus under its book and chapter is found, and
/// what is given out is the book's name, a space, the chapter's number, a colon
/// and the line of the verse. So it is for a verse that stands there once only.
///
/// The verse token `0` stands for no verse: with it the search ends at the first
/// line that is not taken for the book or the chapter. A line that carries that
/// token is therefore found only if every line before it is taken.
pub proof fn lemma_verse_found(
    corpus: Seq<Seq<char>>,
    r: ReferenceView,
    book_at: int,
    chapter_at: int,
    verse_at: int,
)
    requires
        verse_stands_at(corpus, r, book_at, chapter_at, verse_at),
        r.verse == no_verse() ==> book_at == 0 && forall|i: int|
            0 < i < verse_at ==> has_substring(#[trigger] corpus[i], r.chapter),
    ensures
        scan(corpus, r) == Some(Outcome::VerseFound(found_text(r, corpus[verse_at]))),
{
    if r.verse == no_verse() {
        if chapter_at > 1 {
            assert(has_substring(corpus[1], r.chapter));
        }
        assert(scan_from(corpus, r, start(), 0) == scan_from(corpus, r, in_book(), 1));
        assert(scan_from(corpus, r, in_book(), 1) == scan_from(corpus, r, in_chapter(), 2));
        lemma_pass_chapter_lines(corpus, r, 2, verse_at);
    } else {
        lemma_pass_to_book(corpus, r, 0, book_at);
        assert(scan_from(corpus, r, start(), book_at) == scan_from(
            corpus,
            r,
            in_book(),
            book_at + 1,
        ));
        lemma_pass_to_chapter(corpus, r, book_at + 1, chapter_at);
        assert(scan_from(corpus, r, in_book(), chapter_at) == scan_from(
            corpus,
            r,
            in_chapter(),
            chapter_at + 1,
        ));
        lemma_pass_to_verse(corpus, r, chapter_at + 1, verse_at);
    }
}

proof fn lemma_no_verse_from(corpus: Seq<Seq<char>>, r: ReferenceView, state: ScanState, from: int)
    requires
        0 <= from,
        r.verse == no_verse(),
    ensures
        scan_from(corpus, r, state, from) != Some(Outcome::ChapterMissing),
        scan_from(corpus, r, state, from) != Some(Outcome::BookMissing),
    decreases corpus.len() - from,
{
    if from < corpus.len() {
        match next_step(state, corpus[from], from == corpus.len() - 1, r) {
            StepView::Done(outcome) => {},
            StepView::Continue(next) => {
                lemma_no_verse_from(corpus, r, next, from + 1);
            },
        }
    }
}

/// When no verse is looked for, the search does not tell whether the chapter or
/// the book is missing: it ends at the first line that is neither taken for the
/// book or the chapter nor carries the verse token, and says that the verse is
/// missing. With a first line that does not hold the book token that is the
/// first line.
pub proof fn lemma_no_verse(corpus: Seq<Seq<char>>, r: ReferenceView)
    requires
        r.verse == no_verse(),
    ensures
        scan(corpus, r) != Some(Outcome::ChapterMissing),
        scan(corpus, r) != Some(Outcome::BookMissing),
        corpus.len() > 0 && !has_substring(corpus[0], r.book) ==> scan(corpus, r) == Some(
            Outcome::VerseMissing,
        ),
{
    lemma_no_verse_from(corpus, r, start(), 0);
}

proof fn lemma_book_found_from(
    corpus: Seq<Seq<char>>,
    r: ReferenceView,
    state: ScanState,
    from: int,
)
    requires
        0 <= from,
        state.found_book,
    ensures
        scan_from(corpus, r, state, from) != Some(Outcome::BookMissing),
    decreases corpus.len() - from,
{
    if from < corpus.len() {
        match next_step(state, corpus[from], from == corpus.len() - 1, r) {
            StepView::Done(outcome) => {},
            StepView::Continue(next) => {
                lemma_book_found_from(corpus, r, next, from + 1);
            },
        }
    }
}

proof fn lemma_book_missing_from(corpus: Seq<Seq<char>>, r: ReferenceView, from: int)
    requires
        0 <= from < corpus.len(),
    ensures
        scan_from(corpus, r, start(), from) == Some(Outcome::BookMissing) <==> r.verse
            != no_verse() && forall|i: int|
            from <= i < corpus.len() ==> !has_substring(#[trigger] corpus[i], r.book),
    decreases corpus.len() - from,
{
    let line = corpus[from];
    if has_substring(line, r.book) {
        lemma_book_found_from(corpus, r, in_book(), from + 1);
    } else if from < corpus.len() - 1 {
        lemma_book_missing_from(corpus, r, from + 1);
        if r.verse != no_verse() {
            assert(scan_from(corpus, r, start(), from) == scan_from(corpus, r, start(), from + 1));
        }
    }
}

/// The book is said to be missing just when no line of the corpus holds the book
/// token, and a verse is looked for.
pub proof fn lemma_book_missing(corpus: Seq<Seq<char>>, r: ReferenceView)
    requires
        corpus.len() > 0,
    ensures
        scan(corpus, r) == Some(Outcome::BookMissing) <==> r.verse != no_verse() && forall|i: int|
            0 <= i < corpus.len() ==> !has_substring(#[trigger] corpus[i], r.book),
{
    lemma_book_missing_from(corpus, r, 0);
}

/// The chapter is said to be missing when, after line `book_at`, the first that
/// holds the book token, no line up to line `end_at` holds the chapter token, and
/// line `end_at` is the first of them that begins a book, or the last line.
pub proof fn lemma_chapter_missing(
    corpus: Seq<Seq<char>>,
    r: ReferenceView,
    book_at: int,
    end_at: int,
)
    requires
        0 <= book_at < end_at < corpus.len(),
        r.verse != no_verse(),
        forall|i: int| 0 <= i < book_at ==> !has_substring(#[trigger] corpus[i], r.book),
        has_substring(corpus[book_at], r.book),
        forall|i: int| book_at < i <= end_at ==> !has_substring(#[trigger] corpus[i], r.chapter),
        forall|i: int| book_at < i < end_at ==> !begins_book(#[trigger] corpus[i]),
        begins_book(corpus[end_at]) || end_at == corpus.len() - 1,
    ensures
        scan(corpus, r) == Some(Outcome::ChapterMissing),
{
    lemma_pass_to_book(corpus, r, 0, book_at);
    assert(scan_from(corpus, r, start(), book_at) == scan_from(corpus, r, in_book(), book_at + 1));
    lemma_pass_to_chapter(corpus, r, book_at + 1, end_at);
    assert(!has_substring(corpus[end_at], r.chapter));
}

/// The verse is said to be missing when, after line `chapter_at`, where the
/// chapter begins in its book, no line up to line `end_at` carries the verse,
/// unless it holds the chapter token, and line `end_at` is the first of them that
/// begins a book or a chapter without holding the chapter token, or the last line.
pub proof fn lemma_verse_missing(
    corpus: Seq<Seq<char>>,
    r: ReferenceView,
    book_at: int,
    chapter_at: int,
    end_at: int,
)
    requires
        0 <= book_at < chapter_at < end_at < corpus.len(),
        r.verse != no_verse(),
        forall|i: int| 0 <= i < book_at ==> !has_substring(#[trigger] corpus[i], r.book),
        has_substring(corpus[book_at], r.book),
        forall|i: int|
            book_at < i < chapter_at ==> !has_substring(#[trigger] corpus[i], r.chapter)
                && !begins_book(corpus[i]),
        has_substring(corpus[chapter_at], r.chapter),
        forall|i: int|
            chapter_at < i < end_at ==> has_substring(#[trigger] corpus[i], r.chapter) || (
            !carries_verse(corpus[i], r.verse) && !begins_book(corpus[i]) && !begins_chapter(
                corpus[i],
            )),
        !has_substring(corpus[end_at], r.chapter),
        !carries_verse(corpus[end_at], r.verse),
        begins_book(corpus[end_at]) || begins_chapter(corpus[end_at]) || end_at == corpus.len()
            - 1,
    ensures
        scan(corpus, r) == Some(Outcome::VerseMissing),
{
    lemma_pass_to_book(corpus, r, 0, book_at);
    assert(scan_from(corpus, r, start(), book_at) == scan_from(corpus, r, in_book(), book_at + 1));
    lemma_pass_to_chapter(corpus, r, book_at + 1, chapter_at);
    assert(scan_from(corpus, r, in_book(), chapter_at) == scan_from(
        corpus,
        r,
        in_chapter(),
        chapter_at + 1,
    ));
    lemma_pass_to_verse(corpus, r, chapter_at + 1, end_at);
}

proof fn lemma_undecided_from(corpus: Seq<Seq<char>>, r: ReferenceView, state: ScanState, from: int)
    requires
        0 <= from < corpus.len(),
    ensures
        scan_from(corpus, r, state, from) is None ==> has_substring(corpus.last(), r.book)
            || has_substring(corpus.last(), r.chapter),
    decreases corpus.len() - from,
{
    match next_step(state, corpus[from], from == corpus.len() - 1, r) {
        StepView::Done(outcome) => {},
        StepView::Continue(next) => {
            if from < corpus.len() - 1 {
                lemma_undecided_from(corpus, r, next, from + 1);
            }
        },
    }
}

/// A search of a corpus that has a line is decided, unless the last line is
/// taken for the book or the chapter: then it holds the book token or the chapter
/// token.
pub proof fn lemma_undecided(corpus: Seq<Seq<char>>, r: ReferenceView)
    requires
        corpus.len() > 0,
    ensures
        scan(corpus, r) is None ==> has_substring(corpus.last(), r.book) || has_substring(
            corpus.last(),
            r.chapter,
        ),
{
    lemma_undecided_from(corpus, r, start(), 0);
}

} // verus!
