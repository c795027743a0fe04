//! The search: one pass over the lines of the corpus, from the first to the last.
//!
//! A line that begins the book of the reference is looked for first, then a line
//! that begins its chapter, then the line that carries its verse. The pass ends
//! at the first line that decides the outcome.

use vstd::prelude::*;
use crate::reference::{NormalizedReference, ReferenceView};
use crate::text::{
    append_chars, char_is_digit, contains_chars, from_chars, has_substring, is_digit, same_chars,
    slice_chars, starts_with_chars, to_chars,
};
use crate::words::{char_seqs, split_words};

verus! {

/// What every line that begins a book holds.
pub open spec fn book_marker() -> Seq<char> {
    "THE BOOK OF"@
}

/// What every line that begins a chapter holds.
pub open spec fn chapter_marker() -> Seq<char> {
    "CHAPTER"@
}

/// What every line that begins a psalm holds.
pub open spec fn psalm_marker() -> Seq<char> {
    "PSALM"@
}

/// The verse token that stands for no verse: with it no verse is looked for.
pub open spec fn no_verse() -> Seq<char> {
    "0"@
}

/// `line` begins a book.
pub open spec fn begins_book(line: Seq<char>) -> bool {
    has_substring(line, book_marker())
}

/// `line` begins a chapter or a psalm.
pub open spec fn begins_chapter(line: Seq<char>) -> bool {
    has_substring(line, chapter_marker()) || has_substring(line, psalm_marker())
}

/// `line` carries the verse `verse`: it begins with `verse`, and what follows is
/// no digit, so that the number of the line is no longer one.
pub open spec fn carries_verse(line: Seq<char>, verse: Seq<char>) -> bool {
    &&& verse.is_prefix_of(line)
    &&& line.len() == verse.len() || !is_digit(line[verse.len() as int])
}

/// What is given out for the verse on `line`: book, chapter and the line itself.
pub open spec fn found_text(r: ReferenceView, line: Seq<char>) -> Seq<char> {
    r.book_name() + seq![' '] + r.chapter_number() + seq![':'] + line
}

/// How far a search has come.
#[derive(Clone, Copy, Debug, PartialEq, Eq)]
pub struct ScanState {
    /// A line that begins the book has been passed.
    pub found_book: bool,
    /// After it, a line that begins the chapter has been passed.
    pub found_chapter: bool,
}

/// How a search ends, with the text as a sequence of characters.
pub enum Outcome {
    /// The verse stands in the corpus; the text is `found_text` of its line.
    VerseFound(Seq<char>),
    /// The chapter has no such verse.
    VerseMissing,
    /// The book has no such chapter.
    ChapterMissing,
    /// The corpus has no such book.
    BookMissing,
}

/// How a search ends.
#[derive(Debug, PartialEq, Eq)]
pub enum ScanOutcome {
    /// The verse stands in the corpus; the text is `found_text` of its line.
    VerseFound(String),
    /// The chapter has no such verse.
    VerseMissing,
    /// The book has no such chapter.
    ChapterMissing,
    /// The corpus has no such book.
    BookMissing,
}

impl View for ScanOutcome {
    type V = Outcome;

    open spec fn view(&self) -> Outcome {
        match self {
            ScanOutcome::VerseFound(text) => Outcome::VerseFound(text@),
            ScanOutcome::VerseMissing => Outcome::VerseMissing,
            ScanOutcome::ChapterMissing => Outcome::ChapterMissing,
            ScanOutcome::BookMissing => Outcome::BookMissing,
        }
    }
}

impl DeepView for ScanOutcome {
    type V = Outcome;

    open spec fn deep_view(&self) -> Outcome {
        self.view()
    }
}

/// What one line does to a search, with the text as a sequence of characters.
pub enum StepView {
    /// The search goes on with the next line, in this state.
    Continue(ScanState),
    /// The search has ended.
    Done(Outcome),
}

/// What one line does to a search.
#[derive(Debug, PartialEq, Eq)]
pub enum Step {
    /// The search goes on with the next line, in this state.
    Continue(ScanState),
    /// The search has ended.
    Done(ScanOutcome),
}

impl View for Step {
    type V = StepView;

    open spec fn view(&self) -> StepView {
        match self {
            Step::Continue(state) => StepView::Continue(*state),
            Step::Done(outcome) => StepView::Done(outcome@),
        }
    }
}

/// The state in which every search begins.
pub open spec fn start() -> ScanState {
    ScanState { found_book: false, found_chapter: false }
}

/// What `line` does to a search for `r` that has come to `state`; `last` says that
/// no line follows. The first of these that applies decides:
/// the book was not found yet and the line holds the book token: the book is found;
/// the book was found and the line holds the chapter token: the chapter is found;
/// the chapter was found and the line carries the verse: the verse is found;
/// the chapter was found and the line begins a book or a chapter, or is the last,
/// or no verse is looked for: the verse is missing;
/// the book was found and the line begins a book or is the last: the chapter is missing;
/// the line is the last: the book is missing.
pub open spec fn next_step(
    state: ScanState,
    line: Seq<char>,
    last: bool,
    r: ReferenceView,
) -> StepView {
    if !state.found_book && has_substring(line, r.book) {
        StepView::Continue(ScanState { found_book: true, found_chapter: state.found_chapter })
    } else if state.found_book && has_substring(line, r.chapter) {
        StepView::Continue(ScanState { found_book: state.found_book, found_chapter: true })
    } else if state.found_chapter && carries_verse(line, r.verse) {
        StepView::Done(Outcome::VerseFound(found_text(r, line)))
    } else if (state.found_book && state.found_chapter && (begins_book(line) || begins_chapter(line)
        || last)) || r.verse == no_verse() {
        StepView::Done(Outcome::VerseMissing)
    } else if state.found_book && (begins_book(line) || last) {
        StepView::Done(Outcome::ChapterMissing)
    } else if last {
        StepView::Done(Outcome::BookMissing)
    } else {
        StepView::Continue(state)
    }
}

/// How the search for `r` ends that has come to `state` before the line `from`
/// of `corpus`; `None` if the lines end before any of them has decided.
pub open spec fn scan_from(
    corpus: Seq<Seq<char>>,
    r: ReferenceView,
    state: ScanState,
    from: int,
) -> Option<Outcome>
    decreases corpus.len() - from,
{
    if 0 <= from < corpus.len() {
        match next_step(state, corpus[from], from == corpus.len() - 1, r) {
            StepView::Done(outcome) => Some(outcome),
            StepView::Continue(next) => scan_from(corpus, r, next, from + 1),
        }
    } else {
        None
    }
}

/// How the search for `r` in `corpus` ends.
pub open spec fn scan(corpus: Seq<Seq<char>>, r: ReferenceView) -> Option<Outcome> {
    scan_from(corpus, r, start(), 0)
}

/// A reference made ready for the search: its tokens and the markers as characters.
struct Query {
    book: Vec<char>,
    chapter: Vec<char>,
    verse: Vec<char>,
    head: Vec<char>,
    book_marker: Vec<char>,
    chapter_marker: Vec<char>,
    psalm_marker: Vec<char>,
    no_verse: Vec<char>,
}

impl Query {
    spec fn reference(self) -> ReferenceView {
        ReferenceView { book: self.book@, chapter: self.chapter@, verse: self.verse@ }
    }

    spec fn ready(self) -> bool {
        &&& self.head@ == self.reference().book_name() + seq![' ']
            + self.reference().chapter_number() + seq![':']
        &&& self.book_marker@ == book_marker()
        &&& self.chapter_marker@ == chapter_marker()
        &&& self.psalm_marker@ == psalm_marker()
        &&& self.no_verse@ == no_verse()
    }

    fn new(reference: &NormalizedReference) -> (q: Query)
        ensures
            q.ready(),
            q.reference() == reference@,
    {
        proof {
            use_type_invariant(reference);
        }
        let book = to_chars(reference.book());
        let chapter = to_chars(reference.chapter());
        let verse = to_chars(reference.verse());
        let prefix = to_chars("THE BOOK OF ");
        let mut head = slice_chars(&book, prefix.len(), book.len());
        head.push(' ');
        let w = split_words(&chapter);
        if w.len() >= 2 {
            assert(char_seqs(w@)[1] == w@[1]@);
            append_chars(&mut head, &w[1]);
        }
        head.push(':');
        assert(head@ =~= reference@.book_name() + seq![' '] + reference@.chapter_number() + seq![
            ':',
        ]);
        Query {
            book,
            chapter,
            verse,
            head,
            book_marker: to_chars("THE BOOK OF"),
            chapter_marker: to_chars("CHAPTER"),
            psalm_marker: to_chars("PSALM"),
            no_verse: to_chars("0"),
        }
    }

    fn carries_verse(&self, line: &Vec<char>) -> (b: bool)
        ensures
            b == carries_verse(line@, self.verse@),
    {
        starts_with_chars(line, &self.verse) && (line.len() == self.verse.len() || !char_is_digit(
            line[self.verse.len()],
        ))
    }

    fn step(&self, state: ScanState, line: &Vec<char>, last: bool) -> (step: Step)
        requires
            self.ready(),
        ensures
            step@ == next_step(state, line@, last, self.reference()),
    {
        if !state.found_book && contains_chars(line, &self.book) {
            Step::Continue(ScanState { found_book: true, found_chapter: state.found_chapter })
        } else if state.found_book && contains_chars(line, &self.chapter) {
            Step::Continue(ScanState { found_book: state.found_book, found_chapter: true })
        } else if state.found_chapter && self.carries_verse(line) {
            let mut text = Vec::new();
            append_chars(&mut text, &self.head);
            append_chars(&mut text, line);
            assert(text@ =~= found_text(self.reference(), line@));
            Step::Done(ScanOutcome::VerseFound(from_chars(&text)))
        } else {
            let new_book = contains_chars(line, &self.book_marker);
            if (state.found_book && state.found_chapter && (new_book || last || contains_chars(
                line,
                &self.chapter_marker,
            ) || contains_chars(line, &self.psalm_marker))) || same_chars(
                &self.verse,
                &self.no_verse,
            ) {
                Step::Done(ScanOutcome::VerseMissing)
            } else if state.found_book && (new_book || last) {
                Step::Done(ScanOutcome::ChapterMissing)
            } else if last {
                Step::Done(ScanOutcome::BookMissing)
            } else {
                Step::Continue(state)
            }
        }
    }
}

impl ScanState {
    /// The state in which every search begins.
    pub fn new() -> (state: ScanState)
        ensures
            state == start(),
    {
        ScanState { found_book: false, found_chapter: false }
    }
}

/// Takes a search for `reference` that has come to `state` over one more line;
/// `last` says that no line follows.
pub fn scan_line(
    state: ScanState,
    line: &str,
    last: bool,
    reference: &NormalizedReference,
) -> (step: Step)
    ensures
        step@ == next_step(state, line@, last, reference@),
{
    let q = Query::new(reference);
    q.step(state, &to_chars(line), last)
}

/// Searches `corpus` for the verse that `reference` names, line by line from the
/// first. Returns `None` if the lines end before any of them has decided: if
/// `corpus` is empty, or its last line is the one where the book or the chapter
/// is found.
pub fn search_bible(reference: &NormalizedReference, corpus: &Vec<String>) -> (outcome: Option<
    ScanOutcome,
>)
    ensures
        outcome.deep_view() == scan(corpus.deep_view(), reference@),
{
    let q = Query::new(reference);
    let mut state = ScanState::new();
    let mut i: usize = 0;
    while i < corpus.len()
        invariant
            i <= corpus.len(),
            q.ready(),
            q.reference() == reference@,
            scan_from(corpus.deep_view(), reference@, state, i as int) == scan(
                corpus.deep_view(),
                reference@,
            ),
        decreases corpus.len() - i,
    {
        let line = to_chars(corpus[i].as_str());
        match q.step(state, &line, i + 1 == corpus.len()) {
            Step::Done(outcome) => {
                return Some(outcome);
            },
            Step::Continue(next) => {
                state = next;
            },
        }
        i += 1;
    }
    None
}

} // verus!
