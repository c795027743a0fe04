//! What is said to the reader of an outcome, and what is asked of them after it.

use vstd::prelude::*;
use crate::reference::{NormalizedReference, ReferenceView};
use crate::scan::{Outcome, ScanOutcome};
use crate::text::{
    append_chars, from_chars, lower, lower_char, to_chars, to_lower, to_lower_char,
    to_upper_char, upper_char,
};
use crate::wrap::{wrap, wrap_text};

verus! {

/// `s` with its first character in upper case and the others in lower case, as
/// far as they are ASCII letters.
pub open spec fn capitalized(s: Seq<char>) -> Seq<char> {
    Seq::new(
        s.len(),
        |i: int|
            if i == 0 {
                upper_char(s[i])
            } else {
                lower_char(s[i])
            },
    )
}

/// What is said of `outcome` of the search for `r`: the text of the verse,
/// wrapped, or which of verse, chapter and book the corpus does not hold.
pub open spec fn message(outcome: Outcome, r: ReferenceView) -> Seq<char> {
    match outcome {
        Outcome::VerseFound(text) => wrap(text),
        Outcome::VerseMissing => capitalized(r.chapter) + " of "@ + r.book_name()
            + " does not have a verse "@ + r.verse,
        Outcome::ChapterMissing => "The book of "@ + r.book_name() + " does not have a "@ + lower(
            r.chapter,
        ),
        Outcome::BookMissing => "The Bible does not contain the book of "@ + r.book_name(),
    }
}

/// The answer asks for another search: it begins with `y` or `Y`.
pub open spec fn is_yes(answer: Seq<char>) -> bool {
    answer.len() > 0 && upper_char(answer[0]) == 'Y'
}

/// Gives `data` with its first letter in upper case and the others in lower case.
pub fn uppercase_first(data: &str) -> (r: String)
    ensures
        r@ == capitalized(data@),
{
    let v = to_chars(data);
    let mut r: Vec<char> = Vec::new();
    let mut i: usize = 0;
    while i < v.len()
        invariant
            i <= v.len(),
            r@ == capitalized(v@).take(i as int),
        decreases v.len() - i,
    {
        if i == 0 {
            r.push(to_upper_char(v[i]));
        } else {
            r.push(to_lower_char(v[i]));
        }
        i += 1;
    }
    from_chars(&r)
}

/// What to say of `outcome` of the search for `reference`.
pub fn report(outcome: &ScanOutcome, reference: &NormalizedReference) -> (s: String)
    ensures
        s@ == message(outcome@, reference@),
{
    let name = to_chars(reference.book_name().as_str());
    match outcome {
        ScanOutcome::VerseFound(text) => wrap_text(text.as_str()),
        ScanOutcome::VerseMissing => {
            let mut m = to_chars(uppercase_first(reference.chapter()).as_str());
            append_chars(&mut m, &to_chars(" of "));
            append_chars(&mut m, &name);
            append_chars(&mut m, &to_chars(" does not have a verse "));
            append_chars(&mut m, &to_chars(reference.verse()));
            from_chars(&m)
        },
        ScanOutcome::ChapterMissing => {
            let mut m = to_chars("The book of ");
            append_chars(&mut m, &name);
            append_chars(&mut m, &to_chars(" does not have a "));
            append_chars(&mut m, &to_lower(&to_chars(reference.chapter())));
            from_chars(&m)
        },
        ScanOutcome::BookMissing => {
            let mut m = to_chars("The Bible does not contain the book of ");
            append_chars(&mut m, &name);
            from_chars(&m)
        },
    }
}

/// Whether `answer` asks for another search.
pub fn wants_another(answer: &str) -> (again: bool)
    ensures
        again == is_yes(answer@),
{
    let v = to_chars(answer);
    v.len() > 0 && to_upper_char(v[0]) == 'Y'
}

} // verus!
