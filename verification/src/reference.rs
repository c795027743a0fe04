//! The reference that a query names, in the form that the corpus is searched for.

use vstd::prelude::*;
use crate::abbrev::{found_name, AbbreviationTable};
use crate::text::{
    append_chars, contains_chars, from_chars, has_substring, is_whitespace, slice_chars,
    to_chars, to_upper, trim, trim_chars, upper,
};
use crate::word_laws::{is_word, lemma_words_from_run, no_whitespace};
use crate::words::{split_words, words, words_from};

verus! {

/// What a line that begins a book holds, before the book's name.
pub open spec fn book_prefix() -> Seq<char> {
    "THE BOOK OF "@
}

/// What a line that begins a chapter holds, before the chapter's number.
pub open spec fn chapter_prefix() -> Seq<char> {
    "CHAPTER "@
}

/// What a line that begins a psalm holds, before the psalm's number.
pub open spec fn psalm_prefix() -> Seq<char> {
    "PSALM "@
}

/// The name of the book whose chapters are psalms.
pub open spec fn psalms() -> Seq<char> {
    "PSALMS"@
}

/// The three tokens of a reference.
pub struct ReferenceView {
    /// `book_prefix()`, then the book's name in upper case.
    pub book: Seq<char>,
    /// `chapter_prefix()` or `psalm_prefix()`, then the chapter as it was entered.
    pub chapter: Seq<char>,
    /// The verse as it was entered.
    pub verse: Seq<char>,
}

impl ReferenceView {
    /// The tokens begin as they must.
    pub open spec fn wf(self) -> bool {
        &&& book_prefix().is_prefix_of(self.book)
        &&& chapter_prefix().is_prefix_of(self.chapter) || psalm_prefix().is_prefix_of(
            self.chapter,
        )
    }

    /// The book's name: the book token without `book_prefix()`.
    pub open spec fn book_name(self) -> Seq<char> {
        self.book.skip(book_prefix().len() as int)
    }

    /// The chapter's number: the second word of the chapter token, if it has one.
    pub open spec fn chapter_number(self) -> Seq<char> {
        let w = words(self.chapter);
        if w.len() >= 2 {
            w[1]
        } else {
            Seq::empty()
        }
    }
}

/// The name of the book that is entered as `book`: the name that `table` holds
/// for the entry without the white space around it, whatever its case; or, if it
/// holds none, that entry in upper case.
pub open spec fn canonical_name(book: Seq<char>, table: Map<Seq<char>, Seq<char>>) -> Seq<char> {
    match found_name(table, trim(book)) {
        Some(name) => name,
        None => upper(trim(book)),
    }
}

/// The reference that the three entries name, with `table` for the book's name.
/// The chapters of a book whose token holds `psalms()` are psalms.
pub open spec fn normalized_reference(
    book: Seq<char>,
    chapter: Seq<char>,
    verse: Seq<char>,
    table: Map<Seq<char>, Seq<char>>,
) -> ReferenceView {
    let token = book_prefix() + canonical_name(book, table);
    let prefix = if has_substring(token, psalms()) {
        psalm_prefix()
    } else {
        chapter_prefix()
    };
    ReferenceView { book: token, chapter: prefix + trim(chapter), verse: trim(verse) }
}

/// The tokens of the reference that a query names begin as they must; its book's
/// name is the name of the book that was entered; and its chapter's number is the
/// chapter that was entered, without the white space around it, if that is one
/// word.
pub proof fn lemma_normalized_parts(
    book: Seq<char>,
    chapter: Seq<char>,
    verse: Seq<char>,
    table: Map<Seq<char>, Seq<char>>,
)
    ensures
        normalized_reference(book, chapter, verse, table).wf(),
        normalized_reference(book, chapter, verse, table).book_name() == canonical_name(
            book,
            table,
        ),
        is_word(trim(chapter)) ==> normalized_reference(
            book,
            chapter,
            verse,
            table,
        ).chapter_number() == trim(chapter),
{
    let r = normalized_reference(book, chapter, verse, table);
    let name = r.book.skip(book_prefix().len() as int);
    assert(r.book.subrange(0, book_prefix().len() as int) =~= book_prefix());
    assert(name =~= r.book_name());
    assert(r.book =~= book_prefix() + name);
    assert((book_prefix() + name).skip(book_prefix().len() as int) =~= name);
    let entry = trim(chapter);
    let psalm = has_substring(r.book, psalms());
    let prefix = if psalm {
        psalm_prefix()
    } else {
        chapter_prefix()
    };
    assert(r.chapter == prefix + entry);
    assert((prefix + entry).subrange(0, prefix.len() as int) =~= prefix);
    reveal_strlit("CHAPTER ");
    reveal_strlit("PSALM ");
    if is_word(entry) {
        let label = prefix.drop_last();
        let empty = Seq::<char>::empty();
        assert(is_whitespace(' '));
        assert(prefix.last() == ' ');
        assert(no_whitespace(label));
        let tail = seq![' '] + entry;
        assert(prefix + entry =~= label + tail);
        lemma_words_from_run(label, tail, empty);
        assert(empty + label =~= label);
        assert(tail[0] == ' ');
        assert(tail.skip(1) =~= entry);
        assert(words_from(tail, label) == seq![label] + words_from(entry, empty));
        assert(entry + empty =~= entry);
        lemma_words_from_run(entry, empty, empty);
        assert(empty + entry =~= entry);
        assert(words_from(empty, entry) == seq![entry]);
        assert(words(r.chapter) =~= seq![label, entry]);
    }
}

/// A reference to one verse, ready for the search.
pub struct NormalizedReference {
    book: String,
    chapter: String,
    verse: String,
}

impl View for NormalizedReference {
    type V = ReferenceView;

    closed spec fn view(&self) -> ReferenceView {
        ReferenceView { book: self.book@, chapter: self.chapter@, verse: self.verse@ }
    }
}

impl NormalizedReference {
    #[verifier::type_invariant]
    pub(crate) open spec fn tokens_begin_well(self) -> bool {
        self@.wf()
    }

    /// Makes the reference that the three entries of a query name: the book in
    /// upper case and without the white space around it, replaced by the name that
    /// `table` holds for it, if any; the chapter and the verse without the white
    /// space around them.
    pub fn normalize(book: &str, chapter: &str, verse: &str, table: &AbbreviationTable) -> (r:
        NormalizedReference)
        ensures
            r@ == normalized_reference(book@, chapter@, verse@, table@),
    {
        let entry = trim_chars(&to_chars(book));
        let name = match table.lookup(from_chars(&entry).as_str()) {
            Some(n) => to_chars(n.as_str()),
            None => to_upper(&entry),
        };
        let mut book_token = to_chars("THE BOOK OF ");
        append_chars(&mut book_token, &name);
        let mut chapter_token = if contains_chars(&book_token, &to_chars("PSALMS")) {
            to_chars("PSALM ")
        } else {
            to_chars("CHAPTER ")
        };
        append_chars(&mut chapter_token, &trim_chars(&to_chars(chapter)));
        let verse_token = trim_chars(&to_chars(verse));
        assert(book_prefix().is_prefix_of(book_token@)) by {
            assert(book_token@.subrange(0, book_prefix().len() as int) =~= book_prefix());
        }
        assert(chapter_prefix().is_prefix_of(chapter_token@) || psalm_prefix().is_prefix_of(
            chapter_token@,
        )) by {
            if has_substring(book_token@, psalms()) {
                assert(chapter_token@.subrange(0, psalm_prefix().len() as int) =~= psalm_prefix());
            } else {
                assert(chapter_token@.subrange(0, chapter_prefix().len() as int)
                    =~= chapter_prefix());
            }
        }
        NormalizedReference {
            book: from_chars(&book_token),
            chapter: from_chars(&chapter_token),
            verse: from_chars(&verse_token),
        }
    }

    /// The book token.
    pub fn book(&self) -> (s: &str)
        ensures
            s@ == self@.book,
    {
        self.book.as_str()
    }

    /// The chapter token.
    pub fn chapter(&self) -> (s: &str)
        ensures
            s@ == self@.chapter,
    {
        self.chapter.as_str()
    }

    /// The verse token.
    pub fn verse(&self) -> (s: &str)
        ensures
            s@ == self@.verse,
    {
        self.verse.as_str()
    }

    /// The book's name.
    pub fn book_name(&self) -> (s: String)
        ensures
            s@ == self@.book_name(),
    {
        proof {
            use_type_invariant(self);
        }
        let token = to_chars(self.book.as_str());
        let prefix = to_chars("THE BOOK OF ");
        from_chars(&slice_chars(&token, prefix.len(), token.len()))
    }

    /// The chapter's number.
    pub fn chapter_number(&self) -> (s: String)
        ensures
            s@ == self@.chapter_number(),
    {
        let w = split_words(&to_chars(self.chapter.as_str()));
        if w.len() >= 2 {
            from_chars(&w[1])
        } else {
            String::new()
        }
    }
}

} // verus!
