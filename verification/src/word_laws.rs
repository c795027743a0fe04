//! What holds of words and of joining them.

use vstd::prelude::*;
use crate::text::is_whitespace;
use crate::words::{join, normalized, words, words_from};

verus! {

/// `s` holds no white space.
pub open spec fn no_whitespace(s: Seq<char>) -> bool {
    forall|i: int| 0 <= i < s.len() ==> !is_whitespace(#[trigger] s[i])
}

/// `w` is a word: it holds a character, and no white space.
pub open spec fn is_word(w: Seq<char>) -> bool {
    w.len() > 0 && no_whitespace(w)
}

/// Every one of `ws` is a word.
pub open spec fn all_words(ws: Seq<Seq<char>>) -> bool {
    forall|k: int| 0 <= k < ws.len() ==> is_word(#[trigger] ws[k])
}

/// `ws`, after `first` if `first` holds a character.
pub open spec fn with_first(first: Seq<char>, ws: Seq<Seq<char>>) -> Seq<Seq<char>> {
    if first.len() > 0 {
        seq![first] + ws
    } else {
        ws
    }
}

/// Joining begins with the first part; the separator follows only if more parts do.
pub proof fn lemma_join_first(first: Seq<char>, rest: Seq<Seq<char>>, sep: char)
    ensures
        join(seq![first] + rest, sep) == if rest.len() == 0 {
            first
        } else {
            first + seq![sep] + join(rest, sep)
        },
{
    let all = seq![first] + rest;
    assert(all[0] == first);
    assert(all.skip(1) =~= rest);
}

/// A part that ends in a separator and a word is joined as the two would be.
pub proof fn lemma_join_merge(cur: Seq<char>, w: Seq<char>, rest: Seq<Seq<char>>, sep: char)
    ensures
        join(seq![cur + seq![sep] + w] + rest, sep) == join(seq![cur] + (seq![w] + rest), sep),
{
    lemma_join_first(cur + seq![sep] + w, rest, sep);
    lemma_join_first(cur, seq![w] + rest, sep);
    lemma_join_first(w, rest, sep);
    if rest.len() > 0 {
        assert((cur + seq![sep] + w) + seq![sep] + join(rest, sep) =~= cur + seq![sep] + (w + seq![
            sep,
        ] + join(rest, sep)));
    }
}

proof fn lemma_words_from_are_words(s: Seq<char>, cur: Seq<char>)
    requires
        no_whitespace(cur),
    ensures
        all_words(words_from(s, cur)),
    decreases s.len(),
{
    if s.len() > 0 {
        if is_whitespace(s[0]) {
            lemma_words_from_are_words(s.skip(1), Seq::empty());
        } else {
            lemma_words_from_are_words(s.skip(1), cur.push(s[0]));
        }
    }
}

/// Each word of a text holds a character, and no white space.
pub proof fn lemma_words_are_words(s: Seq<char>)
    ensures
        all_words(words(s)),
{
    lemma_words_from_are_words(s, Seq::empty());
}

/// A run without white space that a text begins with goes to the word that is
/// begun.
pub proof fn lemma_words_from_run(w: Seq<char>, rest: Seq<char>, cur: Seq<char>)
    requires
        no_whitespace(w),
    ensures
        words_from(w + rest, cur) == words_from(rest, cur + w),
    decreases w.len(),
{
    if w.len() == 0 {
        assert(w + rest =~= rest);
        assert(cur + w =~= cur);
    } else {
        let s = w + rest;
        assert(s[0] == w[0]);
        assert(s.skip(1) =~= w.skip(1) + rest);
        assert(no_whitespace(w.skip(1))) by {
            assert forall|i: int| 0 <= i < w.skip(1).len() implies !is_whitespace(
                #[trigger] w.skip(1)[i],
            ) by {
                assert(w.skip(1)[i] == w[i + 1]);
            }
        }
        lemma_words_from_run(w.skip(1), rest, cur.push(w[0]));
        assert(cur.push(w[0]) + w.skip(1) =~= cur + w);
    }
}

/// The words of words that are joined by spaces are those words.
pub proof fn lemma_words_of_joined(ws: Seq<Seq<char>>)
    requires
        all_words(ws),
    ensures
        words(join(ws, ' ')) == ws,
    decreases ws.len(),
{
    if ws.len() == 0 {
        assert(words(join(ws, ' ')) =~= ws);
    } else {
        let w = ws[0];
        let rest = ws.skip(1);
        assert(is_word(w));
        assert(seq![w] + rest =~= ws);
        assert(all_words(rest)) by {
            assert forall|k: int| 0 <= k < rest.len() implies is_word(#[trigger] rest[k]) by {
                assert(rest[k] == ws[k + 1]);
            }
        }
        lemma_join_first(w, rest, ' ');
        let empty = Seq::<char>::empty();
        assert(empty + w =~= w);
        if rest.len() == 0 {
            assert(w + empty =~= w);
            lemma_words_from_run(w, empty, empty);
            assert(words_from(empty, w) =~= ws);
        } else {
            let tail = seq![' '] + join(rest, ' ');
            assert(w + seq![' '] + join(rest, ' ') =~= w + tail);
            lemma_words_from_run(w, tail, empty);
            assert(tail[0] == ' ');
            assert(tail.skip(1) =~= join(rest, ' '));
            lemma_words_of_joined(rest);
            assert(words_from(tail, w) == seq![w] + words_from(tail.skip(1), empty));
        }
    }
}

proof fn lemma_joined_words_from_len(s: Seq<char>, cur: Seq<char>)
    ensures
        join(words_from(s, cur), ' ').len() <= cur.len() + s.len(),
    decreases s.len(),
{
    if s.len() > 0 {
        if is_whitespace(s[0]) {
            lemma_joined_words_from_len(s.skip(1), Seq::empty());
            if cur.len() > 0 {
                lemma_join_first(cur, words_from(s.skip(1), Seq::empty()), ' ');
            }
        } else {
            lemma_joined_words_from_len(s.skip(1), cur.push(s[0]));
        }
    }
}

/// A text is no shorter than its words joined by single spaces.
pub proof fn lemma_normalized_len(s: Seq<char>)
    ensures
        normalized(s).len() <= s.len(),
{
    lemma_joined_words_from_len(s, Seq::empty());
}

} // verus!
