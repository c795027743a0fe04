//! What holds of a wrapped text.

use vstd::prelude::*;
use crate::text::is_whitespace;
use crate::word_laws::{
    all_words, is_word, lemma_join_first, lemma_join_merge, lemma_normalized_len,
    lemma_words_are_words, lemma_words_of_joined, no_whitespace, with_first,
};
use crate::words::{join, normalized, words, words_from};
use crate::wrap::{fill, wrap, wrap_lines, LINE_WIDTH};

verus! {

/// `s` with a space in place of each line feed.
pub open spec fn unwrapped(s: Seq<char>) -> Seq<char> {
    Seq::new(
        s.len(),
        |i: int|
            if s[i] == '\n' {
                ' '
            } else {
                s[i]
            },
    )
}

/// No character of `s` from index `from` up to, not including, index `to` is a
/// line feed.
pub open spec fn within_a_line(s: Seq<char>, from: int, to: int) -> bool {
    forall|i: int| from <= i < to ==> #[trigger] s[i] != '\n'
}

proof fn lemma_rest_are_words(ws: Seq<Seq<char>>)
    requires
        all_words(ws),
        ws.len() > 0,
    ensures
        all_words(ws.skip(1)),
        is_word(ws[0]),
        seq![ws[0]] + ws.skip(1) == ws,
{
    let rest = ws.skip(1);
    assert forall|k: int| 0 <= k < rest.len() implies is_word(#[trigger] rest[k]) by {
        assert(rest[k] == ws[k + 1]);
    }
    assert(seq![ws[0]] + ws.skip(1) =~= ws);
}

proof fn lemma_fill_begun(ws: Seq<Seq<char>>, cur: Seq<char>)
    requires
        cur.len() > 0,
    ensures
        fill(ws, cur).len() > 0,
    decreases ws.len(),
{
    if ws.len() > 0 {
        if cur.len() + 1 + ws[0].len() > LINE_WIDTH {
        } else {
            lemma_fill_begun(ws.skip(1), cur + seq![' '] + ws[0]);
        }
    }
}

proof fn lemma_unwrapped_same(s: Seq<char>)
    requires
        no_whitespace(s) || within_a_line(s, 0, s.len() as int),
    ensures
        unwrapped(s) == s,
{
    assert(is_whitespace('\n'));
    assert(unwrapped(s) =~= s);
}

proof fn lemma_fill_rejoined(ws: Seq<Seq<char>>, cur: Seq<char>)
    requires
        all_words(ws),
        within_a_line(cur, 0, cur.len() as int),
    ensures
        unwrapped(join(fill(ws, cur), '\n')) == join(with_first(cur, ws), ' '),
    decreases ws.len(),
{
    if ws.len() == 0 {
        lemma_unwrapped_same(cur);
        if cur.len() > 0 {
            assert(seq![cur] + ws =~= seq![cur]);
        } else {
            assert(unwrapped(Seq::<char>::empty()) =~= Seq::<char>::empty());
        }
    } else {
        let w = ws[0];
        let rest = ws.skip(1);
        lemma_rest_are_words(ws);
        lemma_unwrapped_same(w);
        assert(within_a_line(w, 0, w.len() as int)) by {
            assert(is_whitespace('\n'));
        }
        if cur.len() == 0 {
            lemma_fill_rejoined(rest, w);
        } else if cur.len() + 1 + w.len() > LINE_WIDTH {
            let lines = fill(rest, w);
            lemma_fill_rejoined(rest, w);
            lemma_fill_begun(rest, w);
            lemma_join_first(cur, lines, '\n');
            lemma_join_first(cur, ws, ' ');
            lemma_unwrapped_same(cur);
            assert(unwrapped(cur + seq!['\n'] + join(lines, '\n')) =~= unwrapped(cur) + seq![' ']
                + unwrapped(join(lines, '\n')));
        } else {
            let longer = cur + seq![' '] + w;
            assert(within_a_line(longer, 0, longer.len() as int)) by {
                assert forall|i: int| 0 <= i < longer.len() implies #[trigger] longer[i]
                    != '\n' by {
                    if i < cur.len() {
                        assert(longer[i] == cur[i]);
                    } else if i > cur.len() {
                        assert(longer[i] == w[i - cur.len() - 1]);
                    }
                }
            }
            lemma_fill_rejoined(rest, longer);
            lemma_join_merge(cur, w, rest, ' ');
        }
    }
}

/// Joining the lines of a wrapped text with spaces, in place of the line feeds,
/// gives the words of the text with one space between each two.
pub proof fn lemma_wrap_rejoined(text: Seq<char>)
    ensures
        unwrapped(wrap(text)) == normalized(text),
{
    lemma_words_are_words(text);
    lemma_fill_rejoined(words(text), Seq::empty());
}

proof fn lemma_words_from_unwrapped(s: Seq<char>, cur: Seq<char>)
    ensures
        words_from(unwrapped(s), cur) == words_from(s, cur),
    decreases s.len(),
{
    if s.len() > 0 {
        assert(is_whitespace('\n'));
        assert(is_whitespace(' '));
        assert(unwrapped(s).skip(1) =~= unwrapped(s.skip(1)));
        if is_whitespace(s[0]) {
            lemma_words_from_unwrapped(s.skip(1), Seq::empty());
        } else {
            lemma_words_from_unwrapped(s.skip(1), cur.push(s[0]));
        }
    }
}

/// A wrapped text has the words of the text, in their order: wrapping changes
/// white space only.
pub proof fn lemma_wrap_keeps_words(text: Seq<char>)
    ensures
        words(wrap(text)) == words(text),
{
    lemma_words_from_unwrapped(wrap(text), Seq::empty());
    lemma_wrap_rejoined(text);
    lemma_words_are_words(text);
    lemma_words_of_joined(words(text));
}

/// Wrapping a wrapped text changes nothing.
pub proof fn lemma_wrap_twice(text: Seq<char>)
    ensures
        wrap(wrap(text)) == wrap(text),
{
    lemma_wrap_keeps_words(text);
}

proof fn lemma_fill_one_line(ws: Seq<Seq<char>>, cur: Seq<char>)
    requires
        all_words(ws),
        join(with_first(cur, ws), ' ').len() <= LINE_WIDTH,
    ensures
        join(fill(ws, cur), '\n') == join(with_first(cur, ws), ' '),
    decreases ws.len(),
{
    if ws.len() == 0 {
        if cur.len() > 0 {
            assert(seq![cur] + ws =~= seq![cur]);
        }
    } else {
        let w = ws[0];
        let rest = ws.skip(1);
        lemma_rest_are_words(ws);
        if cur.len() == 0 {
            lemma_fill_one_line(rest, w);
        } else {
            lemma_join_first(cur, ws, ' ');
            lemma_join_first(w, rest, ' ');
            lemma_join_merge(cur, w, rest, ' ');
            lemma_fill_one_line(rest, cur + seq![' '] + w);
        }
    }
}

/// A text whose words, with one space between each two, fill no more than one
/// line is wrapped to just that: it is changed in its white space only. So it is
/// for every text of no more than `LINE_WIDTH` characters, and such a text with
/// single spaces between its words, and none around them, is returned as it is.
pub proof fn lemma_wrap_short(text: Seq<char>)
    requires
        normalized(text).len() <= LINE_WIDTH || text.len() <= LINE_WIDTH,
    ensures
        wrap(text) == normalized(text),
        normalized(text) == text ==> wrap(text) == text,
{
    lemma_normalized_len(text);
    lemma_words_are_words(text);
    lemma_fill_one_line(words(text), Seq::empty());
}

proof fn lemma_fill_lines(ws: Seq<Seq<char>>, cur: Seq<char>)
    requires
        all_words(ws),
        within_a_line(cur, 0, cur.len() as int),
    ensures
        forall|i: int|
            0 <= i < fill(ws, cur).len() ==> (#[trigger] fill(ws, cur)[i]).len() > 0
                && within_a_line(fill(ws, cur)[i], 0, fill(ws, cur)[i].len() as int),
    decreases ws.len(),
{
    let lines = fill(ws, cur);
    if ws.len() > 0 {
        let w = ws[0];
        let rest = ws.skip(1);
        lemma_rest_are_words(ws);
        assert(within_a_line(w, 0, w.len() as int)) by {
            assert(is_whitespace('\n'));
        }
        if cur.len() == 0 {
            lemma_fill_lines(rest, w);
            assert(lines == fill(rest, w));
        } else if cur.len() + 1 + w.len() > LINE_WIDTH {
            lemma_fill_lines(rest, w);
            assert forall|i: int| 0 <= i < lines.len() implies (#[trigger] lines[i]).len() > 0
                && within_a_line(lines[i], 0, lines[i].len() as int) by {
                if i > 0 {
                    assert(lines[i] == fill(rest, w)[i - 1]);
                }
            }
        } else {
            let longer = cur + seq![' '] + w;
            assert(within_a_line(longer, 0, longer.len() as int)) by {
                assert forall|i: int| 0 <= i < longer.len() implies #[trigger] longer[i]
                    != '\n' by {
                    if i < cur.len() {
                        assert(longer[i] == cur[i]);
                    } else if i > cur.len() {
                        assert(longer[i] == w[i - cur.len() - 1]);
                    }
                }
            }
            lemma_fill_lines(rest, longer);
            assert(lines == fill(rest, longer));
        }
    } else if cur.len() > 0 {
        assert(lines[0] == cur);
    }
}

/// The lines of a wrapped text are the lines of what `wrap` gives: each holds a
/// character, and none holds a line feed.
pub proof fn lemma_wrap_lines(text: Seq<char>)
    ensures
        wrap(text) == join(wrap_lines(text), '\n'),
        forall|i: int|
            0 <= i < wrap_lines(text).len() ==> (#[trigger] wrap_lines(text)[i]).len() > 0
                && within_a_line(wrap_lines(text)[i], 0, wrap_lines(text)[i].len() as int),
{
    lemma_words_are_words(text);
    lemma_fill_lines(words(text), Seq::empty());
}

proof fn lemma_fill_fits(ws: Seq<Seq<char>>, cur: Seq<char>, all: Seq<Seq<char>>)
    requires
        cur.len() <= LINE_WIDTH || all.contains(cur),
        forall|k: int| 0 <= k < ws.len() ==> all.contains(#[trigger] ws[k]),
    ensures
        forall|i: int|
            0 <= i < fill(ws, cur).len() ==> (#[trigger] fill(ws, cur)[i]).len() <= LINE_WIDTH
                || all.contains(fill(ws, cur)[i]),
    decreases ws.len(),
{
    let lines = fill(ws, cur);
    if ws.len() > 0 {
        let w = ws[0];
        let rest = ws.skip(1);
        assert(all.contains(w));
        assert forall|k: int| 0 <= k < rest.len() implies all.contains(#[trigger] rest[k]) by {
            assert(rest[k] == ws[k + 1]);
        }
        if cur.len() == 0 {
            lemma_fill_fits(rest, w, all);
            assert(lines == fill(rest, w));
        } else if cur.len() + 1 + w.len() > LINE_WIDTH {
            lemma_fill_fits(rest, w, all);
            assert forall|i: int| 0 <= i < lines.len() implies (#[trigger] lines[i]).len()
                <= LINE_WIDTH || all.contains(lines[i]) by {
                if i > 0 {
                    assert(lines[i] == fill(rest, w)[i - 1]);
                }
            }
        } else {
            let longer = cur + seq![' '] + w;
            assert(longer.len() == cur.len() + 1 + w.len());
            lemma_fill_fits(rest, longer, all);
            assert(lines == fill(rest, longer));
        }
    } else if cur.len() > 0 {
        assert(lines[0] == cur);
    }
}

/// A line of a wrapped text that holds more than `LINE_WIDTH` characters is one
/// word of the text, alone.
pub proof fn lemma_wrap_lines_fit(text: Seq<char>)
    ensures
        forall|i: int|
            0 <= i < wrap_lines(text).len() ==> (#[trigger] wrap_lines(text)[i]).len()
                <= LINE_WIDTH || words(text).contains(wrap_lines(text)[i]),
{
    let ws = words(text);
    assert forall|k: int| 0 <= k < ws.len() implies ws.contains(#[trigger] ws[k]) by {}
    lemma_fill_fits(ws, Seq::empty(), ws);
}

proof fn lemma_joined_window(lines: Seq<Seq<char>>, from: int, to: int, width: int)
    requires
        forall|i: int| 0 <= i < lines.len() ==> (#[trigger] lines[i]).len() <= width,
        0 <= from <= to <= join(lines, '\n').len(),
        within_a_line(join(lines, '\n'), from, to),
        0 <= width,
    ensures
        to - from <= width,
    decreases lines.len(),
{
    if lines.len() == 0 {
    } else if lines.len() == 1 {
    } else {
        let first = lines[0];
        let rest = lines.skip(1);
        let all = join(lines, '\n');
        let tail = join(rest, '\n');
        assert(all == first + seq!['\n'] + tail);
        assert(all[first.len() as int] == '\n');
        if from <= first.len() {
            if to > first.len() {
                assert(all[first.len() as int] != '\n');
            }
        } else {
            let shift = first.len() + 1;
            assert forall|i: int| 0 <= i < rest.len() implies (#[trigger] rest[i]).len()
                <= width by {
                assert(rest[i] == lines[i + 1]);
            }
            assert(within_a_line(tail, from - shift, to - shift)) by {
                assert forall|i: int| from - shift <= i < to - shift implies #[trigger] tail[i]
                    != '\n' by {
                    assert(tail[i] == all[i + shift]);
                }
            }
            lemma_joined_window(rest, from - shift, to - shift, width);
        }
    }
}

/// If no word of a text is longer than `LINE_WIDTH`, then no line of the wrapped
/// text is: what stands in it without a line feed, from anywhere to anywhere,
/// holds no more than `LINE_WIDTH` characters.
pub proof fn lemma_wrap_width(text: Seq<char>, from: int, to: int)
    requires
        forall|k: int|
            0 <= k < words(text).len() ==> (#[trigger] words(text)[k]).len() <= LINE_WIDTH,
        0 <= from <= to <= wrap(text).len(),
        within_a_line(wrap(text), from, to),
    ensures
        to - from <= LINE_WIDTH,
{
    let lines = wrap_lines(text);
    lemma_wrap_lines_fit(text);
    assert forall|i: int| 0 <= i < lines.len() implies (#[trigger] lines[i]).len()
        <= LINE_WIDTH by {
        if words(text).contains(lines[i]) {
            let k = choose|k: int| 0 <= k < words(text).len() && words(text)[k] == lines[i];
            assert(words(text)[k].len() <= LINE_WIDTH);
        }
    }
    lemma_joined_window(lines, from, to, LINE_WIDTH as int);
}

} // verus!
