//! Breaking a text into lines of a fixed width, between its words.

use vstd::prelude::*;
use crate::text::{append_chars, from_chars, to_chars};
use crate::words::{char_seqs, join, join_chars, split_words, words};

verus! {

/// The most characters that a line holds, unless one word alone is longer.
pub const LINE_WIDTH: usize = 80;

/// The lines that `ws` fill after the line `cur`, which is begun and not yet ended:
/// a word goes on the line that is begun, after one space, if the line then holds
/// no more than `LINE_WIDTH` characters; else it begins the next line.
pub open spec fn fill(ws: Seq<Seq<char>>, cur: Seq<char>) -> Seq<Seq<char>>
    decreases ws.len(),
{
    if ws.len() == 0 {
        if cur.len() > 0 {
            seq![cur]
        } else {
            Seq::empty()
        }
    } else if cur.len() == 0 {
        fill(ws.skip(1), ws[0])
    } else if cur.len() + 1 + ws[0].len() > LINE_WIDTH {
        seq![cur] + fill(ws.skip(1), ws[0])
    } else {
        fill(ws.skip(1), cur + seq![' '] + ws[0])
    }
}

/// The lines of `text` when it is wrapped.
pub open spec fn wrap_lines(text: Seq<char>) -> Seq<Seq<char>> {
    fill(words(text), Seq::empty())
}

/// `text` wrapped: its lines, with a line feed between each two.
pub open spec fn wrap(text: Seq<char>) -> Seq<char> {
    join(wrap_lines(text), '\n')
}

/// The lines that the words `ws` fill.
pub fn fill_lines(ws: &Vec<Vec<char>>) -> (lines: Vec<Vec<char>>)
    ensures
        char_seqs(lines@) == fill(char_seqs(ws@), Seq::empty()),
{
    let mut lines: Vec<Vec<char>> = Vec::new();
    let mut cur: Vec<char> = Vec::new();
    let ghost all = char_seqs(ws@);
    let mut i: usize = 0;
    assert(all.skip(0) =~= all);
    assert(char_seqs(lines@) + fill(all, cur@) =~= fill(all, Seq::empty()));
    while i < ws.len()
        invariant
            i <= ws.len(),
            all == char_seqs(ws@),
            char_seqs(lines@) + fill(all.skip(i as int), cur@) == fill(all, Seq::empty()),
        decreases ws.len() - i,
    {
        let word = &ws[i];
        let ghost rest = all.skip(i as int);
        let ghost before = char_seqs(lines@);
        let ghost line = cur@;
        assert(rest.skip(1) =~= all.skip(i + 1));
        assert(rest[0] == word@);
        if cur.len() == 0 {
            append_chars(&mut cur, word);
            assert(cur@ =~= word@);
        } else if word.len() >= LINE_WIDTH || cur.len() > LINE_WIDTH - 1 - word.len() {
            lines.push(cur);
            cur = Vec::new();
            append_chars(&mut cur, word);
            assert(cur@ =~= word@);
            assert(char_seqs(lines@) =~= before + seq![line]);
            assert(fill(rest, line) == seq![line] + fill(rest.skip(1), cur@));
            assert(char_seqs(lines@) + fill(rest.skip(1), cur@) =~= before + fill(rest, line));
        } else {
            cur.push(' ');
            append_chars(&mut cur, word);
            assert(cur@ =~= line + seq![' '] + word@);
        }
        i += 1;
    }
    if cur.len() > 0 {
        let ghost before = char_seqs(lines@);
        let ghost line = cur@;
        lines.push(cur);
        assert(char_seqs(lines@) =~= before + seq![line]);
    }
    assert(char_seqs(lines@) =~= fill(all, Seq::empty()));
    lines
}

/// Wraps `text` to lines of at most `LINE_WIDTH` characters. A line ends only between
/// two words; a word longer than a line stands on a line of its own.
pub fn wrap_text(text: &str) -> (out: String)
    ensures
        out@ == wrap(text@),
{
    let chars = to_chars(text);
    let ws = split_words(&chars);
    let lines = fill_lines(&ws);
    let joined = join_chars(&lines, '\n');
    from_chars(&joined)
}

} // verus!
