//! Words: the runs of characters between white space, and how they are joined again.

use vstd::prelude::*;
use crate::text::{append_chars, char_is_whitespace, is_whitespace};

verus! {

/// The sequences that the vectors of `v` hold, in order.
pub open spec fn char_seqs(v: Seq<Vec<char>>) -> Seq<Seq<char>> {
    Seq::new(v.len(), |i: int| v[i]@)
}

/// The words of `cur + s`, where `cur` is a run of characters that end no word yet:
/// white space in `s` ends the run, any other character makes it longer.
pub open spec fn words_from(s: Seq<char>, cur: Seq<char>) -> Seq<Seq<char>>
    decreases s.len(),
{
    if s.len() == 0 {
        if cur.len() > 0 {
            seq![cur]
        } else {
            Seq::empty()
        }
    } else if is_whitespace(s[0]) {
        if cur.len() > 0 {
            seq![cur] + words_from(s.skip(1), Seq::empty())
        } else {
            words_from(s.skip(1), Seq::empty())
        }
    } else {
        words_from(s.skip(1), cur.push(s[0]))
    }
}

/// The words of `s`: its longest runs of characters that are not white space, in order.
pub open spec fn words(s: Seq<char>) -> Seq<Seq<char>> {
    words_from(s, Seq::empty())
}

/// `parts` one after the other, with `sep` between each two neighbours.
pub open spec fn join(parts: Seq<Seq<char>>, sep: char) -> Seq<char>
    decreases parts.len(),
{
    if parts.len() == 0 {
        Seq::empty()
    } else if parts.len() == 1 {
        parts[0]
    } else {
        parts[0] + seq![sep] + join(parts.skip(1), sep)
    }
}

/// `s` with each run of white space made one space, and none at either end.
pub open spec fn normalized(s: Seq<char>) -> Seq<char> {
    join(words(s), ' ')
}

/// What `join` adds after the parts before index `from`.
spec fn join_rest(parts: Seq<Seq<char>>, sep: char, from: int) -> Seq<char> {
    if from < parts.len() {
        seq![sep] + join(parts.skip(from), sep)
    } else {
        Seq::empty()
    }
}

/// The words of `v`.
pub fn split_words(v: &Vec<char>) -> (done: Vec<Vec<char>>)
    ensures
        char_seqs(done@) == words(v@),
{
    let mut done: Vec<Vec<char>> = Vec::new();
    let mut cur: Vec<char> = Vec::new();
    let mut i: usize = 0;
    assert(v@.skip(0) =~= v@);
    assert(char_seqs(done@) + words_from(v@, cur@) =~= words(v@));
    while i < v.len()
        invariant
            i <= v.len(),
            char_seqs(done@) + words_from(v@.skip(i as int), cur@) == words(v@),
        decreases v.len() - i,
    {
        let c = v[i];
        let ghost rest = v@.skip(i as int);
        let ghost before = char_seqs(done@);
        let ghost run = cur@;
        assert(rest.skip(1) =~= v@.skip(i + 1));
        assert(rest[0] == c);
        if char_is_whitespace(c) {
            if cur.len() > 0 {
                done.push(cur);
                cur = Vec::new();
                assert(char_seqs(done@) =~= before + seq![run]);
                assert(words_from(rest, run) == seq![run] + words_from(rest.skip(1), cur@));
                assert(char_seqs(done@) + words_from(rest.skip(1), cur@) =~= before + words_from(
                    rest,
                    run,
                ));
            } else {
                assert(cur@ =~= Seq::<char>::empty());
                assert(words_from(rest, run) == words_from(rest.skip(1), cur@));
            }
        } else {
            cur.push(c);
            assert(words_from(rest, run) == words_from(rest.skip(1), cur@));
        }
        i += 1;
    }
    if cur.len() > 0 {
        let ghost before = char_seqs(done@);
        let ghost word = cur@;
        done.push(cur);
        assert(char_seqs(done@) =~= before + seq![word]);
    }
    assert(char_seqs(done@) =~= words(v@));
    done
}

/// `parts` one after the other, with `sep` between each two neighbours.
pub fn join_chars(parts: &Vec<Vec<char>>, sep: char) -> (out: Vec<char>)
    ensures
        out@ == join(char_seqs(parts@), sep),
{
    let mut out: Vec<char> = Vec::new();
    if parts.len() == 0 {
        return out;
    }
    append_chars(&mut out, &parts[0]);
    let ghost all = char_seqs(parts@);
    let mut i: usize = 1;
    assert(all.skip(0) =~= all);
    assert(out@ + join_rest(all, sep, 1) =~= join(all, sep));
    while i < parts.len()
        invariant
            1 <= i <= parts.len(),
            all == char_seqs(parts@),
            out@ + join_rest(all, sep, i as int) == join(all, sep),
        decreases parts.len() - i,
    {
        let ghost before = out@;
        assert(all.skip(i as int).skip(1) =~= all.skip(i + 1));
        assert(all.skip(i as int)[0] == parts@[i as int]@);
        out.push(sep);
        append_chars(&mut out, &parts[i]);
        i += 1;
        assert(out@ + join_rest(all, sep, i as int) =~= before + join_rest(all, sep, i - 1));
    }
    assert(out@ + Seq::<char>::empty() =~= out@);
    out
}

} // verus!
