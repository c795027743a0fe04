//! The table of book-name abbreviations.
//!
//! Aliases and names are held in upper case, so that a lookup does not depend on
//! the case of its key. An alias that is entered twice keeps the later name.

use vstd::prelude::*;
use crate::text::{from_chars, lemma_case_folds, lower, to_chars, to_upper, upper};
use crate::word_laws::lemma_join_first;
use crate::words::{char_seqs, join};

verus! {

/// The fields of `cur + s`, where `cur` is the part of a field read so far:
/// each `sep` in `s` ends a field, and the end of `s` ends the last one.
pub open spec fn fields_from(s: Seq<char>, sep: char, cur: Seq<char>) -> Seq<Seq<char>>
    decreases s.len(),
{
    if s.len() == 0 {
        seq![cur]
    } else if s[0] == sep {
        seq![cur] + fields_from(s.skip(1), sep, Seq::empty())
    } else {
        fields_from(s.skip(1), sep, cur.push(s[0]))
    }
}

/// The fields of `s`: what stands before, between and after its occurrences of `sep`.
pub open spec fn fields(s: Seq<char>, sep: char) -> Seq<Seq<char>> {
    fields_from(s, sep, Seq::empty())
}

proof fn lemma_fields_from(s: Seq<char>, sep: char, cur: Seq<char>)
    requires
        forall|i: int| 0 <= i < cur.len() ==> #[trigger] cur[i] != sep,
    ensures
        fields_from(s, sep, cur).len() > 0,
        join(fields_from(s, sep, cur), sep) == cur + s,
        forall|k: int, i: int|
            0 <= k < fields_from(s, sep, cur).len() && 0 <= i < fields_from(s, sep, cur)[k].len()
                ==> #[trigger] fields_from(s, sep, cur)[k][i] != sep,
    decreases s.len(),
{
    let f = fields_from(s, sep, cur);
    if s.len() == 0 {
        assert(cur + s =~= cur);
    } else if s[0] == sep {
        let rest = fields_from(s.skip(1), sep, Seq::empty());
        lemma_fields_from(s.skip(1), sep, Seq::empty());
        lemma_join_first(cur, rest, sep);
        assert(cur + seq![sep] + (Seq::<char>::empty() + s.skip(1)) =~= cur + s);
        assert forall|k: int, i: int|
            0 <= k < f.len() && 0 <= i < f[k].len() implies #[trigger] f[k][i] != sep by {
            if k > 0 {
                assert(f[k] == rest[k - 1]);
            }
        }
    } else {
        lemma_fields_from(s.skip(1), sep, cur.push(s[0]));
        assert(cur.push(s[0]) + s.skip(1) =~= cur + s);
    }
}

/// The fields of a text hold no separator, and joined by the separator they give
/// the text again.
pub proof fn lemma_fields(s: Seq<char>, sep: char)
    ensures
        fields(s, sep).len() > 0,
        join(fields(s, sep), sep) == s,
        forall|k: int, i: int|
            0 <= k < fields(s, sep).len() && 0 <= i < fields(s, sep)[k].len()
                ==> #[trigger] fields(s, sep)[k][i] != sep,
{
    lemma_fields_from(s, sep, Seq::empty());
    assert(Seq::<char>::empty() + s =~= s);
}

/// The alias and the name that a record of the table gives: its first two fields
/// between commas. A record without a comma gives none.
pub open spec fn record(line: Seq<char>) -> Option<(Seq<char>, Seq<char>)> {
    let f = fields(line, ',');
    if f.len() >= 2 {
        Some((f[0], f[1]))
    } else {
        None
    }
}

/// The pairs that `lines` give, in order; a line that gives none is passed over.
pub open spec fn records(lines: Seq<Seq<char>>) -> Seq<(Seq<char>, Seq<char>)>
    decreases lines.len(),
{
    if lines.len() == 0 {
        Seq::empty()
    } else {
        match record(lines.last()) {
            Some(pair) => records(lines.drop_last()).push(pair),
            None => records(lines.drop_last()),
        }
    }
}

/// The table that `pairs` make when they are entered in order, each in upper case.
pub open spec fn table_of(pairs: Seq<(Seq<char>, Seq<char>)>) -> Map<Seq<char>, Seq<char>>
    decreases pairs.len(),
{
    if pairs.len() == 0 {
        Map::empty()
    } else {
        table_of(pairs.drop_last()).insert(upper(pairs.last().0), upper(pairs.last().1))
    }
}

/// The name that `table` holds for `key`, whatever the case of `key`.
pub open spec fn found_name(table: Map<Seq<char>, Seq<char>>, key: Seq<char>) -> Option<Seq<char>> {
    if table.contains_key(upper(key)) {
        Some(table[upper(key)])
    } else {
        None
    }
}

/// Keys that differ in the case of their letters only are given the same name.
pub proof fn lemma_lookup_ignores_case(table: Map<Seq<char>, Seq<char>>, a: Seq<char>, b: Seq<char>)
    requires
        upper(a) == upper(b),
    ensures
        found_name(table, a) == found_name(table, b),
{
}

/// Once an alias is entered for a name, every key that differs from the alias in
/// the case of its letters only is given that name, in upper case.
pub proof fn lemma_entered_is_found(
    table: Map<Seq<char>, Seq<char>>,
    alias: Seq<char>,
    name: Seq<char>,
    key: Seq<char>,
)
    requires
        upper(key) == upper(alias),
    ensures
        found_name(table.insert(upper(alias), upper(name)), key) == Some(upper(name)),
        found_name(table.insert(upper(alias), upper(name)), upper(key)) == Some(upper(name)),
        found_name(table.insert(upper(alias), upper(name)), lower(key)) == Some(upper(name)),
{
    lemma_case_folds(key);
}

/// A key that differs from no alias of `pairs` in the case of its letters only
/// is given no name.
pub proof fn lemma_absent_is_not_found(pairs: Seq<(Seq<char>, Seq<char>)>, key: Seq<char>)
    requires
        forall|j: int| 0 <= j < pairs.len() ==> upper(#[trigger] pairs[j].0) != upper(key),
    ensures
        found_name(table_of(pairs), key) is None,
    decreases pairs.len(),
{
    if pairs.len() > 0 {
        let before = pairs.drop_last();
        assert forall|j: int| 0 <= j < before.len() implies upper(#[trigger] before[j].0) != upper(
            key,
        ) by {
            assert(before[j] == pairs[j]);
        }
        lemma_absent_is_not_found(before, key);
        assert(upper(pairs[pairs.len() - 1].0) != upper(key));
    }
}

/// A key is given the name of the last of `pairs` whose alias differs from it in
/// the case of its letters only, in upper case: a later entry replaces an earlier.
pub proof fn lemma_last_entry_is_found(pairs: Seq<(Seq<char>, Seq<char>)>, at: int, key: Seq<char>)
    requires
        0 <= at < pairs.len(),
        upper(pairs[at].0) == upper(key),
        forall|j: int| at < j < pairs.len() ==> upper(#[trigger] pairs[j].0) != upper(key),
    ensures
        found_name(table_of(pairs), key) == Some(upper(pairs[at].1)),
    decreases pairs.len(),
{
    if at < pairs.len() - 1 {
        let before = pairs.drop_last();
        assert forall|j: int| at < j < before.len() implies upper(#[trigger] before[j].0) != upper(
            key,
        ) by {
            assert(before[j] == pairs[j]);
        }
        lemma_last_entry_is_found(before, at, key);
        assert(upper(pairs[pairs.len() - 1].0) != upper(key));
    }
}

/// The map that the entries stand for: each alias with its name.
spec fn entry_map(entries: Seq<(String, String)>) -> Map<Seq<char>, Seq<char>>
    decreases entries.len(),
{
    if entries.len() == 0 {
        Map::empty()
    } else {
        entry_map(entries.drop_last()).insert(entries.last().0@, entries.last().1@)
    }
}

/// No alias stands in two entries.
spec fn distinct_aliases(entries: Seq<(String, String)>) -> bool {
    forall|i: int, j: int| 0 <= i < j < entries.len() ==> entries[i].0@ != entries[j].0@
}

proof fn lemma_entry_absent(entries: Seq<(String, String)>, key: Seq<char>)
    requires
        forall|i: int| 0 <= i < entries.len() ==> entries[i].0@ != key,
    ensures
        !entry_map(entries).contains_key(key),
    decreases entries.len(),
{
    if entries.len() > 0 {
        lemma_entry_absent(entries.drop_last(), key);
    }
}

proof fn lemma_entry_present(entries: Seq<(String, String)>, at: int)
    requires
        distinct_aliases(entries),
        0 <= at < entries.len(),
    ensures
        entry_map(entries).contains_key(entries[at].0@),
        entry_map(entries)[entries[at].0@] == entries[at].1@,
    decreases entries.len(),
{
    if at < entries.len() - 1 {
        lemma_entry_present(entries.drop_last(), at);
    }
}

proof fn lemma_entry_replaced(entries: Seq<(String, String)>, at: int, entry: (String, String))
    requires
        distinct_aliases(entries),
        0 <= at < entries.len(),
        entries[at].0@ == entry.0@,
    ensures
        distinct_aliases(entries.update(at, entry)),
        entry_map(entries.update(at, entry)) == entry_map(entries).insert(entry.0@, entry.1@),
    decreases entries.len(),
{
    let after = entries.update(at, entry);
    if at == entries.len() - 1 {
        assert(after.drop_last() =~= entries.drop_last());
        assert(entry_map(after) =~= entry_map(entries).insert(entry.0@, entry.1@));
    } else {
        lemma_entry_replaced(entries.drop_last(), at, entry);
        assert(after.drop_last() =~= entries.drop_last().update(at, entry));
        assert(after.last() == entries.last());
        assert(entry_map(after) =~= entry_map(entries).insert(entry.0@, entry.1@));
    }
}

/// Splits `v` at each `sep`.
pub fn split_fields(v: &Vec<char>, sep: char) -> (done: Vec<Vec<char>>)
    ensures
        char_seqs(done@) == fields(v@, sep),
{
    let mut done: Vec<Vec<char>> = Vec::new();
    let mut cur: Vec<char> = Vec::new();
    let mut i: usize = 0;
    assert(v@.skip(0) =~= v@);
    assert(char_seqs(done@) + fields_from(v@, sep, cur@) =~= fields(v@, sep));
    while i < v.len()
        invariant
            i <= v.len(),
            char_seqs(done@) + fields_from(v@.skip(i as int), sep, cur@) == fields(v@, sep),
        decreases v.len() - i,
    {
        let c = v[i];
        let ghost rest = v@.skip(i as int);
        let ghost before = char_seqs(done@);
        let ghost run = cur@;
        assert(rest.skip(1) =~= v@.skip(i + 1));
        assert(rest[0] == c);
        if c == sep {
            done.push(cur);
            cur = Vec::new();
            assert(char_seqs(done@) =~= before + seq![run]);
            assert(fields_from(rest, sep, run) == seq![run] + fields_from(rest.skip(1), sep, cur@));
            assert(char_seqs(done@) + fields_from(rest.skip(1), sep, cur@) =~= before
                + fields_from(rest, sep, run));
        } else {
            cur.push(c);
            assert(fields_from(rest, sep, run) == fields_from(rest.skip(1), sep, cur@));
        }
        i += 1;
    }
    let ghost before = char_seqs(done@);
    let ghost run = cur@;
    done.push(cur);
    assert(char_seqs(done@) =~= before + seq![run]);
    done
}

/// Reads one record of the table: the alias and the name, as they are written.
pub fn parse_record(line: &str) -> (pair: Option<(String, String)>)
    ensures
        pair.deep_view() == record(line@),
{
    let f = split_fields(&to_chars(line), ',');
    if f.len() >= 2 {
        Some((from_chars(&f[0]), from_chars(&f[1])))
    } else {
        None
    }
}

/// A table from aliases to book names.
pub struct AbbreviationTable {
    entries: Vec<(String, String)>,
}

impl View for AbbreviationTable {
    type V = Map<Seq<char>, Seq<char>>;

    closed spec fn view(&self) -> Map<Seq<char>, Seq<char>> {
        entry_map(self.entries@)
    }
}

impl AbbreviationTable {
    #[verifier::type_invariant]
    spec fn aliases_are_distinct(self) -> bool {
        distinct_aliases(self.entries@)
    }

    /// The table without any entry.
    pub fn new() -> (table: AbbreviationTable)
        ensures
            table@ == Map::<Seq<char>, Seq<char>>::empty(),
    {
        AbbreviationTable { entries: Vec::new() }
    }

    /// The index of the entry for `key`, which is in upper case already.
    fn position(&self, key: &String) -> (at: Option<usize>)
        ensures
            match at {
                Some(i) => i < self.entries@.len() && self.entries@[i as int].0@ == key@,
                None => forall|i: int| 0 <= i < self.entries@.len() ==> self.entries@[i].0@ != key@,
            },
    {
        let mut i: usize = 0;
        while i < self.entries.len()
            invariant
                i <= self.entries@.len(),
                forall|k: int| 0 <= k < i ==> self.entries@[k].0@ != key@,
            decreases self.entries@.len() - i,
        {
            if self.entries[i].0 == *key {
                return Some(i);
            }
            i += 1;
        }
        None
    }

    /// Enters `alias` for `name`, both in upper case. An earlier entry for the same
    /// alias is replaced.
    pub fn insert(&mut self, alias: &str, name: &str)
        ensures
            final(self)@ == old(self)@.insert(upper(alias@), upper(name@)),
    {
        proof {
            use_type_invariant(&*self);
        }
        let key = from_chars(&to_upper(&to_chars(alias)));
        let value = from_chars(&to_upper(&to_chars(name)));
        let found = self.position(&key);
        let mut entries: Vec<(String, String)> = Vec::new();
        std::mem::swap(&mut self.entries, &mut entries);
        match found {
            Some(at) => {
                proof {
                    lemma_entry_replaced(entries@, at as int, (key, value));
                }
                entries.set(at, (key, value));
            },
            None => {
                assert(entries@.push((key, value)).drop_last() =~= entries@);
                entries.push((key, value));
            },
        }
        self.entries = entries;
    }

    /// The name entered for `key`, whatever the case of `key`.
    pub fn lookup(&self, key: &str) -> (name: Option<String>)
        ensures
            name.deep_view() == found_name(self@, key@),
    {
        proof {
            use_type_invariant(self);
        }
        let folded = from_chars(&to_upper(&to_chars(key)));
        match self.position(&folded) {
            Some(at) => {
                proof {
                    lemma_entry_present(self.entries@, at as int);
                }
                Some(self.entries[at].1.clone())
            },
            None => {
                proof {
                    lemma_entry_absent(self.entries@, folded@);
                }
                None
            },
        }
    }

    /// The table that holds `pairs`, entered in order.
    pub fn load(pairs: &Vec<(String, String)>) -> (table: AbbreviationTable)
        ensures
            table@ == table_of(pairs.deep_view()),
    {
        let mut table = AbbreviationTable::new();
        let mut i: usize = 0;
        assert(pairs.deep_view().take(0) =~= Seq::empty());
        while i < pairs.len()
            invariant
                i <= pairs.len(),
                table@ == table_of(pairs.deep_view().take(i as int)),
            decreases pairs.len() - i,
        {
            assert(pairs.deep_view().take(i + 1).drop_last() =~= pairs.deep_view().take(i as int));
            table.insert(pairs[i].0.as_str(), pairs[i].1.as_str());
            i += 1;
        }
        assert(pairs.deep_view().take(i as int) =~= pairs.deep_view());
        table
    }

    /// The table that the records in `lines` make, entered in order. A line
    /// without a comma holds no record and is passed over.
    pub fn load_records(lines: &Vec<String>) -> (table: AbbreviationTable)
        ensures
            table@ == table_of(records(lines.deep_view())),
    {
        let mut table = AbbreviationTable::new();
        let mut i: usize = 0;
        assert(lines.deep_view().take(0) =~= Seq::empty());
        while i < lines.len()
            invariant
                i <= lines.len(),
                table@ == table_of(records(lines.deep_view().take(i as int))),
            decreases lines.len() - i,
        {
            assert(lines.deep_view().take(i + 1).drop_last() =~= lines.deep_view().take(i as int));
            match parse_record(lines[i].as_str()) {
                Some(pair) => {
                    let ghost before = records(lines.deep_view().take(i as int));
                    assert(before.push((pair.0@, pair.1@)).drop_last() =~= before);
                    table.insert(pair.0.as_str(), pair.1.as_str());
                },
                None => {},
            }
            i += 1;
        }
        assert(lines.deep_view().take(i as int) =~= lines.deep_view());
        table
    }
}

} // verus!
