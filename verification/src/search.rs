//! Logical lines of a text, and the search for a literal term in them.

use vstd::prelude::*;
use crate::text::{chars_of, find_from, first_index_of, lemma_first_index_of, NEWLINE};

verus! {

/// `needle` stands in `hay` at position `i`.
pub open spec fn occurs_at(needle: Seq<char>, hay: Seq<char>, i: int) -> bool {
    0 <= i && i + needle.len() <= hay.len() && hay.subrange(i, i + needle.len()) == needle
}

/// `needle` stands somewhere in `hay`, character for character.
pub open spec fn is_substring(needle: Seq<char>, hay: Seq<char>) -> bool {
    exists|i: int| occurs_at(needle, hay, i)
}

/// A terminated line without the carriage return that may precede its line
/// terminator.
pub open spec fn strip_cr(line: Seq<char>) -> Seq<char> {
    if line.len() > 0 && line.last() == '\r' {
        line.drop_last()
    } else {
        line
    }
}

/// The logical lines of a text. A line ends at a line terminator, which is
/// not part of it, nor is a carriage return directly before the terminator.
/// What follows the last terminator is a line too, unless it is empty.
pub open spec fn lines_of(s: Seq<char>) -> Seq<Seq<char>>
    decreases s.len(),
{
    let i = first_index_of(s, NEWLINE);
    if s.len() == 0 {
        Seq::empty()
    } else if 0 <= i < s.len() {
        seq![strip_cr(s.take(i))] + lines_of(s.skip(i + 1))
    } else {
        seq![s]
    }
}

/// The lines of `text` that hold `term`, in the order of the text.
pub open spec fn matching_lines(text: Seq<char>, term: Seq<char>) -> Seq<Seq<char>> {
    lines_of(text).filter(|line: Seq<char>| is_substring(term, line))
}

/// The lines that match in a text that starts with a terminated line are
/// that line, if it matches, and those that match in the rest.
proof fn lemma_matching_lines_step(s: Seq<char>, term: Seq<char>)
    requires
        s.len() > 0,
    ensures
        ({
            let i = first_index_of(s, NEWLINE);
            let line = if i < s.len() { strip_cr(s.take(i)) } else { s };
            let rest = if i < s.len() { s.skip(i + 1) } else { Seq::<char>::empty() };
            matching_lines(s, term) == (if is_substring(term, line) {
                seq![line]
            } else {
                Seq::<Seq<char>>::empty()
            }) + matching_lines(rest, term)
        }),
{
    lemma_first_index_of(s, NEWLINE);
    let i = first_index_of(s, NEWLINE);
    let line = if i < s.len() { strip_cr(s.take(i)) } else { s };
    let rest = if i < s.len() { s.skip(i + 1) } else { Seq::<char>::empty() };
    let pred = |line: Seq<char>| is_substring(term, line);
    assert(lines_of(s) =~= seq![line] + lines_of(rest));
    Seq::filter_distributes_over_add(seq![line], lines_of(rest), pred);
    reveal_with_fuel(Seq::filter, 2);
    assert(seq![line].drop_last() =~= Seq::<Seq<char>>::empty());
    assert(seq![line].filter(pred) =~= (if is_substring(term, line) {
        seq![line]
    } else {
        Seq::<Seq<char>>::empty()
    }));
}

/// Whether `needle` stands in `hay` at `pos`.
fn matches_at(hay: &Vec<char>, pos: usize, needle: &Vec<char>) -> (same: bool)
    requires
        pos + needle@.len() <= hay@.len(),
    ensures
        same == (hay@.subrange(pos as int, pos + needle@.len()) == needle@),
{
    let m = needle.len();
    let mut j: usize = 0;
    while j < m
        invariant
            m == needle@.len(),
            j <= m,
            pos + m <= hay.len(),
            forall|k: int| 0 <= k < j ==> hay@[pos + k] == needle@[k],
        decreases m - j,
    {
        if hay[pos + j] != needle[j] {
            assert(hay@.subrange(pos as int, pos + m)[j as int] != needle@[j as int]);
            return false;
        }
        j = j + 1;
    }
    assert(hay@.subrange(pos as int, pos + m) =~= needle@);
    true
}

/// Whether `needle` stands somewhere in the part of `hay` from `from` up to
/// `to`.
pub fn occurs_in(hay: &Vec<char>, from: usize, to: usize, needle: &Vec<char>) -> (found: bool)
    requires
        from <= to <= hay@.len(),
    ensures
        found == is_substring(needle@, hay@.subrange(from as int, to as int)),
{
    let ghost part = hay@.subrange(from as int, to as int);
    let n = to - from;
    let m = needle.len();
    if m > n {
        return false;
    }
    let last = n - m;
    let mut i: usize = 0;
    loop
        invariant
            m == needle@.len(),
            last == to - from - m,
            from <= to <= hay.len(),
            part == hay@.subrange(from as int, to as int),
            i <= last,
            forall|k: int| 0 <= k < i ==> !occurs_at(needle@, part, k),
        decreases last - i,
    {
        proof {
            assert(part.subrange(i as int, i + m) =~= hay@.subrange(from + i, from + i + m));
        }
        if matches_at(hay, from + i, needle) {
            assert(occurs_at(needle@, part, i as int));
            return true;
        }
        if i == last {
            return false;
        }
        i = i + 1;
    }
}

/// The part of `v` from `from` up to `to`, as a string.
pub fn string_of(v: &Vec<char>, from: usize, to: usize) -> (s: String)
    requires
        from <= to <= v@.len(),
    ensures
        s@ == v@.subrange(from as int, to as int),
{
    let mut s = String::new();
    let mut i: usize = from;
    while i < to
        invariant
            from <= i <= to <= v@.len(),
            s@ == v@.subrange(from as int, i as int),
        decreases to - i,
    {
        s.push(v[i]);
        assert(s@ =~= v@.subrange(from as int, i + 1));
        i = i + 1;
    }
    s
}

/// The lines of the text `chars` that hold `needle` as a literal substring,
/// in the order of the text. The search tells upper case from lower case.
pub fn find_lines_in(chars: &Vec<char>, needle: &Vec<char>) -> (out: Vec<String>)
    ensures
        out.deep_view() == matching_lines(chars@, needle@),
{
    let ghost text = chars@;
    let ghost term = needle@;
    let n = chars.len();
    let mut out: Vec<String> = Vec::new();
    let mut start: usize = 0;
    proof {
        assert(text.skip(0) =~= text);
        assert(out.deep_view() =~= Seq::<Seq<char>>::empty());
    }
    while start < n
        invariant
            n == chars@.len(),
            chars@ == text,
            needle@ == term,
            start <= n,
            matching_lines(text, term) == out.deep_view() + matching_lines(
                text.skip(start as int),
                term,
            ),
        decreases n - start,
    {
        let ghost rest = text.skip(start as int);
        let ghost found = out.deep_view();
        let stop = find_from(chars, start, NEWLINE);
        let mut end = stop;
        if stop < n && end > start && chars[end - 1] == '\r' {
            end = end - 1;
        }
        proof {
            lemma_matching_lines_step(rest, term);
            lemma_first_index_of(rest, NEWLINE);
            let i = first_index_of(rest, NEWLINE);
            assert(stop == start + i);
            if i < rest.len() {
                assert(rest.take(i) =~= chars@.subrange(start as int, stop as int));
                assert(strip_cr(rest.take(i)) =~= chars@.subrange(start as int, end as int));
                assert(rest.skip(i + 1) =~= text.skip(stop + 1));
            } else {
                assert(rest =~= chars@.subrange(start as int, end as int));
                assert(Seq::<char>::empty() =~= text.skip(n as int));
            }
        }
        if occurs_in(chars, start, end, needle) {
            let line = string_of(chars, start, end);
            out.push(line);
            assert(out.deep_view() =~= found + seq![line@]);
        }
        start = if stop < n { stop + 1 } else { n };
    }
    proof {
        assert(text.skip(n as int) =~= Seq::<char>::empty());
        reveal_with_fuel(Seq::filter, 1);
        assert(lines_of(Seq::<char>::empty()) =~= Seq::<Seq<char>>::empty());
        assert(matching_lines(text.skip(n as int), term) =~= Seq::<Seq<char>>::empty());
    }
    out
}

/// The lines of `text` that hold `term` as a literal substring, in the
/// order of the text.
pub fn find_lines(text: &str, term: &str) -> (out: Vec<String>)
    ensures
        out.deep_view() == matching_lines(text@, term@),
{
    let chars = chars_of(text);
    let needle = chars_of(term);
    find_lines_in(&chars, &needle)
}

} // verus!
