//! The text formats: stripping spaces, line breaks, and splitting a text
//! at a separator.

use crate::lines::lines_of;
use crate::scan::{find_from, first_occurrence, lemma_first_occurrence};
use crate::text::{lemma_take_all, lemma_take_next};
use vstd::prelude::*;

verus! {

/// `s` without its space characters.
pub open spec fn without_spaces(s: Seq<char>) -> Seq<char> {
    s.filter(|c: char| c != ' ')
}

/// `s` with every carriage return that a line feed follows taken out, so
/// that each line break is a single line feed.
pub open spec fn normalized(s: Seq<char>) -> Seq<char>
    decreases s.len(),
{
    if s.len() == 0 {
        s
    } else if s.last() == '\n' && s.len() >= 2 && s[s.len() - 2] == '\r' {
        normalized(s.take(s.len() - 2)).push('\n')
    } else {
        normalized(s.drop_last()).push(s.last())
    }
}

/// The pieces of `s` between the occurrences of `sep`, found from left to
/// right without overlap. A text without the separator is one piece.
pub open spec fn split(s: Seq<char>, sep: Seq<char>) -> Seq<Seq<char>>
    decreases s.len(),
{
    if sep.len() == 0 {
        seq![s]
    } else {
        match first_occurrence(sep, s) {
            Some(at) => if 0 <= at && at + sep.len() <= s.len() {
                seq![s.take(at)] + split(s.skip(at + sep.len()), sep)
            } else {
                seq![s]
            },
            None => seq![s],
        }
    }
}

/// A single line feed.
pub open spec fn line_feed() -> Seq<char> {
    seq!['\n']
}

/// The rows that a grid text spells: spaces do not count, and the rows are
/// separated by line breaks, each a line feed or a carriage return and a
/// line feed.
pub open spec fn rows_of_text(s: Seq<char>) -> Seq<Seq<char>> {
    split(normalized(without_spaces(s)), line_feed())
}

/// The length of the line break that starts at index `i` of `s`: one for a
/// line feed, two for a carriage return with a line feed after it, and zero
/// where no line break starts.
pub open spec fn break_len(s: Seq<char>, i: int) -> int {
    if 0 <= i < s.len() && s[i] == '\n' {
        1
    } else if 0 <= i && i + 1 < s.len() && s[i] == '\r' && s[i + 1] == '\n' {
        2
    } else {
        0
    }
}

/// The length of the run of three line breaks that starts at index `i` of
/// `s`, or zero where none starts.
pub open spec fn gap_len(s: Seq<char>, i: int) -> int {
    let first = break_len(s, i);
    let second = break_len(s, i + first);
    let third = break_len(s, i + first + second);
    if first > 0 && second > 0 && third > 0 {
        first + second + third
    } else {
        0
    }
}

/// `at` is the leftmost index of `s` at which three line breaks start.
pub open spec fn is_first_gap(s: Seq<char>, at: int) -> bool {
    &&& 0 <= at
    &&& gap_len(s, at) > 0
    &&& forall|j: int| 0 <= j < at ==> gap_len(s, j) == 0
}

/// The leftmost index of `s` at which three line breaks start, if there is
/// one.
pub open spec fn first_gap(s: Seq<char>) -> Option<int> {
    if exists|at: int| is_first_gap(s, at) {
        Some(choose|at: int| is_first_gap(s, at))
    } else {
        None
    }
}

/// The sections of `s`: what stands before, between and after the runs of
/// three line breaks, found from left to right without overlap. The line
/// breaks themselves belong to no section.
pub open spec fn sections_of(s: Seq<char>) -> Seq<Seq<char>>
    decreases s.len(),
{
    match first_gap(s) {
        Some(at) => if 0 <= at && 0 < gap_len(s, at) && at + gap_len(s, at) <= s.len() {
            seq![s.take(at)] + sections_of(s.skip(at + gap_len(s, at)))
        } else {
            seq![s]
        },
        None => seq![s],
    }
}

/// A leftmost run of three line breaks is the one `first_gap` names.
pub proof fn lemma_first_gap_is(s: Seq<char>, at: int)
    requires
        is_first_gap(s, at),
    ensures
        first_gap(s) == Some(at),
{
    let c = choose|i: int| is_first_gap(s, i);
    assert(is_first_gap(s, c));
    if c < at {
        assert(gap_len(s, c) == 0);
    } else if at < c {
        assert(gap_len(s, at) == 0);
    }
}

proof fn lemma_leftmost_gap_below(s: Seq<char>, bound: int) -> (at: int)
    requires
        exists|i: int| 0 <= i < bound && gap_len(s, i) > 0,
    ensures
        0 <= at < bound,
        is_first_gap(s, at),
    decreases bound,
{
    let i = choose|i: int| 0 <= i < bound && gap_len(s, i) > 0;
    if exists|j: int| 0 <= j < i && gap_len(s, j) > 0 {
        lemma_leftmost_gap_below(s, i)
    } else {
        i
    }
}

/// `first_gap` is `None` exactly when three line breaks start nowhere in
/// the text, and otherwise names the leftmost place where they do.
pub proof fn lemma_first_gap(s: Seq<char>)
    ensures
        match first_gap(s) {
            Some(at) => is_first_gap(s, at) && at + gap_len(s, at) <= s.len(),
            None => forall|i: int| 0 <= i ==> gap_len(s, i) == 0,
        },
{
    if exists|i: int| 0 <= i && gap_len(s, i) > 0 {
        let i = choose|i: int| 0 <= i && gap_len(s, i) > 0;
        assert(0 <= i < i + 1 && gap_len(s, i) > 0);
        let at = lemma_leftmost_gap_below(s, i + 1);
        lemma_first_gap_is(s, at);
    }
}

/// Line breaks in the part of a text from `from` onwards are those of the
/// text, `from` places further on.
pub proof fn lemma_gap_in_rest(s: Seq<char>, from: int, i: int)
    requires
        0 <= from <= s.len(),
        0 <= i,
    ensures
        break_len(s.skip(from), i) == break_len(s, from + i),
        gap_len(s.skip(from), i) == gap_len(s, from + i),
{
    let rest = s.skip(from);
    let first = break_len(s, from + i);
    assert(break_len(rest, i) == first);
    let second = break_len(s, from + i + first);
    assert(break_len(rest, i + first) == second);
    assert(break_len(rest, i + first + second) == break_len(s, from + i + first + second));
}

/// The characters of `text` that are not spaces.
pub fn strip_spaces(text: &Vec<char>) -> (out: Vec<char>)
    ensures
        out@ == without_spaces(text@),
{
    let mut out: Vec<char> = Vec::new();
    let mut i: usize = 0;
    proof {
        reveal(Seq::filter);
    }
    while i < text.len()
        invariant
            i <= text.len(),
            out@ == without_spaces(text@.take(i as int)),
        decreases text.len() - i,
    {
        proof {
            reveal(Seq::filter);
            lemma_take_next(text@, i as int);
        }
        let c = text[i];
        if c != ' ' {
            out.push(c);
        }
        i += 1;
    }
    proof {
        lemma_take_all(text@);
    }
    out
}

/// `text` with each carriage return and line feed replaced by a line feed.
pub fn normalize(text: &Vec<char>) -> (out: Vec<char>)
    ensures
        out@ == normalized(text@),
{
    let mut out: Vec<char> = Vec::new();
    let mut i: usize = 0;
    while i < text.len()
        invariant
            i <= text.len(),
            out@ == normalized(text@.take(i as int)),
        decreases text.len() - i,
    {
        let c = text[i];
        proof {
            lemma_take_next(text@, i as int);
            let next = text@.take(i + 1);
            if i > 0 {
                lemma_take_next(text@, i - 1);
                assert(next[next.len() - 2] == text[i - 1]);
                assert(next.take(next.len() - 2) =~= text@.take(i - 1));
            }
        }
        if c == '\n' && i > 0 && text[i - 1] == '\r' {
            out.pop();
            assert(out@ =~= normalized(text@.take(i - 1)));
        }
        out.push(c);
        i += 1;
    }
    proof {
        lemma_take_all(text@);
    }
    out
}

/// The characters of `text` from index `from` up to index `to`.
pub fn slice_of(text: &Vec<char>, from: usize, to: usize) -> (out: Vec<char>)
    requires
        from <= to <= text.len(),
    ensures
        out@ == text@.subrange(from as int, to as int),
{
    let mut out: Vec<char> = Vec::new();
    let mut i: usize = from;
    while i < to
        invariant
            from <= i <= to,
            to <= text.len(),
            out@ == text@.subrange(from as int, i as int),
        decreases to - i,
    {
        out.push(text[i]);
        assert(out@ =~= text@.subrange(from as int, i + 1));
        i += 1;
    }
    out
}

/// Splits `text` at the occurrences of `sep`.
pub fn split_on(text: &Vec<char>, sep: &Vec<char>) -> (pieces: Vec<Vec<char>>)
    requires
        sep.len() > 0,
    ensures
        lines_of(pieces@) == split(text@, sep@),
        pieces.len() >= 1,
{
    let mut pieces: Vec<Vec<char>> = Vec::new();
    let mut start: usize = 0;
    assert(text@.skip(0) =~= text@);
    assert(lines_of(pieces@) + split(text@.skip(0), sep@) =~= split(text@, sep@));
    loop
        invariant
            sep.len() > 0,
            start <= text.len(),
            lines_of(pieces@) + split(text@.skip(start as int), sep@) == split(text@, sep@),
        decreases text.len() - start,
    {
        let ghost rest = text@.skip(start as int);
        let ghost before = lines_of(pieces@);
        proof {
            lemma_first_occurrence(sep@, rest);
        }
        match find_from(sep, text, start) {
            Some(at) => {
                let piece = slice_of(text, start, at);
                pieces.push(piece);
                proof {
                    assert(rest.take(at - start) =~= text@.subrange(start as int, at as int));
                    assert(rest.skip(at - start + sep.len()) =~= text@.skip(at + sep.len()));
                    assert(lines_of(pieces@) =~= before + seq![rest.take(at - start)]);
                    assert(before + (seq![rest.take(at - start)] + split(
                        text@.skip(at + sep.len()),
                        sep@,
                    )) =~= lines_of(pieces@) + split(text@.skip(at + sep.len()), sep@));
                }
                start = at + sep.len();
            },
            None => {
                let piece = slice_of(text, start, text.len());
                pieces.push(piece);
                proof {
                    assert(rest =~= text@.subrange(start as int, text.len() as int));
                    assert(lines_of(pieces@) =~= before + seq![rest]);
                }
                return pieces;
            },
        }
    }
}

/// The length of the line break that starts at index `i` of `text`.
fn break_at(text: &Vec<char>, i: usize) -> (len: usize)
    ensures
        len == break_len(text@, i as int),
        i + len <= text.len() || len == 0,
{
    if i >= text.len() {
        0
    } else if text[i] == '\n' {
        1
    } else if text[i] == '\r' && text.len() - i > 1 && text[i + 1] == '\n' {
        2
    } else {
        0
    }
}

/// The length of the run of three line breaks that starts at index `i` of
/// `text`.
fn gap_at(text: &Vec<char>, i: usize) -> (len: usize)
    ensures
        len == gap_len(text@, i as int),
        i + len <= text.len() || len == 0,
{
    let first = break_at(text, i);
    if first == 0 {
        return 0;
    }
    let second = break_at(text, i + first);
    if second == 0 {
        return 0;
    }
    let third = break_at(text, i + first + second);
    if third == 0 {
        return 0;
    }
    first + second + third
}

/// Cuts `text` into its sections.
pub fn split_sections(text: &Vec<char>) -> (pieces: Vec<Vec<char>>)
    ensures
        lines_of(pieces@) == sections_of(text@),
        pieces.len() >= 1,
{
    let mut pieces: Vec<Vec<char>> = Vec::new();
    let mut start: usize = 0;
    let mut at: usize = 0;
    assert(text@.skip(0) =~= text@);
    assert(lines_of(pieces@) + sections_of(text@.skip(0)) =~= sections_of(text@));
    loop
        invariant
            start <= at <= text.len(),
            lines_of(pieces@) + sections_of(text@.skip(start as int)) == sections_of(text@),
            forall|j: int| 0 <= j < at - start ==> gap_len(text@.skip(start as int), j) == 0,
        decreases text.len() - at,
    {
        let ghost rest = text@.skip(start as int);
        let ghost before = lines_of(pieces@);
        proof {
            lemma_first_gap(rest);
            lemma_gap_in_rest(text@, start as int, at - start);
        }
        let gap = gap_at(text, at);
        if gap > 0 {
            let piece = slice_of(text, start, at);
            pieces.push(piece);
            proof {
                lemma_first_gap_is(rest, at - start);
                assert(rest.take(at - start) =~= text@.subrange(start as int, at as int));
                assert(rest.skip(at - start + gap) =~= text@.skip(at + gap));
                assert(lines_of(pieces@) =~= before + seq![rest.take(at - start)]);
                assert(before + (seq![rest.take(at - start)] + sections_of(text@.skip(at + gap)))
                    =~= lines_of(pieces@) + sections_of(text@.skip(at + gap)));
            }
            start = at + gap;
            at = start;
        } else if at == text.len() {
            let piece = slice_of(text, start, text.len());
            pieces.push(piece);
            proof {
                assert forall|j: int| 0 <= j implies gap_len(rest, j) == 0 by {
                    if j >= at - start {
                        assert(break_len(rest, j) == 0);
                    }
                }
                assert(first_gap(rest) is None);
                assert(rest =~= text@.subrange(start as int, text.len() as int));
                assert(lines_of(pieces@) =~= before + seq![rest]);
            }
            return pieces;
        } else {
            at += 1;
        }
    }
}

/// The rows that the grid text `text` spells.
pub fn grid_rows(text: &Vec<char>) -> (rows: Vec<Vec<char>>)
    ensures
        lines_of(rows@) == rows_of_text(text@),
{
    let stripped = strip_spaces(text);
    let normal = normalize(&stripped);
    let mut feed: Vec<char> = Vec::new();
    feed.push('\n');
    assert(feed@ =~= line_feed());
    split_on(&normal, &feed)
}

} // verus!
