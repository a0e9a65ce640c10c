//! The line scanner: finding a word in one sequence of letters, read
//! forwards or backwards.

use crate::text::{chars_of, reversed};
use vstd::prelude::*;

verus! {

/// `word` stands in `line` starting at index `at`.
pub open spec fn occurs_at(word: Seq<char>, line: Seq<char>, at: int) -> bool {
    &&& 0 <= at
    &&& at + word.len() <= line.len()
    &&& line.subrange(at, at + word.len()) == word
}

/// `word` stands somewhere in `line`.
pub open spec fn occurs(word: Seq<char>, line: Seq<char>) -> bool {
    exists|at: int| occurs_at(word, line, at)
}

/// `at` is the leftmost index at which `word` stands in `line`.
pub open spec fn is_first_occurrence(word: Seq<char>, line: Seq<char>, at: int) -> bool {
    &&& occurs_at(word, line, at)
    &&& forall|j: int| 0 <= j < at ==> !occurs_at(word, line, j)
}

/// The leftmost index at which `word` stands in `line`, if it stands there
/// at all.
pub open spec fn first_occurrence(word: Seq<char>, line: Seq<char>) -> Option<int> {
    if exists|at: int| is_first_occurrence(word, line, at) {
        Some(choose|at: int| is_first_occurrence(word, line, at))
    } else {
        None
    }
}

/// What the scanner reports for `word` in `line`: the leftmost forward
/// occurrence with `true`; failing that, the leftmost occurrence in the
/// reversed line, given as the index in `line` of the word's first letter,
/// with `false`.
pub open spec fn scan(word: Seq<char>, line: Seq<char>) -> Option<(int, bool)> {
    match first_occurrence(word, line) {
        Some(p) => Some((p, true)),
        None => match first_occurrence(word, line.reverse()) {
            Some(p) => Some((line.len() - 1 - p, false)),
            None => None,
        },
    }
}

/// A leftmost occurrence is the one `first_occurrence` names.
pub proof fn lemma_first_occurrence_is(word: Seq<char>, line: Seq<char>, at: int)
    requires
        is_first_occurrence(word, line, at),
    ensures
        first_occurrence(word, line) == Some(at),
{
    let c = choose|i: int| is_first_occurrence(word, line, i);
    assert(is_first_occurrence(word, line, c));
    if c < at {
        assert(!occurs_at(word, line, c));
    } else if at < c {
        assert(!occurs_at(word, line, at));
    }
}

/// Among the indices below `bound` at least one holds the word only if a
/// leftmost one does.
proof fn lemma_leftmost_below(word: Seq<char>, line: Seq<char>, bound: int) -> (at: int)
    requires
        exists|i: int| 0 <= i < bound && occurs_at(word, line, i),
    ensures
        0 <= at < bound,
        is_first_occurrence(word, line, at),
    decreases bound,
{
    let i = choose|i: int| 0 <= i < bound && occurs_at(word, line, i);
    if exists|j: int| 0 <= j < i && occurs_at(word, line, j) {
        lemma_leftmost_below(word, line, i)
    } else {
        i
    }
}

/// `first_occurrence` is `None` exactly when the word stands nowhere in the
/// line, and otherwise names an occurrence with none to its left.
pub proof fn lemma_first_occurrence(word: Seq<char>, line: Seq<char>)
    ensures
        match first_occurrence(word, line) {
            Some(at) => is_first_occurrence(word, line, at),
            None => !occurs(word, line),
        },
{
    if occurs(word, line) {
        let i = choose|i: int| occurs_at(word, line, i);
        assert(0 <= i < i + 1 && occurs_at(word, line, i));
        let at = lemma_leftmost_below(word, line, i + 1);
        lemma_first_occurrence_is(word, line, at);
    }
}

/// What the scanner's report says of the line: a forward report names the
/// leftmost occurrence; a backward report is made only where the word does
/// not stand forwards, and names the leftmost occurrence in the reversed
/// line; no report means the word stands in neither.
pub proof fn lemma_scan(word: Seq<char>, line: Seq<char>)
    ensures
        match scan(word, line) {
            Some((at, forward)) => if forward {
                is_first_occurrence(word, line, at)
            } else {
                &&& !occurs(word, line)
                &&& word.len() > 0
                &&& is_first_occurrence(word, line.reverse(), line.len() - 1 - at)
            },
            None => !occurs(word, line) && !occurs(word, line.reverse()),
        },
{
    lemma_first_occurrence(word, line);
    lemma_first_occurrence(word, line.reverse());
    if word.len() == 0 {
        assert(line.subrange(0, 0) =~= word);
        assert(occurs_at(word, line, 0));
    }
}

/// The letters that a report of the scanner stands for: from index `at`,
/// the word reads along the line if the report is forward, and against it
/// if the report is backward.
pub proof fn lemma_scan_letters(word: Seq<char>, line: Seq<char>)
    ensures
        match scan(word, line) {
            Some((at, forward)) => if forward {
                &&& 0 <= at
                &&& at + word.len() <= line.len()
                &&& forall|j: int| 0 <= j < word.len() ==> line[at + j] == #[trigger] word[j]
            } else {
                &&& word.len() > 0
                &&& at < line.len()
                &&& 0 <= at - word.len() + 1
                &&& forall|j: int| 0 <= j < word.len() ==> line[at - j] == #[trigger] word[j]
            },
            None => true,
        },
{
    lemma_scan(word, line);
    match scan(word, line) {
        Some((at, forward)) => {
            if forward {
                assert forall|j: int| 0 <= j < word.len() implies line[at + j]
                    == #[trigger] word[j] by {
                    assert(line.subrange(at, at + word.len())[j] == line[at + j]);
                }
            } else {
                let p = line.len() - 1 - at;
                let rev = line.reverse();
                assert forall|j: int| 0 <= j < word.len() implies line[at - j]
                    == #[trigger] word[j] by {
                    assert(rev.subrange(p, p + word.len())[j] == rev[p + j]);
                    assert(rev[p + j] == line[line.len() - 1 - (p + j)]);
                }
            }
        },
        None => {},
    }
}

/// Whether `word` stands in `line` at index `at`.
fn matches_at(word: &Vec<char>, line: &Vec<char>, at: usize) -> (b: bool)
    requires
        at + word.len() <= line.len(),
    ensures
        b == occurs_at(word@, line@, at as int),
{
    let mut j: usize = 0;
    while j < word.len()
        invariant
            j <= word.len(),
            at + word.len() <= line.len(),
            forall|k: int| 0 <= k < j ==> line[at + k] == word[k],
        decreases word.len() - j,
    {
        if line[at + j] != word[j] {
            assert(line@.subrange(at as int, at + word.len())[j as int] == line[at + j]);
            return false;
        }
        j += 1;
    }
    assert(line@.subrange(at as int, at + word.len()) =~= word@);
    true
}

/// An occurrence in the part of a line from `from` onwards is an occurrence
/// in the line, `from` places further on.
pub proof fn lemma_occurs_in_rest(word: Seq<char>, line: Seq<char>, from: int, at: int)
    requires
        0 <= from <= line.len(),
        0 <= at,
    ensures
        occurs_at(word, line.skip(from), at) <==> occurs_at(word, line, from + at),
{
    if at + word.len() <= line.len() - from {
        assert(line.skip(from).subrange(at, at + word.len()) =~= line.subrange(
            from + at,
            from + at + word.len(),
        ));
    }
}

/// The leftmost index from `from` onwards at which `word` stands in `line`.
pub fn find_from(word: &Vec<char>, line: &Vec<char>, from: usize) -> (r: Option<usize>)
    requires
        from <= line.len(),
    ensures
        match r {
            Some(at) => from <= at && first_occurrence(word@, line@.skip(from as int)) == Some(
                at - from,
            ),
            None => first_occurrence(word@, line@.skip(from as int)) is None,
        },
{
    let ghost rest = line@.skip(from as int);
    if word.len() > line.len() - from {
        proof {
            lemma_first_occurrence(word@, rest);
        }
        return None;
    }
    let last: usize = line.len() - word.len();
    let mut at: usize = from;
    loop
        invariant
            from <= at <= last,
            last == line.len() - word.len(),
            rest == line@.skip(from as int),
            forall|j: int| 0 <= j < at - from ==> !occurs_at(word@, rest, j),
        decreases last - at,
    {
        if matches_at(word, line, at) {
            proof {
                lemma_occurs_in_rest(word@, line@, from as int, at - from);
                lemma_first_occurrence_is(word@, rest, at - from);
            }
            return Some(at);
        }
        proof {
            lemma_occurs_in_rest(word@, line@, from as int, at - from);
        }
        if at == last {
            proof {
                lemma_first_occurrence(word@, rest);
            }
            return None;
        }
        at += 1;
    }
}

/// The leftmost index at which `word` stands in `line`.
pub fn find_first(word: &Vec<char>, line: &Vec<char>) -> (r: Option<usize>)
    ensures
        match r {
            Some(at) => first_occurrence(word@, line@) == Some(at as int),
            None => first_occurrence(word@, line@) is None,
        },
{
    assert(line@.skip(0) =~= line@);
    find_from(word, line, 0)
}

/// Looks for `word` in `group`, forwards first and then backwards.
///
/// Returns the index in `group` of the word's first letter and whether the
/// word reads in the group's own order.
pub fn find_in_group(word: &str, group: &Vec<char>) -> (r: Option<(usize, bool)>)
    ensures
        match r {
            Some((at, forward)) => scan(word@, group@) == Some((at as int, forward)),
            None => scan(word@, group@) is None,
        },
{
    let letters = chars_of(word);
    if let Some(pos) = find_first(&letters, group) {
        return Some((pos, true));
    }
    let reverse = reversed(group);
    if let Some(pos) = find_first(&letters, &reverse) {
        proof {
            lemma_first_occurrence(letters@, reverse@);
            if letters@.len() == 0 {
                assert(group@.subrange(0, 0) =~= letters@);
                assert(occurs_at(letters@, group@, 0));
                lemma_first_occurrence(letters@, group@);
            }
            assert(occurs_at(letters@, reverse@, pos as int));
        }
        let last = reverse.len() - 1;
        return Some((last - pos, false));
    }
    None
}

} // verus!
