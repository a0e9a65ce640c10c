//! The search engine: the order in which the lines of a grid are scanned,
//! and the cell and direction reported for the first line that holds the
//! word.

use crate::direction::Direction;
use crate::lines::{
    columns, down_right_cell, down_right_diagonals, height, lines_of, up_right_cell,
    up_right_diagonals,
};
use crate::location::Location;
use crate::scan::{find_in_group, scan};
use vstd::prelude::*;

verus! {

/// The four families of lines, in the order in which they are scanned.
#[derive(Clone, Copy, Debug, PartialEq, Eq, Structural)]
pub enum Family {
    Rows,
    Columns,
    UpRight,
    DownRight,
}

/// A match of the scanner: the family and index of the line, the index in
/// that line of the word's first letter, and whether the word reads in the
/// line's own order.
pub struct Hit {
    pub family: Family,
    pub group: int,
    pub at: int,
    pub forward: bool,
}

/// Line `g` of `groups` holds `word`, forwards or backwards.
pub open spec fn hit_in(groups: Seq<Seq<char>>, word: Seq<char>, g: int) -> bool {
    0 <= g < groups.len() && scan(word, groups[g]) is Some
}

/// Line `g` is the first of `groups` that holds `word`.
pub open spec fn is_first_hit(groups: Seq<Seq<char>>, word: Seq<char>, g: int) -> bool {
    &&& hit_in(groups, word, g)
    &&& forall|j: int| 0 <= j < g ==> !hit_in(groups, word, j)
}

/// The first line of `groups` that holds `word`, with what the scanner
/// reports for it.
pub open spec fn first_hit(groups: Seq<Seq<char>>, word: Seq<char>) -> Option<(int, int, bool)> {
    if exists|g: int| is_first_hit(groups, word, g) {
        let g = choose|g: int| is_first_hit(groups, word, g);
        let found = scan(word, groups[g])->0;
        Some((g, found.0, found.1))
    } else {
        None
    }
}

/// The match that the search settles on: rows are scanned first, then
/// columns, then up-right diagonals, then down-right diagonals, each family
/// in index order.
pub open spec fn first_match(letters: Seq<Seq<char>>, word: Seq<char>) -> Option<Hit> {
    if let Some((g, at, forward)) = first_hit(letters, word) {
        Some(Hit { family: Family::Rows, group: g, at, forward })
    } else if let Some((g, at, forward)) = first_hit(columns(letters), word) {
        Some(Hit { family: Family::Columns, group: g, at, forward })
    } else if let Some((g, at, forward)) = first_hit(up_right_diagonals(letters), word) {
        Some(Hit { family: Family::UpRight, group: g, at, forward })
    } else if let Some((g, at, forward)) = first_hit(down_right_diagonals(letters), word) {
        Some(Hit { family: Family::DownRight, group: g, at, forward })
    } else {
        None
    }
}

/// The cell on which the first letter of a matched word lies, in a matrix
/// of `n` rows.
pub open spec fn matched_cell(n: int, hit: Hit) -> (int, int) {
    match hit.family {
        Family::Rows => (hit.group, hit.at),
        Family::Columns => (hit.at, hit.group),
        Family::UpRight => up_right_cell(n, hit.group, hit.at),
        Family::DownRight => down_right_cell(n, hit.group, hit.at),
    }
}

/// The cell that the search reports for a match on up-right diagonal `d` at
/// index `at`, in a matrix of `n` rows.
pub open spec fn up_right_report(n: int, d: int, at: int) -> (int, int) {
    if d < n {
        (n - d, at)
    } else {
        (n - at - 1, (d - n) + at + 1)
    }
}

/// The cell that the search reports for a match on down-right diagonal `d`
/// at index `at`, in a matrix of `n` rows.
pub open spec fn down_right_report(n: int, d: int, at: int) -> (int, int) {
    if d < n {
        (n - d + at - 1, at)
    } else {
        (at, d - n + at + 1)
    }
}

/// The cell that the search reports for a match, in a matrix of `n` rows.
pub open spec fn reported_cell(n: int, hit: Hit) -> (int, int) {
    match hit.family {
        Family::Rows => (hit.group, hit.at),
        Family::Columns => (hit.at, hit.group),
        Family::UpRight => up_right_report(n, hit.group, hit.at),
        Family::DownRight => down_right_report(n, hit.group, hit.at),
    }
}

/// The direction in which a matched word reads.
pub open spec fn reported_direction(hit: Hit) -> Direction {
    match hit.family {
        Family::Rows => if hit.forward {
            Direction::Right
        } else {
            Direction::Left
        },
        Family::Columns => if hit.forward {
            Direction::Down
        } else {
            Direction::Up
        },
        Family::UpRight => if hit.forward {
            Direction::AngledUpRight
        } else {
            Direction::AngledDownLeft
        },
        Family::DownRight => if hit.forward {
            Direction::AngledDownRight
        } else {
            Direction::AngledUpLeft
        },
    }
}

/// The reported cell is the cell on which the match begins.
pub open spec fn lands_on_match(n: int, hit: Hit) -> bool {
    reported_cell(n, hit) == matched_cell(n, hit)
}

/// The location and direction reported for `word` in `letters`, or `None`
/// where no line holds it.
pub open spec fn locate(letters: Seq<Seq<char>>, word: Seq<char>) -> Option<
    (Location, Direction),
> {
    match first_match(letters, word) {
        Some(hit) => Some(
            (
                Location {
                    row: reported_cell(height(letters), hit).0 as usize,
                    column: reported_cell(height(letters), hit).1 as usize,
                },
                reported_direction(hit),
            ),
        ),
        None => None,
    }
}

/// The first line that holds the word is the one `first_hit` names.
pub proof fn lemma_first_hit_is(groups: Seq<Seq<char>>, word: Seq<char>, g: int)
    requires
        is_first_hit(groups, word, g),
    ensures
        first_hit(groups, word) matches Some((first, at, forward)) && first == g && scan(
            word,
            groups[g],
        ) == Some((at, forward)),
{
    let c = choose|i: int| is_first_hit(groups, word, i);
    assert(is_first_hit(groups, word, c));
    if c < g {
        assert(!hit_in(groups, word, c));
    } else if g < c {
        assert(!hit_in(groups, word, g));
    }
}

proof fn lemma_earliest_hit_below(groups: Seq<Seq<char>>, word: Seq<char>, bound: int) -> (g: int)
    requires
        exists|i: int| 0 <= i < bound && hit_in(groups, word, i),
    ensures
        0 <= g < bound,
        is_first_hit(groups, word, g),
    decreases bound,
{
    let i = choose|i: int| 0 <= i < bound && hit_in(groups, word, i);
    if exists|j: int| 0 <= j < i && hit_in(groups, word, j) {
        lemma_earliest_hit_below(groups, word, i)
    } else {
        i
    }
}

/// `first_hit` is `None` exactly when no line holds the word, and otherwise
/// names the first line that does, with the scanner's report for it.
pub proof fn lemma_first_hit(groups: Seq<Seq<char>>, word: Seq<char>)
    ensures
        match first_hit(groups, word) {
            Some((g, at, forward)) => is_first_hit(groups, word, g) && scan(word, groups[g])
                == Some((at, forward)),
            None => forall|g: int| !hit_in(groups, word, g),
        },
{
    if exists|g: int| hit_in(groups, word, g) {
        let i = choose|g: int| hit_in(groups, word, g);
        assert(0 <= i < i + 1 && hit_in(groups, word, i));
        let g = lemma_earliest_hit_below(groups, word, i + 1);
        lemma_first_hit_is(groups, word, g);
    }
}

/// Scans `groups` in index order and stops at the first that holds `word`.
///
/// Returns that line's index with the scanner's report for it.
pub fn find_in_groups(word: &str, groups: &Vec<Vec<char>>) -> (r: Option<(usize, usize, bool)>)
    ensures
        match r {
            Some((g, at, forward)) => first_hit(lines_of(groups@), word@) == Some(
                (g as int, at as int, forward),
            ),
            None => first_hit(lines_of(groups@), word@) is None,
        },
{
    let mut g: usize = 0;
    while g < groups.len()
        invariant
            g <= groups.len(),
            forall|j: int| 0 <= j < g ==> !hit_in(lines_of(groups@), word@, j),
        decreases groups.len() - g,
    {
        if let Some((at, forward)) = find_in_group(word, &groups[g]) {
            proof {
                lemma_first_hit_is(lines_of(groups@), word@, g as int);
            }
            return Some((g, at, forward));
        }
        g += 1;
    }
    None
}

/// The cell reported for a match on up-right diagonal `diag` at index `idx`
/// of a grid with `n_rows` rows.
pub fn up_right_start(n_rows: usize, diag: usize, idx: usize) -> (loc: Location)
    requires
        diag >= n_rows ==> idx < n_rows && (diag - n_rows) + idx + 1 <= usize::MAX,
    ensures
        (loc.row as int, loc.column as int) == up_right_report(
            n_rows as int,
            diag as int,
            idx as int,
        ),
{
    if diag < n_rows {
        Location { row: n_rows - diag, column: idx }
    } else {
        Location { row: n_rows - idx - 1, column: (diag - n_rows) + idx + 1 }
    }
}

/// The cell reported for a match on down-right diagonal `diag` at index
/// `idx` of a grid with `n_rows` rows.
pub fn down_right_start(n_rows: usize, diag: usize, idx: usize) -> (loc: Location)
    requires
        diag < n_rows ==> n_rows - diag + idx <= usize::MAX,
        diag >= n_rows ==> diag - n_rows + idx + 1 <= usize::MAX,
    ensures
        (loc.row as int, loc.column as int) == down_right_report(
            n_rows as int,
            diag as int,
            idx as int,
        ),
{
    if diag < n_rows {
        Location { row: n_rows - diag + idx - 1, column: idx }
    } else {
        Location { row: idx, column: diag - n_rows + idx + 1 }
    }
}

} // verus!
