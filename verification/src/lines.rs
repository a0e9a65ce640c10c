//! The letter matrix and its four families of lines: rows, columns, and the
//! diagonals that run up to the right and down to the right.

use crate::direction::Direction;
use crate::location::Location;
use vstd::prelude::*;

verus! {

/// The letter sequences that a vector of letter vectors holds.
pub open spec fn lines_of(groups: Seq<Vec<char>>) -> Seq<Seq<char>> {
    Seq::new(groups.len(), |i: int| groups[i]@)
}

/// At least one row and one column, and every row as long as the first.
pub open spec fn rectangular(letters: Seq<Seq<char>>) -> bool {
    &&& letters.len() >= 1
    &&& letters[0].len() >= 1
    &&& forall|r: int| 0 <= r < letters.len() ==> (#[trigger] letters[r]).len() == letters[0].len()
}

/// The number of rows.
pub open spec fn height(letters: Seq<Seq<char>>) -> int {
    letters.len() as int
}

/// The number of columns.
pub open spec fn width(letters: Seq<Seq<char>>) -> int {
    letters[0].len() as int
}

/// The number of diagonals in either family.
pub open spec fn diagonal_count(letters: Seq<Seq<char>>) -> int {
    height(letters) + width(letters) - 1
}

/// `(r, c)` is a cell of the matrix.
pub open spec fn inside(letters: Seq<Seq<char>>, r: int, c: int) -> bool {
    0 <= r < height(letters) && 0 <= c < width(letters)
}

/// The letters of column `c`, from the top row down.
pub open spec fn column(letters: Seq<Seq<char>>, c: int) -> Seq<char> {
    Seq::new(letters.len(), |r: int| letters[r][c])
}

/// How many cells diagonal `d` of an `n` by `m` matrix has. It is the same
/// in both families.
pub open spec fn diagonal_len(n: int, m: int, d: int) -> int {
    if d < n {
        if d + 1 <= m {
            d + 1
        } else {
            m
        }
    } else {
        if n <= n + m - 1 - d {
            n
        } else {
            n + m - 1 - d
        }
    }
}

/// The cell at index `k` of up-right diagonal `d`. The cells of one such
/// diagonal have `row + column == d`; index zero is the cell in the lowest
/// row.
pub open spec fn up_right_cell(n: int, d: int, k: int) -> (int, int) {
    if d < n {
        (d - k, k)
    } else {
        (n - 1 - k, d - n + 1 + k)
    }
}

/// The cell at index `k` of down-right diagonal `d`. The cells of one such
/// diagonal have `n - 1 + column - row == d`; index zero is the cell in the
/// highest row.
pub open spec fn down_right_cell(n: int, d: int, k: int) -> (int, int) {
    if d < n {
        (n - 1 - d + k, k)
    } else {
        (k, d - n + 1 + k)
    }
}

/// The letters of up-right diagonal `d`, from its lower left end.
pub open spec fn up_right(letters: Seq<Seq<char>>, d: int) -> Seq<char> {
    Seq::new(
        diagonal_len(height(letters), width(letters), d) as nat,
        |k: int|
            letters[up_right_cell(height(letters), d, k).0][up_right_cell(height(letters), d, k).1],
    )
}

/// The letters of down-right diagonal `d`, from its upper left end.
pub open spec fn down_right(letters: Seq<Seq<char>>, d: int) -> Seq<char> {
    Seq::new(
        diagonal_len(height(letters), width(letters), d) as nat,
        |k: int|
            letters[down_right_cell(height(letters), d, k).0][down_right_cell(
                height(letters),
                d,
                k,
            ).1],
    )
}

/// All columns, from the left.
pub open spec fn columns(letters: Seq<Seq<char>>) -> Seq<Seq<char>> {
    Seq::new(width(letters) as nat, |c: int| column(letters, c))
}

/// All up-right diagonals, by `row + column`.
pub open spec fn up_right_diagonals(letters: Seq<Seq<char>>) -> Seq<Seq<char>> {
    Seq::new(diagonal_count(letters) as nat, |d: int| up_right(letters, d))
}

/// All down-right diagonals, by `n - 1 + column - row`.
pub open spec fn down_right_diagonals(letters: Seq<Seq<char>>) -> Seq<Seq<char>> {
    Seq::new(diagonal_count(letters) as nat, |d: int| down_right(letters, d))
}

/// `from` moved `k` steps of size `step`, which is -1, 0 or 1.
pub open spec fn shift(from: int, step: int, k: int) -> int {
    if step > 0 {
        from + k
    } else if step < 0 {
        from - k
    } else {
        from
    }
}

/// The cell `k` steps from `start` in direction `dir`.
pub open spec fn cell_at(start: Location, dir: Direction, k: int) -> (int, int) {
    (shift(start.row as int, dir.row_step(), k), shift(start.column as int, dir.column_step(), k))
}

/// The run of `len` cells from `start` in direction `dir` stays inside the
/// matrix.
pub open spec fn fits(letters: Seq<Seq<char>>, start: Location, dir: Direction, len: int) -> bool {
    forall|k: int|
        0 <= k < len ==> inside(
            letters,
            (#[trigger] cell_at(start, dir, k)).0,
            cell_at(start, dir, k).1,
        )
}

/// The letters on the run of `len` cells from `start` in direction `dir`.
pub open spec fn read(letters: Seq<Seq<char>>, start: Location, dir: Direction, len: int) -> Seq<
    char,
> {
    Seq::new(len as nat, |k: int| letters[cell_at(start, dir, k).0][cell_at(start, dir, k).1])
}

/// `word` can be read in the matrix from `start` in direction `dir`.
pub open spec fn reads(
    letters: Seq<Seq<char>>,
    start: Location,
    dir: Direction,
    word: Seq<char>,
) -> bool {
    &&& fits(letters, start, dir, word.len() as int)
    &&& read(letters, start, dir, word.len() as int) == word
}

/// `(r, c)` is one of the `len` cells of the run from `start` in direction
/// `dir`.
pub open spec fn on_run(start: Location, dir: Direction, len: int, r: int, c: int) -> bool {
    exists|k: int| 0 <= k < len && #[trigger] cell_at(start, dir, k) == (r, c)
}

} // verus!
