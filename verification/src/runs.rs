//! How matches in lines and runs of cells correspond: a word found in a
//! line can be read in the matrix from the cell on which the match begins,
//! and a word that can be read in the matrix stands in one of its lines.

use crate::direction::Direction;
use crate::lines::{
    cell_at, columns, diagonal_count, diagonal_len, down_right_cell, down_right_diagonals,
    height, inside, read, reads, rectangular, up_right_cell, up_right_diagonals, width,
};
use crate::location::Location;
use crate::scan::{lemma_scan, lemma_scan_letters, occurs_at, scan};
use crate::search::{hit_in, matched_cell, reported_direction, Family, Hit};
use vstd::prelude::*;

verus! {

/// A rectangular matrix whose rows and columns the machine can count.
pub open spec fn sized(letters: Seq<Seq<char>>) -> bool {
    rectangular(letters) && height(letters) + width(letters) <= usize::MAX
}

/// The lines of one family, in index order.
pub open spec fn family_lines(letters: Seq<Seq<char>>, family: Family) -> Seq<Seq<char>> {
    match family {
        Family::Rows => letters,
        Family::Columns => columns(letters),
        Family::UpRight => up_right_diagonals(letters),
        Family::DownRight => down_right_diagonals(letters),
    }
}

/// `hit` is what the scanner reports for `word` in one line of the matrix.
pub open spec fn is_hit(letters: Seq<Seq<char>>, word: Seq<char>, hit: Hit) -> bool {
    &&& 0 <= hit.group < family_lines(letters, hit.family).len()
    &&& scan(word, family_lines(letters, hit.family)[hit.group]) == Some((hit.at, hit.forward))
}

/// `word` stands in some line of the matrix, forwards or backwards.
pub open spec fn in_some_line(letters: Seq<Seq<char>>, word: Seq<char>) -> bool {
    exists|family: Family, g: int| hit_in(family_lines(letters, family), word, g)
}

/// `word` can be read somewhere in the matrix, in one of the eight
/// directions.
pub open spec fn present(letters: Seq<Seq<char>>, word: Seq<char>) -> bool {
    exists|start: Location, dir: Direction| reads(letters, start, dir, word)
}

/// The location of a cell.
pub open spec fn location_of(cell: (int, int)) -> Location {
    Location { row: cell.0 as usize, column: cell.1 as usize }
}

/// Letters that agree with the word from `at` onwards are an occurrence.
pub proof fn lemma_occurs_forward(word: Seq<char>, line: Seq<char>, at: int)
    requires
        0 <= at,
        at + word.len() <= line.len(),
        forall|j: int| 0 <= j < word.len() ==> line[at + j] == #[trigger] word[j],
    ensures
        occurs_at(word, line, at),
{
    assert(line.subrange(at, at + word.len()) =~= word);
}

/// Letters that agree with the word from `at` backwards are an occurrence
/// in the reversed line.
pub proof fn lemma_occurs_backward(word: Seq<char>, line: Seq<char>, at: int)
    requires
        at < line.len(),
        0 <= at - word.len() + 1,
        forall|j: int| 0 <= j < word.len() ==> line[at - j] == #[trigger] word[j],
    ensures
        occurs_at(word, line.reverse(), line.len() - 1 - at),
{
    let p = line.len() - 1 - at;
    let rev = line.reverse();
    assert forall|j: int| 0 <= j < word.len() implies rev.subrange(p, p + word.len())[j]
        == word[j] by {
        assert(rev[p + j] == line[line.len() - 1 - (p + j)]);
    }
    assert(rev.subrange(p, p + word.len()) =~= word);
}

/// Every index of a diagonal names a cell of the matrix.
pub proof fn lemma_diagonal_cells_inside(letters: Seq<Seq<char>>, d: int, k: int)
    requires
        rectangular(letters),
        0 <= d < diagonal_count(letters),
        0 <= k < diagonal_len(height(letters), width(letters), d),
    ensures
        inside(
            letters,
            up_right_cell(height(letters), d, k).0,
            up_right_cell(height(letters), d, k).1,
        ),
        inside(
            letters,
            down_right_cell(height(letters), d, k).0,
            down_right_cell(height(letters), d, k).1,
        ),
{
}

/// The cell at index `k` of the line that a hit lies in.
pub open spec fn line_cell(n: int, family: Family, g: int, k: int) -> (int, int) {
    match family {
        Family::Rows => (g, k),
        Family::Columns => (k, g),
        Family::UpRight => up_right_cell(n, g, k),
        Family::DownRight => down_right_cell(n, g, k),
    }
}

/// The index, in its family, of the line on which cell `(r, c)` lies.
pub open spec fn line_through(n: int, family: Family, r: int, c: int) -> int {
    match family {
        Family::Rows => r,
        Family::Columns => c,
        Family::UpRight => r + c,
        Family::DownRight => n - 1 + c - r,
    }
}

/// The index of cell `(r, c)` in its line of the family.
pub open spec fn index_in_line(n: int, family: Family, r: int, c: int) -> int {
    match family {
        Family::Rows => c,
        Family::Columns => r,
        Family::UpRight => if r + c < n {
            c
        } else {
            n - 1 - r
        },
        Family::DownRight => if n - 1 + c - r < n {
            c
        } else {
            r
        },
    }
}

/// A line holds, at each index, the letter of that index's cell, and the
/// cell is inside the matrix.
pub proof fn lemma_line_letters(letters: Seq<Seq<char>>, family: Family, g: int, k: int)
    requires
        rectangular(letters),
        0 <= g < family_lines(letters, family).len(),
        0 <= k < family_lines(letters, family)[g].len(),
    ensures
        inside(
            letters,
            line_cell(height(letters), family, g, k).0,
            line_cell(height(letters), family, g, k).1,
        ),
        family_lines(letters, family)[g][k] == letters[line_cell(
            height(letters),
            family,
            g,
            k,
        ).0][line_cell(height(letters), family, g, k).1],
{
    match family {
        Family::Rows => {},
        Family::Columns => {},
        Family::UpRight => {
            lemma_diagonal_cells_inside(letters, g, k);
        },
        Family::DownRight => {
            lemma_diagonal_cells_inside(letters, g, k);
        },
    }
}

/// Every cell lies on exactly one line of each family, at exactly one
/// index, and the line holds the cell's letter there.
pub proof fn law_cell_on_one_line(letters: Seq<Seq<char>>, family: Family, r: int, c: int)
    requires
        rectangular(letters),
        inside(letters, r, c),
    ensures
        ({
            let n = height(letters);
            let lines = family_lines(letters, family);
            let g = line_through(n, family, r, c);
            let k = index_in_line(n, family, r, c);
            &&& 0 <= g < lines.len()
            &&& 0 <= k < lines[g].len()
            &&& line_cell(n, family, g, k) == (r, c)
            &&& lines[g][k] == letters[r][c]
            &&& forall|g2: int, k2: int|
                0 <= g2 < lines.len() && 0 <= k2 < lines[g2].len() && #[trigger] line_cell(
                    n,
                    family,
                    g2,
                    k2,
                ) == (r, c) ==> g2 == g && k2 == k
        }),
{
    let n = height(letters);
    let g = line_through(n, family, r, c);
    let k = index_in_line(n, family, r, c);
    match family {
        Family::Rows => {},
        Family::Columns => {},
        Family::UpRight => {},
        Family::DownRight => {},
    }
    lemma_line_letters(letters, family, g, k);
}

/// A word that the scanner finds in a line can be read in the matrix: from
/// the cell on which the match begins, in the direction that the search
/// reports for the match.
pub proof fn lemma_hit_reads(letters: Seq<Seq<char>>, word: Seq<char>, hit: Hit)
    requires
        sized(letters),
        is_hit(letters, word, hit),
    ensures
        word.len() > 0 ==> inside(
            letters,
            matched_cell(height(letters), hit).0,
            matched_cell(height(letters), hit).1,
        ),
        reads(
            letters,
            location_of(matched_cell(height(letters), hit)),
            reported_direction(hit),
            word,
        ),
{
    let n = height(letters);
    let line = family_lines(letters, hit.family)[hit.group];
    let start = location_of(matched_cell(n, hit));
    let dir = reported_direction(hit);
    lemma_scan_letters(word, line);
    if word.len() > 0 {
        lemma_line_letters(letters, hit.family, hit.group, hit.at);
        assert(line_cell(n, hit.family, hit.group, hit.at) == matched_cell(n, hit));
    }
    assert forall|j: int| 0 <= j < word.len() implies inside(
        letters,
        (#[trigger] cell_at(start, dir, j)).0,
        cell_at(start, dir, j).1,
    ) && letters[cell_at(start, dir, j).0][cell_at(start, dir, j).1] == word[j] by {
        let k = if hit.forward {
            hit.at + j
        } else {
            hit.at - j
        };
        lemma_line_letters(letters, hit.family, hit.group, k);
        assert(line[k] == word[j]);
        assert(cell_at(start, dir, j) == line_cell(n, hit.family, hit.group, k));
    }
    assert(read(letters, start, dir, word.len() as int) =~= word);
}

/// The family of lines along which a direction runs.
pub open spec fn family_of(dir: Direction) -> Family {
    match dir {
        Direction::Right | Direction::Left => Family::Rows,
        Direction::Down | Direction::Up => Family::Columns,
        Direction::AngledUpRight | Direction::AngledDownLeft => Family::UpRight,
        Direction::AngledDownRight | Direction::AngledUpLeft => Family::DownRight,
    }
}

/// Whether a direction runs in the order of its lines or against it.
pub open spec fn reads_along(dir: Direction) -> bool {
    match dir {
        Direction::Right | Direction::Down | Direction::AngledUpRight | Direction::AngledDownRight => true,
        Direction::Left | Direction::Up | Direction::AngledDownLeft | Direction::AngledUpLeft => false,
    }
}

/// A word that can be read in the matrix stands in one of its lines.
pub proof fn lemma_run_in_line(
    letters: Seq<Seq<char>>,
    start: Location,
    dir: Direction,
    word: Seq<char>,
)
    requires
        rectangular(letters),
        reads(letters, start, dir, word),
    ensures
        in_some_line(letters, word),
{
    let n = height(letters);
    let m = width(letters);
    let len = word.len() as int;
    if len == 0 {
        assert(letters[0].subrange(0, 0) =~= word);
        assert(occurs_at(word, letters[0], 0));
        lemma_scan(word, letters[0]);
        assert(hit_in(family_lines(letters, Family::Rows), word, 0));
    } else {
        let r = start.row as int;
        let c = start.column as int;
        assert(cell_at(start, dir, 0) == (r, c));
        assert(inside(letters, r, c));
        let last = cell_at(start, dir, len - 1);
        assert(inside(letters, last.0, last.1));
        let run = read(letters, start, dir, len);
        assert forall|j: int| 0 <= j < len implies letters[cell_at(start, dir, j).0][cell_at(
            start,
            dir,
            j,
        ).1] == #[trigger] word[j] by {
            assert(run[j] == word[j]);
        }
        let family = family_of(dir);
        let g = line_through(n, family, r, c);
        let at = index_in_line(n, family, r, c);
        let forward = reads_along(dir);
        law_cell_on_one_line(letters, family, r, c);
        let line = family_lines(letters, family)[g];
        if forward {
            assert(at + len <= line.len());
            assert forall|j: int| 0 <= j < len implies line[at + j] == #[trigger] word[j] by {
                lemma_line_letters(letters, family, g, at + j);
                assert(line_cell(n, family, g, at + j) == cell_at(start, dir, j));
            }
            lemma_occurs_forward(word, line, at);
        } else {
            assert(0 <= at - len + 1);
            assert(at < line.len());
            assert forall|j: int| 0 <= j < len implies line[at - j] == #[trigger] word[j] by {
                lemma_line_letters(letters, family, g, at - j);
                assert(line_cell(n, family, g, at - j) == cell_at(start, dir, j));
            }
            lemma_occurs_backward(word, line, at);
        }
        lemma_scan(word, line);
        assert(hit_in(family_lines(letters, family), word, g));
    }
}

} // verus!
