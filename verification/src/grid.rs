//! The grid: the letter matrix with its four index structures and the
//! overlay in which found words are marked.

use crate::color::Color;
use crate::direction::Direction;
use crate::filling::{
    columns_filled, downs_filled, lemma_columns_step, lemma_downs_step, lemma_filled_end,
    lemma_filled_start, lemma_next_row, lemma_overlay_step, lemma_rows_step, lemma_ups_step,
    lemma_visited_up_reversed, overlay_filled, plain, rows_filled, ups_filled, visited_up,
};
use crate::format::{grid_rows, rows_of_text};
use crate::lines::{
    cell_at, columns, diagonal_count, down_right_diagonals, height, inside, lines_of,
    rectangular, shift, up_right_diagonals, width,
};
use crate::location::Location;
use crate::marking::{lemma_paint_nothing, lemma_paint_skip, lemma_paint_step, paint, painted};
use crate::render::{lemma_render_next, lemma_render_row_next, render, render_row};
use crate::runs::sized;
use crate::scan::{lemma_scan, lemma_scan_letters, occurs_at};
use crate::search::{
    down_right_start, find_in_groups, hit_in, lemma_first_hit, locate, up_right_start,
};
use crate::text::{chars_of, lemma_take_all, lemma_take_next, reversed};
use vstd::prelude::*;
use vstd::string::*;

verus! {

/// A word-search puzzle: a rectangular matrix of letters, indexed for
/// searching, and an overlay that shows which cells found words cover.
pub struct Grid {
    rows: Vec<Vec<char>>,
    columns: Vec<Vec<char>>,
    diag_up_right: Vec<Vec<char>>,
    diag_down_right: Vec<Vec<char>>,
    highlighted: Vec<Vec<String>>,
}

/// The mathematical content of a grid: the letters, and the text shown for
/// each cell.
pub struct GridView {
    pub letters: Seq<Seq<char>>,
    pub overlay: Seq<Seq<Seq<char>>>,
}

/// The cell texts that a vector of string vectors holds.
pub open spec fn cells_of(rows: Seq<Vec<String>>) -> Seq<Seq<Seq<char>>> {
    Seq::new(rows.len(), |r: int| Seq::new(rows[r]@.len(), |c: int| rows[r]@[c]@))
}

/// The letter rows that a vector of strings spells.
pub open spec fn text_lines(text: Seq<&str>) -> Seq<Seq<char>> {
    Seq::new(text.len(), |i: int| text[i]@)
}

/// The overlay has a text for each cell of the matrix, and for no other.
pub open spec fn same_shape(overlay: Seq<Seq<Seq<char>>>, letters: Seq<Seq<char>>) -> bool {
    &&& overlay.len() == letters.len()
    &&& forall|r: int| 0 <= r < letters.len() ==> (#[trigger] overlay[r]).len() == letters[r].len()
}

/// The grid after a find of `word` in `color`: where the word is located,
/// the run of its length from the reported cell in the reported direction
/// is marked; the letters stay as they are.
pub open spec fn after_find(grid: GridView, word: Seq<char>, color: Color) -> GridView {
    match locate(grid.letters, word) {
        Some((start, dir)) => GridView {
            letters: grid.letters,
            overlay: paint(grid.letters, grid.overlay, start, dir, word.len() as int, color),
        },
        None => grid,
    }
}

impl View for Grid {
    type V = GridView;

    closed spec fn view(&self) -> GridView {
        GridView { letters: lines_of(self.rows@), overlay: cells_of(self.highlighted@) }
    }
}

fn empty_groups(n: usize) -> (groups: Vec<Vec<char>>)
    ensures
        groups.len() == n,
        forall|i: int| 0 <= i < n ==> (#[trigger] lines_of(groups@)[i]).len() == 0,
{
    let mut groups: Vec<Vec<char>> = Vec::new();
    while groups.len() < n
        invariant
            groups.len() <= n,
            forall|i: int| 0 <= i < groups.len() ==> (#[trigger] groups[i]).len() == 0,
        decreases n - groups.len(),
    {
        groups.push(Vec::new());
    }
    groups
}

fn empty_cells(n: usize) -> (cells: Vec<Vec<String>>)
    ensures
        cells.len() == n,
        forall|i: int| 0 <= i < n ==> (#[trigger] cells_of(cells@)[i]).len() == 0,
{
    let mut cells: Vec<Vec<String>> = Vec::new();
    while cells.len() < n
        invariant
            cells.len() <= n,
            forall|i: int| 0 <= i < cells.len() ==> (#[trigger] cells[i]).len() == 0,
        decreases n - cells.len(),
    {
        cells.push(Vec::new());
    }
    cells
}

fn push_letter(groups: &mut Vec<Vec<char>>, g: usize, letter: char)
    requires
        g < old(groups).len(),
    ensures
        lines_of(final(groups)@) == lines_of(old(groups)@).update(
            g as int,
            lines_of(old(groups)@)[g as int].push(letter),
        ),
{
    groups[g].push(letter);
    assert(lines_of(groups@) =~= lines_of(old(groups)@).update(
        g as int,
        lines_of(old(groups)@)[g as int].push(letter),
    ));
}

fn push_cell(cells: &mut Vec<Vec<String>>, r: usize, letter: char)
    requires
        r < old(cells).len(),
    ensures
        cells_of(final(cells)@) == cells_of(old(cells)@).update(
            r as int,
            cells_of(old(cells)@)[r as int].push(seq![letter]),
        ),
{
    let mut cell = String::new();
    cell.push(letter);
    assert(cell@ =~= seq![letter]);
    cells[r].push(cell);
    assert(cells_of(cells@)[r as int] =~= cells_of(old(cells)@)[r as int].push(seq![letter]));
    assert(cells_of(cells@) =~= cells_of(old(cells)@).update(
        r as int,
        cells_of(old(cells)@)[r as int].push(seq![letter]),
    ));
}

fn set_cell(cells: &mut Vec<Vec<String>>, r: usize, c: usize, text: String)
    requires
        r < old(cells).len(),
        c < old(cells)[r as int].len(),
    ensures
        cells_of(final(cells)@) == cells_of(old(cells)@).update(
            r as int,
            cells_of(old(cells)@)[r as int].update(c as int, text@),
        ),
{
    cells[r].set(c, text);
    assert(cells_of(cells@)[r as int] =~= cells_of(old(cells)@)[r as int].update(c as int, text@));
    assert(cells_of(cells@) =~= cells_of(old(cells)@).update(
        r as int,
        cells_of(old(cells)@)[r as int].update(c as int, text@),
    ));
}

/// `from` moved `k` steps of size `off`, where the machine can count it.
fn step(from: usize, off: i8, k: usize) -> (to: Option<usize>)
    ensures
        match to {
            Some(t) => t == shift(from as int, off as int, k as int),
            None => !(0 <= shift(from as int, off as int, k as int) <= usize::MAX),
        },
{
    if off > 0 {
        if k <= usize::MAX - from {
            Some(from + k)
        } else {
            None
        }
    } else if off < 0 {
        if k <= from {
            Some(from - k)
        } else {
            None
        }
    } else {
        Some(from)
    }
}

impl Grid {
    /// The lines that the column index holds.
    pub closed spec fn column_lines(&self) -> Seq<Seq<char>> {
        lines_of(self.columns@)
    }

    /// The lines that the index of up-right diagonals holds.
    pub closed spec fn up_right_lines(&self) -> Seq<Seq<char>> {
        lines_of(self.diag_up_right@)
    }

    /// The lines that the index of down-right diagonals holds.
    pub closed spec fn down_right_lines(&self) -> Seq<Seq<char>> {
        lines_of(self.diag_down_right@)
    }

    /// The index structures hold what the letters determine: one line per
    /// column, and one per diagonal of either family.
    pub open spec fn indexed(&self) -> bool {
        &&& self.column_lines() == columns(self@.letters)
        &&& self.up_right_lines() == up_right_diagonals(self@.letters)
        &&& self.down_right_lines() == down_right_diagonals(self@.letters)
    }

    /// The grid is well formed: a rectangular matrix whose size the machine
    /// can count, indexed, with one overlay text per cell.
    pub open spec fn wf(&self) -> bool {
        &&& rectangular(self@.letters)
        &&& height(self@.letters) + width(self@.letters) <= usize::MAX
        &&& same_shape(self@.overlay, self@.letters)
        &&& self.indexed()
    }

    /// Builds the grid whose rows are the strings of `text`.
    ///
    /// Every cell of the overlay starts as its plain letter.
    pub fn new(text: Vec<&str>) -> (grid: Grid)
        requires
            sized(text_lines(text@)),
        ensures
            grid.wf(),
            grid@.letters == text_lines(text@),
            grid@.overlay == plain(grid@.letters),
    {
        let mut rows: Vec<Vec<char>> = Vec::new();
        let mut row: usize = 0;
        while row < text.len()
            invariant
                row <= text.len(),
                lines_of(rows@) == text_lines(text@).take(row as int),
            decreases text.len() - row,
        {
            let ghost before = lines_of(rows@);
            let line = chars_of(text[row]);
            rows.push(line);
            assert(lines_of(rows@) =~= before.push(text_lines(text@)[row as int]));
            proof {
                lemma_take_next(text_lines(text@), row as int);
            }
            row += 1;
        }
        proof {
            lemma_take_all(text_lines(text@));
        }
        Grid::from_rows(&rows)
    }

    /// Builds the grid of the given rows of letters.
    ///
    /// One pass over the cells fills the rows, the columns and both
    /// families of diagonals; the up-right diagonals are then turned round,
    /// so that each starts at its lower left end. Every cell of the overlay
    /// starts as its plain letter.
    pub fn from_rows(lines: &Vec<Vec<char>>) -> (grid: Grid)
        requires
            sized(lines_of(lines@)),
        ensures
            grid.wf(),
            grid@.letters == lines_of(lines@),
            grid@.overlay == plain(grid@.letters),
    {
        let ghost letters = lines_of(lines@);
        let n_rows = lines.len();
        let n_cols = lines[0].len();
        let mut rows = empty_groups(n_rows);
        let mut columns = empty_groups(n_cols);
        let mut diag_up_right = empty_groups(n_rows + n_cols - 1);
        let mut diag_down_right = empty_groups(n_rows + n_cols - 1);
        let mut highlighted = empty_cells(n_rows);
        proof {
            lemma_filled_start(
                letters,
                lines_of(rows@),
                lines_of(columns@),
                lines_of(diag_up_right@),
                lines_of(diag_down_right@),
                cells_of(highlighted@),
            );
        }

        let mut row: usize = 0;
        while row < n_rows
            invariant
                rectangular(letters),
                letters == lines_of(lines@),
                n_rows == height(letters),
                n_cols == width(letters),
                n_rows + n_cols <= usize::MAX,
                row <= n_rows,
                rows_filled(letters, lines_of(rows@), row as int, 0),
                columns_filled(letters, lines_of(columns@), row as int, 0),
                ups_filled(letters, lines_of(diag_up_right@), row as int, 0),
                downs_filled(letters, lines_of(diag_down_right@), row as int, 0),
                overlay_filled(letters, cells_of(highlighted@), row as int, 0),
            decreases n_rows - row,
        {
            let line = &lines[row];
            let mut col: usize = 0;
            while col < n_cols
                invariant
                    rectangular(letters),
                    n_rows == height(letters),
                    n_cols == width(letters),
                    n_rows + n_cols <= usize::MAX,
                    row < n_rows,
                    col <= n_cols,
                    line@ == letters[row as int],
                    rows_filled(letters, lines_of(rows@), row as int, col as int),
                    columns_filled(letters, lines_of(columns@), row as int, col as int),
                    ups_filled(letters, lines_of(diag_up_right@), row as int, col as int),
                    downs_filled(letters, lines_of(diag_down_right@), row as int, col as int),
                    overlay_filled(letters, cells_of(highlighted@), row as int, col as int),
                decreases n_cols - col,
            {
                let letter = line[col];
                proof {
                    lemma_rows_step(letters, lines_of(rows@), row as int, col as int);
                    lemma_columns_step(letters, lines_of(columns@), row as int, col as int);
                    lemma_ups_step(letters, lines_of(diag_up_right@), row as int, col as int);
                    lemma_downs_step(letters, lines_of(diag_down_right@), row as int, col as int);
                    lemma_overlay_step(letters, cells_of(highlighted@), row as int, col as int);
                }
                push_letter(&mut rows, row, letter);
                push_letter(&mut columns, col, letter);
                push_letter(&mut diag_up_right, row + col, letter);
                push_letter(&mut diag_down_right, n_rows + col - row - 1, letter);
                push_cell(&mut highlighted, row, letter);
                col += 1;
            }
            proof {
                lemma_next_row(
                    letters,
                    lines_of(rows@),
                    lines_of(columns@),
                    lines_of(diag_up_right@),
                    lines_of(diag_down_right@),
                    cells_of(highlighted@),
                    row as int,
                );
            }
            row += 1;
        }
        proof {
            lemma_filled_end(
                letters,
                lines_of(rows@),
                lines_of(columns@),
                lines_of(diag_up_right@),
                lines_of(diag_down_right@),
                cells_of(highlighted@),
            );
        }

        let n_diagonals = n_rows + n_cols - 1;
        let mut d: usize = 0;
        while d < n_diagonals
            invariant
                rectangular(letters),
                n_diagonals == diagonal_count(letters),
                diag_up_right.len() == n_diagonals,
                d <= n_diagonals,
                forall|i: int|
                    0 <= i < d ==> #[trigger] lines_of(diag_up_right@)[i] == up_right_diagonals(
                        letters,
                    )[i],
                forall|i: int|
                    d <= i < n_diagonals ==> #[trigger] lines_of(diag_up_right@)[i] == visited_up(
                        letters,
                        i,
                    ),
            decreases n_diagonals - d,
        {
            let turned = reversed(&diag_up_right[d]);
            proof {
                lemma_visited_up_reversed(letters, d as int);
                assert(lines_of(diag_up_right@)[d as int] == visited_up(letters, d as int));
            }
            let ghost before = lines_of(diag_up_right@);
            diag_up_right.set(d, turned);
            assert forall|i: int| 0 <= i < d + 1 implies #[trigger] lines_of(diag_up_right@)[i]
                == up_right_diagonals(letters)[i] by {
                if i < d {
                    assert(before[i] == up_right_diagonals(letters)[i]);
                }
            }
            assert forall|i: int| d + 1 <= i < n_diagonals implies #[trigger] lines_of(
                diag_up_right@,
            )[i] == visited_up(letters, i) by {
                assert(before[i] == visited_up(letters, i));
            }
            d += 1;
        }
        assert(lines_of(diag_up_right@) =~= up_right_diagonals(letters));

        let grid = Grid { rows, columns, diag_up_right, diag_down_right, highlighted };
        proof {
            assert(same_shape(plain(letters), letters));
        }
        grid
    }

    /// Builds the grid that `text` spells: spaces are skipped, and the rows
    /// are separated by line breaks, each a line feed that may follow a
    /// carriage return.
    pub fn from_str(text: &str) -> (grid: Grid)
        requires
            sized(rows_of_text(text@)),
        ensures
            grid.wf(),
            grid@.letters == rows_of_text(text@),
            grid@.overlay == plain(grid@.letters),
    {
        let letters = chars_of(text);
        let rows = grid_rows(&letters);
        Grid::from_rows(&rows)
    }

    /// The puzzle as text: each letter followed by a space, each row
    /// followed by a line feed.
    pub fn show_grid(&self) -> (out: String)
        requires
            self.wf(),
        ensures
            out@ == render(plain(self@.letters)),
    {
        let ghost cells = plain(self@.letters);
        let mut out = String::new();
        let mut row: usize = 0;
        while row < self.rows.len()
            invariant
                row <= self.rows.len(),
                cells == plain(lines_of(self.rows@)),
                out@ == render(cells.take(row as int)),
            decreases self.rows.len() - row,
        {
            let ghost done = out@;
            let line = &self.rows[row];
            let mut col: usize = 0;
            while col < line.len()
                invariant
                    col <= line.len(),
                    row < self.rows.len(),
                    line == self.rows[row as int],
                    cells == plain(lines_of(self.rows@)),
                    out@ == done + render_row(cells[row as int].take(col as int)),
                decreases line.len() - col,
            {
                proof {
                    lemma_render_row_next(cells[row as int], col as int);
                }
                out.push(line[col]);
                out.push(' ');
                assert(out@ =~= done + render_row(cells[row as int].take(col as int + 1)));
                col += 1;
            }
            proof {
                lemma_take_all(cells[row as int]);
                lemma_render_next(cells, row as int);
            }
            out.push('\n');
            assert(out@ =~= render(cells.take(row as int + 1)));
            row += 1;
        }
        proof {
            lemma_take_all(cells);
        }
        out
    }

    /// The solution as text, laid out as `show_grid` lays out the puzzle:
    /// marked cells show their letter wrapped in colour, the others their
    /// plain letter.
    pub fn show_solve(&self) -> (out: String)
        requires
            self.wf(),
        ensures
            out@ == render(self@.overlay),
    {
        let ghost cells = self@.overlay;
        let mut out = String::new();
        let mut row: usize = 0;
        while row < self.highlighted.len()
            invariant
                row <= self.highlighted.len(),
                cells == cells_of(self.highlighted@),
                out@ == render(cells.take(row as int)),
            decreases self.highlighted.len() - row,
        {
            let ghost done = out@;
            let line = &self.highlighted[row];
            let mut col: usize = 0;
            while col < line.len()
                invariant
                    col <= line.len(),
                    row < self.highlighted.len(),
                    line == self.highlighted[row as int],
                    cells == cells_of(self.highlighted@),
                    out@ == done + render_row(cells[row as int].take(col as int)),
                decreases line.len() - col,
            {
                proof {
                    lemma_render_row_next(cells[row as int], col as int);
                }
                out.append(line[col].as_str());
                out.push(' ');
                assert(out@ =~= done + render_row(cells[row as int].take(col as int + 1)));
                col += 1;
            }
            proof {
                lemma_take_all(cells[row as int]);
                lemma_render_next(cells, row as int);
            }
            out.push('\n');
            assert(out@ =~= render(cells.take(row as int + 1)));
            row += 1;
        }
        proof {
            lemma_take_all(cells);
        }
        out
    }

    /// Marks the run of `len` cells from `start` in direction `dir`: each
    /// cell of the overlay on the run is overwritten with its letter wrapped
    /// in `color`. Where the run leaves the grid there is no cell to mark.
    pub fn highlight(&mut self, start: &Location, dir: &Direction, len: usize, color: &Color)
        requires
            old(self).wf(),
        ensures
            final(self).wf(),
            final(self)@.letters == old(self)@.letters,
            final(self)@.overlay == paint(
                old(self)@.letters,
                old(self)@.overlay,
                *start,
                *dir,
                len as int,
                *color,
            ),
    {
        let (row_off, col_off) = dir.offsets();
        let n_rows = self.rows.len();
        let n_cols = self.rows[0].len();
        let ghost letters = self@.letters;
        let ghost before = self@.overlay;
        proof {
            lemma_paint_nothing(letters, before, *start, *dir, *color);
        }
        let mut idx: usize = 0;
        while idx < len
            invariant
                idx <= len,
                row_off == dir.row_step(),
                col_off == dir.column_step(),
                rectangular(letters),
                n_rows == height(letters),
                n_cols == width(letters),
                same_shape(before, letters),
                self.rows == old(self).rows,
                self.columns == old(self).columns,
                self.diag_up_right == old(self).diag_up_right,
                self.diag_down_right == old(self).diag_down_right,
                letters == lines_of(self.rows@),
                cells_of(self.highlighted@) == paint(
                    letters,
                    before,
                    *start,
                    *dir,
                    idx as int,
                    *color,
                ),
            decreases len - idx,
        {
            let ghost cell = cell_at(*start, *dir, idx as int);
            let ghost so_far = paint(letters, before, *start, *dir, idx as int, *color);
            let mut on_grid = false;
            if let Some(row) = step(start.row, row_off, idx) {
                if let Some(col) = step(start.column, col_off, idx) {
                    if row < n_rows && col < n_cols {
                        proof {
                            assert(inside(letters, cell.0, cell.1));
                            assert(before[cell.0].len() == letters[cell.0].len());
                            assert(so_far.len() == self.highlighted@.len());
                            assert(so_far[cell.0].len() == self.highlighted@[cell.0]@.len());
                            assert(so_far[cell.0].len() == before[cell.0].len());
                            lemma_paint_step(letters, before, *start, *dir, idx as int, *color);
                        }
                        let letter = self.rows[row][col];
                        let mut text = color.to_string();
                        text.push(letter);
                        let reset = Color::Reset.to_string();
                        text.append(reset.as_str());
                        assert(text@ =~= painted(*color, letter));
                        set_cell(&mut self.highlighted, row, col, text);
                        on_grid = true;
                    }
                }
            }
            proof {
                if !on_grid {
                    assert(!inside(letters, cell.0, cell.1));
                    assert forall|r: int| 0 <= r < before.len() implies !(0 <= cell.1
                        < (#[trigger] before[r]).len() && r == cell.0) by {
                        assert(before[r].len() == letters[r].len());
                    }
                    lemma_paint_skip(letters, before, *start, *dir, idx as int, *color);
                }
            }
            idx += 1;
        }
        proof {
            let after = paint(letters, before, *start, *dir, len as int, *color);
            assert(same_shape(after, letters)) by {
                assert forall|r: int| 0 <= r < letters.len() implies (#[trigger] after[r]).len()
                    == letters[r].len() by {
                    assert(before[r].len() == letters[r].len());
                }
            }
        }
    }

    /// Searches the rows, then the columns, then the up-right diagonals,
    /// then the down-right diagonals, and reports the first match: the cell
    /// of the word's first letter and the direction in which the word reads.
    ///
    /// The grid is left as it is.
    pub fn locate(&self, word: &str) -> (found: Option<(Location, Direction)>)
        requires
            self.wf(),
        ensures
            found == locate(self@.letters, word@),
    {
        let ghost letters = self@.letters;
        proof {
            assert(lines_of(self.rows@) == letters);
            lemma_first_hit(letters, word@);
            lemma_first_hit(columns(letters), word@);
            lemma_first_hit(up_right_diagonals(letters), word@);
            lemma_first_hit(down_right_diagonals(letters), word@);
        }
        if let Some((row, column, to_right)) = find_in_groups(word, &self.rows) {
            let dir = if to_right {
                Direction::Right
            } else {
                Direction::Left
            };
            return Some((Location { row, column }, dir));
        }
        if let Some((column, row, is_down)) = find_in_groups(word, &self.columns) {
            let dir = if is_down {
                Direction::Down
            } else {
                Direction::Up
            };
            return Some((Location { row, column }, dir));
        }
        proof {
            if word@.len() == 0 {
                lemma_scan(word@, letters[0]);
                assert(letters[0].subrange(0, 0) =~= word@);
                assert(occurs_at(word@, letters[0], 0));
                assert(hit_in(letters, word@, 0));
            }
        }
        let num_rows = self.rows.len();
        if let Some((diag, idx, is_forward)) = find_in_groups(word, &self.diag_up_right) {
            let dir = if is_forward {
                Direction::AngledUpRight
            } else {
                Direction::AngledDownLeft
            };
            proof {
                lemma_scan_letters(word@, up_right_diagonals(letters)[diag as int]);
            }
            let start = up_right_start(num_rows, diag, idx);
            return Some((start, dir));
        }
        if let Some((diag, idx, is_forward)) = find_in_groups(word, &self.diag_down_right) {
            let dir = if is_forward {
                Direction::AngledDownRight
            } else {
                Direction::AngledUpLeft
            };
            proof {
                lemma_scan_letters(word@, down_right_diagonals(letters)[diag as int]);
            }
            let start = down_right_start(num_rows, diag, idx);
            return Some((start, dir));
        }
        None
    }

    /// Searches for `word` as `locate` does and, where it is found, marks
    /// the run of as many cells as the word has letters, from the reported
    /// cell in the reported direction, in `color`.
    pub fn find_word(&mut self, word: &str, color: &Color) -> (found: Option<(Location, Direction)>)
        requires
            old(self).wf(),
        ensures
            final(self).wf(),
            found == locate(old(self)@.letters, word@),
            final(self)@ == after_find(old(self)@, word@, *color),
    {
        let found = self.locate(word);
        if let Some((start, dir)) = found {
            self.highlight(&start, &dir, word.unicode_len(), color);
        }
        found
    }
}

} // verus!
