//! How far the index structures are filled while a grid is built.
//!
//! The builder visits the cells row by row. At any moment it has visited
//! every cell of the rows above `row` and the cells of row `row` to the left
//! of `col`; the functions here say what each line holds at that moment.

use crate::lines::{
    column, columns, diagonal_count, diagonal_len, down_right, down_right_diagonals, height,
    rectangular, up_right, width,
};
use vstd::prelude::*;

verus! {

/// The lowest row that up-right diagonal `d` reaches in a matrix of `m`
/// columns.
pub open spec fn up_first_row(m: int, d: int) -> int {
    if d < m {
        0
    } else {
        d - m + 1
    }
}

/// The cells of up-right diagonal `d` in the order in which the builder
/// visits them: from the top row down.
pub open spec fn visited_up(letters: Seq<Seq<char>>, d: int) -> Seq<char> {
    Seq::new(
        diagonal_len(height(letters), width(letters), d) as nat,
        |j: int| letters[up_first_row(width(letters), d) + j][d - up_first_row(width(letters), d) - j],
    )
}

/// What row `r` holds at progress `(row, col)`.
pub open spec fn row_at(letters: Seq<Seq<char>>, r: int, row: int, col: int) -> Seq<char> {
    if r < row {
        letters[r]
    } else if r == row {
        letters[r].take(col)
    } else {
        Seq::empty()
    }
}

/// How many letters column `c` holds at progress `(row, col)`.
pub open spec fn column_fill(c: int, row: int, col: int) -> int {
    if c < col {
        row + 1
    } else {
        row
    }
}

/// How many letters up-right diagonal `d` holds at progress `(row, col)`.
pub open spec fn up_fill(n: int, m: int, d: int, row: int, col: int) -> int {
    let lo = up_first_row(m, d);
    let hi = lo + diagonal_len(n, m, d) - 1;
    let above = if row <= lo {
        0
    } else if row > hi {
        hi - lo + 1
    } else {
        row - lo
    };
    if lo <= row <= hi && d - row < col {
        above + 1
    } else {
        above
    }
}

/// How many letters down-right diagonal `d` holds at progress `(row, col)`.
pub open spec fn down_fill(n: int, m: int, d: int, row: int, col: int) -> int {
    let lo = if d < n {
        n - 1 - d
    } else {
        0
    };
    let hi = lo + diagonal_len(n, m, d) - 1;
    let above = if row <= lo {
        0
    } else if row > hi {
        hi - lo + 1
    } else {
        row - lo
    };
    if lo <= row <= hi && row + d - (n - 1) < col {
        above + 1
    } else {
        above
    }
}

/// The rows are filled up to progress `(row, col)`.
pub open spec fn rows_filled(letters: Seq<Seq<char>>, rows: Seq<Seq<char>>, row: int, col: int) -> bool {
    &&& rows.len() == height(letters)
    &&& forall|r: int| 0 <= r < height(letters) ==> #[trigger] rows[r] == row_at(letters, r, row, col)
}

/// The columns are filled up to progress `(row, col)`.
pub open spec fn columns_filled(
    letters: Seq<Seq<char>>,
    cols: Seq<Seq<char>>,
    row: int,
    col: int,
) -> bool {
    &&& cols.len() == width(letters)
    &&& forall|c: int|
        0 <= c < width(letters) ==> #[trigger] cols[c] == column(letters, c).take(
            column_fill(c, row, col),
        )
}

/// The up-right diagonals are filled, in visiting order, up to progress
/// `(row, col)`.
pub open spec fn ups_filled(letters: Seq<Seq<char>>, ups: Seq<Seq<char>>, row: int, col: int) -> bool {
    &&& ups.len() == diagonal_count(letters)
    &&& forall|d: int|
        0 <= d < diagonal_count(letters) ==> #[trigger] ups[d] == visited_up(letters, d).take(
            up_fill(height(letters), width(letters), d, row, col),
        )
}

/// The down-right diagonals are filled up to progress `(row, col)`.
pub open spec fn downs_filled(
    letters: Seq<Seq<char>>,
    downs: Seq<Seq<char>>,
    row: int,
    col: int,
) -> bool {
    &&& downs.len() == diagonal_count(letters)
    &&& forall|d: int|
        0 <= d < diagonal_count(letters) ==> #[trigger] downs[d] == down_right(letters, d).take(
            down_fill(height(letters), width(letters), d, row, col),
        )
}

/// The cell texts of a row of plain letters.
pub open spec fn plain_row(line: Seq<char>) -> Seq<Seq<char>> {
    Seq::new(line.len(), |c: int| seq![line[c]])
}

/// The overlay is filled with plain letters up to progress `(row, col)`.
pub open spec fn overlay_filled(
    letters: Seq<Seq<char>>,
    overlay: Seq<Seq<Seq<char>>>,
    row: int,
    col: int,
) -> bool {
    &&& overlay.len() == height(letters)
    &&& forall|r: int|
        0 <= r < height(letters) ==> #[trigger] overlay[r] == plain_row(row_at(letters, r, row, col))
}

/// The overlay in which every cell shows its plain letter.
pub open spec fn plain(letters: Seq<Seq<char>>) -> Seq<Seq<Seq<char>>> {
    Seq::new(letters.len(), |r: int| plain_row(letters[r]))
}

/// Nothing is filled before the first cell is visited.
pub proof fn lemma_filled_start(
    letters: Seq<Seq<char>>,
    rows: Seq<Seq<char>>,
    cols: Seq<Seq<char>>,
    ups: Seq<Seq<char>>,
    downs: Seq<Seq<char>>,
    overlay: Seq<Seq<Seq<char>>>,
)
    requires
        rectangular(letters),
        rows.len() == height(letters),
        cols.len() == width(letters),
        ups.len() == diagonal_count(letters),
        downs.len() == diagonal_count(letters),
        overlay.len() == height(letters),
        forall|i: int| 0 <= i < rows.len() ==> (#[trigger] rows[i]).len() == 0,
        forall|i: int| 0 <= i < cols.len() ==> (#[trigger] cols[i]).len() == 0,
        forall|i: int| 0 <= i < ups.len() ==> (#[trigger] ups[i]).len() == 0,
        forall|i: int| 0 <= i < downs.len() ==> (#[trigger] downs[i]).len() == 0,
        forall|i: int| 0 <= i < overlay.len() ==> (#[trigger] overlay[i]).len() == 0,
    ensures
        rows_filled(letters, rows, 0, 0),
        columns_filled(letters, cols, 0, 0),
        ups_filled(letters, ups, 0, 0),
        downs_filled(letters, downs, 0, 0),
        overlay_filled(letters, overlay, 0, 0),
{
    assert forall|r: int| 0 <= r < height(letters) implies #[trigger] rows[r] == row_at(
        letters,
        r,
        0,
        0,
    ) by {
        assert(rows[r] =~= row_at(letters, r, 0, 0));
    }
    assert forall|c: int| 0 <= c < width(letters) implies #[trigger] cols[c] == column(
        letters,
        c,
    ).take(column_fill(c, 0, 0)) by {
        assert(cols[c] =~= column(letters, c).take(0));
    }
    assert forall|d: int| 0 <= d < diagonal_count(letters) implies #[trigger] ups[d] == visited_up(
        letters,
        d,
    ).take(up_fill(height(letters), width(letters), d, 0, 0)) by {
        assert(ups[d] =~= visited_up(letters, d).take(0));
    }
    assert forall|d: int| 0 <= d < diagonal_count(letters) implies #[trigger] downs[d]
        == down_right(letters, d).take(down_fill(height(letters), width(letters), d, 0, 0)) by {
        assert(downs[d] =~= down_right(letters, d).take(0));
    }
    assert forall|r: int| 0 <= r < height(letters) implies #[trigger] overlay[r] == plain_row(
        row_at(letters, r, 0, 0),
    ) by {
        assert(overlay[r] =~= plain_row(row_at(letters, r, 0, 0)));
    }
}

/// Visiting cell `(row, col)` appends its letter to row `row`.
pub proof fn lemma_rows_step(letters: Seq<Seq<char>>, rows: Seq<Seq<char>>, row: int, col: int)
    requires
        rectangular(letters),
        0 <= row < height(letters),
        0 <= col < width(letters),
        rows_filled(letters, rows, row, col),
    ensures
        rows_filled(letters, rows.update(row, rows[row].push(letters[row][col])), row, col + 1),
{
    let next = rows.update(row, rows[row].push(letters[row][col]));
    assert forall|r: int| 0 <= r < height(letters) implies #[trigger] next[r] == row_at(
        letters,
        r,
        row,
        col + 1,
    ) by {
        assert(rows[r] == row_at(letters, r, row, col));
        assert(next[r] =~= row_at(letters, r, row, col + 1));
    }
}

/// Visiting cell `(row, col)` appends its letter to column `col`.
pub proof fn lemma_columns_step(letters: Seq<Seq<char>>, cols: Seq<Seq<char>>, row: int, col: int)
    requires
        rectangular(letters),
        0 <= row < height(letters),
        0 <= col < width(letters),
        columns_filled(letters, cols, row, col),
    ensures
        columns_filled(letters, cols.update(col, cols[col].push(letters[row][col])), row, col + 1),
{
    let next = cols.update(col, cols[col].push(letters[row][col]));
    assert forall|c: int| 0 <= c < width(letters) implies #[trigger] next[c] == column(
        letters,
        c,
    ).take(column_fill(c, row, col + 1)) by {
        assert(cols[c] == column(letters, c).take(column_fill(c, row, col)));
        assert(next[c] =~= column(letters, c).take(column_fill(c, row, col + 1)));
    }
}

/// Visiting cell `(row, col)` appends its letter to up-right diagonal
/// `row + col`.
pub proof fn lemma_ups_step(letters: Seq<Seq<char>>, ups: Seq<Seq<char>>, row: int, col: int)
    requires
        rectangular(letters),
        0 <= row < height(letters),
        0 <= col < width(letters),
        ups_filled(letters, ups, row, col),
    ensures
        ups_filled(
            letters,
            ups.update(row + col, ups[row + col].push(letters[row][col])),
            row,
            col + 1,
        ),
{
    let n = height(letters);
    let m = width(letters);
    let next = ups.update(row + col, ups[row + col].push(letters[row][col]));
    assert forall|d: int| 0 <= d < diagonal_count(letters) implies #[trigger] next[d] == visited_up(
        letters,
        d,
    ).take(up_fill(n, m, d, row, col + 1)) by {
        assert(ups[d] == visited_up(letters, d).take(up_fill(n, m, d, row, col)));
        assert(next[d] =~= visited_up(letters, d).take(up_fill(n, m, d, row, col + 1)));
    }
}

/// Visiting cell `(row, col)` appends its letter to down-right diagonal
/// `n - 1 + col - row`.
pub proof fn lemma_downs_step(letters: Seq<Seq<char>>, downs: Seq<Seq<char>>, row: int, col: int)
    requires
        rectangular(letters),
        0 <= row < height(letters),
        0 <= col < width(letters),
        downs_filled(letters, downs, row, col),
    ensures
        downs_filled(
            letters,
            downs.update(
                height(letters) + col - row - 1,
                downs[height(letters) + col - row - 1].push(letters[row][col]),
            ),
            row,
            col + 1,
        ),
{
    let n = height(letters);
    let m = width(letters);
    let g = n + col - row - 1;
    let next = downs.update(g, downs[g].push(letters[row][col]));
    assert forall|d: int| 0 <= d < diagonal_count(letters) implies #[trigger] next[d]
        == down_right(letters, d).take(down_fill(n, m, d, row, col + 1)) by {
        assert(downs[d] == down_right(letters, d).take(down_fill(n, m, d, row, col)));
        assert(next[d] =~= down_right(letters, d).take(down_fill(n, m, d, row, col + 1)));
    }
}

/// Visiting cell `(row, col)` appends its plain letter to row `row` of the
/// overlay.
pub proof fn lemma_overlay_step(
    letters: Seq<Seq<char>>,
    overlay: Seq<Seq<Seq<char>>>,
    row: int,
    col: int,
)
    requires
        rectangular(letters),
        0 <= row < height(letters),
        0 <= col < width(letters),
        overlay_filled(letters, overlay, row, col),
    ensures
        overlay_filled(
            letters,
            overlay.update(row, overlay[row].push(seq![letters[row][col]])),
            row,
            col + 1,
        ),
{
    let next = overlay.update(row, overlay[row].push(seq![letters[row][col]]));
    assert forall|r: int| 0 <= r < height(letters) implies #[trigger] next[r] == plain_row(
        row_at(letters, r, row, col + 1),
    ) by {
        assert(overlay[r] == plain_row(row_at(letters, r, row, col)));
        assert(next[r] =~= plain_row(row_at(letters, r, row, col + 1)));
    }
}

/// The end of a row is the start of the next.
pub proof fn lemma_next_row(
    letters: Seq<Seq<char>>,
    rows: Seq<Seq<char>>,
    cols: Seq<Seq<char>>,
    ups: Seq<Seq<char>>,
    downs: Seq<Seq<char>>,
    overlay: Seq<Seq<Seq<char>>>,
    row: int,
)
    requires
        rectangular(letters),
        0 <= row < height(letters),
        rows_filled(letters, rows, row, width(letters)),
        columns_filled(letters, cols, row, width(letters)),
        ups_filled(letters, ups, row, width(letters)),
        downs_filled(letters, downs, row, width(letters)),
        overlay_filled(letters, overlay, row, width(letters)),
    ensures
        rows_filled(letters, rows, row + 1, 0),
        columns_filled(letters, cols, row + 1, 0),
        ups_filled(letters, ups, row + 1, 0),
        downs_filled(letters, downs, row + 1, 0),
        overlay_filled(letters, overlay, row + 1, 0),
{
    let n = height(letters);
    let m = width(letters);
    assert forall|r: int| 0 <= r < n implies #[trigger] rows[r] == row_at(letters, r, row + 1, 0) by {
        assert(rows[r] == row_at(letters, r, row, m));
        assert(row_at(letters, r, row, m) =~= row_at(letters, r, row + 1, 0));
    }
    assert forall|c: int| 0 <= c < m implies #[trigger] cols[c] == column(letters, c).take(
        column_fill(c, row + 1, 0),
    ) by {
        assert(cols[c] == column(letters, c).take(column_fill(c, row, m)));
    }
    assert forall|d: int| 0 <= d < diagonal_count(letters) implies #[trigger] ups[d] == visited_up(
        letters,
        d,
    ).take(up_fill(n, m, d, row + 1, 0)) by {
        assert(ups[d] == visited_up(letters, d).take(up_fill(n, m, d, row, m)));
        assert(up_fill(n, m, d, row, m) == up_fill(n, m, d, row + 1, 0));
    }
    assert forall|d: int| 0 <= d < diagonal_count(letters) implies #[trigger] downs[d]
        == down_right(letters, d).take(down_fill(n, m, d, row + 1, 0)) by {
        assert(downs[d] == down_right(letters, d).take(down_fill(n, m, d, row, m)));
        assert(down_fill(n, m, d, row, m) == down_fill(n, m, d, row + 1, 0));
    }
    assert forall|r: int| 0 <= r < n implies #[trigger] overlay[r] == plain_row(
        row_at(letters, r, row + 1, 0),
    ) by {
        assert(overlay[r] == plain_row(row_at(letters, r, row, m)));
        assert(row_at(letters, r, row, m) =~= row_at(letters, r, row + 1, 0));
    }
}

/// Once every cell is visited each structure is complete; the up-right
/// diagonals are still in visiting order.
pub proof fn lemma_filled_end(
    letters: Seq<Seq<char>>,
    rows: Seq<Seq<char>>,
    cols: Seq<Seq<char>>,
    ups: Seq<Seq<char>>,
    downs: Seq<Seq<char>>,
    overlay: Seq<Seq<Seq<char>>>,
)
    requires
        rectangular(letters),
        rows_filled(letters, rows, height(letters), 0),
        columns_filled(letters, cols, height(letters), 0),
        ups_filled(letters, ups, height(letters), 0),
        downs_filled(letters, downs, height(letters), 0),
        overlay_filled(letters, overlay, height(letters), 0),
    ensures
        rows == letters,
        cols == columns(letters),
        ups.len() == diagonal_count(letters),
        forall|d: int| 0 <= d < diagonal_count(letters) ==> #[trigger] ups[d] == visited_up(letters, d),
        downs == down_right_diagonals(letters),
        overlay == plain(letters),
{
    let n = height(letters);
    let m = width(letters);
    assert forall|r: int| 0 <= r < n implies #[trigger] rows[r] == letters[r] by {
        assert(rows[r] == row_at(letters, r, n, 0));
    }
    assert(rows =~= letters);
    assert forall|c: int| 0 <= c < m implies #[trigger] cols[c] == columns(letters)[c] by {
        assert(cols[c] == column(letters, c).take(column_fill(c, n, 0)));
        assert(column(letters, c).take(n) =~= column(letters, c));
    }
    assert(cols =~= columns(letters));
    assert forall|d: int| 0 <= d < diagonal_count(letters) implies #[trigger] ups[d] == visited_up(
        letters,
        d,
    ) by {
        assert(ups[d] == visited_up(letters, d).take(up_fill(n, m, d, n, 0)));
        assert(visited_up(letters, d).take(up_fill(n, m, d, n, 0)) =~= visited_up(letters, d));
    }
    assert forall|d: int| 0 <= d < diagonal_count(letters) implies #[trigger] downs[d]
        == down_right_diagonals(letters)[d] by {
        assert(downs[d] == down_right(letters, d).take(down_fill(n, m, d, n, 0)));
        assert(down_right(letters, d).take(down_fill(n, m, d, n, 0)) =~= down_right(letters, d));
    }
    assert(downs =~= down_right_diagonals(letters));
    assert forall|r: int| 0 <= r < n implies #[trigger] overlay[r] == plain(letters)[r] by {
        assert(overlay[r] == plain_row(row_at(letters, r, n, 0)));
    }
    assert(overlay =~= plain(letters));
}

/// Read backwards, the visiting order of an up-right diagonal is its
/// reading order from the lower left end.
pub proof fn lemma_visited_up_reversed(letters: Seq<Seq<char>>, d: int)
    requires
        rectangular(letters),
        0 <= d < diagonal_count(letters),
    ensures
        visited_up(letters, d).reverse() == up_right(letters, d),
{
    assert(visited_up(letters, d).reverse() =~= up_right(letters, d));
}

} // verus!
