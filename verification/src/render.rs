//! The text in which a grid is shown: each cell followed by a space, each
//! row followed by a line feed.

use crate::text::lemma_take_next;
use vstd::prelude::*;
use vstd::string::*;

verus! {

/// One row as text: each cell's text followed by a space.
pub open spec fn render_row(cells: Seq<Seq<char>>) -> Seq<char>
    decreases cells.len(),
{
    if cells.len() == 0 {
        Seq::empty()
    } else {
        render_row(cells.drop_last()) + cells.last() + seq![' ']
    }
}

/// All rows as text: each row's text followed by a line feed.
pub open spec fn render(rows: Seq<Seq<Seq<char>>>) -> Seq<char>
    decreases rows.len(),
{
    if rows.len() == 0 {
        Seq::empty()
    } else {
        render(rows.drop_last()) + render_row(rows.last()) + seq!['\n']
    }
}

/// The text of the first `k + 1` cells is the text of the first `k`, then
/// cell `k`, then a space.
pub proof fn lemma_render_row_next(cells: Seq<Seq<char>>, k: int)
    requires
        0 <= k < cells.len(),
    ensures
        render_row(cells.take(k + 1)) == render_row(cells.take(k)) + cells[k] + seq![' '],
{
    lemma_take_next(cells, k);
}

/// The text of the first `k + 1` rows is the text of the first `k`, then
/// row `k`, then a line feed.
pub proof fn lemma_render_next(rows: Seq<Seq<Seq<char>>>, k: int)
    requires
        0 <= k < rows.len(),
    ensures
        render(rows.take(k + 1)) == render(rows.take(k)) + render_row(rows[k]) + seq!['\n'],
{
    lemma_take_next(rows, k);
}

} // verus!
