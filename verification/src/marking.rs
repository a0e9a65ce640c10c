//! What marking a run of cells does to the overlay.

use crate::color::Color;
use crate::direction::Direction;
use crate::lines::{cell_at, on_run};
use crate::location::Location;
use vstd::prelude::*;

verus! {

/// The text of a marked cell: the colour's escape sequence, the letter, and
/// the escape sequence that resets the colour.
pub open spec fn painted(color: Color, letter: char) -> Seq<char> {
    color.text() + seq![letter] + Color::Reset.text()
}

/// The overlay after the run of `len` cells from `start` in direction `dir`
/// is marked in `color`: every cell of the matrix on the run shows its
/// letter painted, every other cell what it showed before.
pub open spec fn paint(
    letters: Seq<Seq<char>>,
    overlay: Seq<Seq<Seq<char>>>,
    start: Location,
    dir: Direction,
    len: int,
    color: Color,
) -> Seq<Seq<Seq<char>>> {
    Seq::new(
        overlay.len(),
        |r: int|
            Seq::new(
                overlay[r].len(),
                |c: int|
                    if on_run(start, dir, len, r, c) {
                        painted(color, letters[r][c])
                    } else {
                        overlay[r][c]
                    },
            ),
    )
}

/// The cells that show something other than their plain letter.
pub open spec fn marked(letters: Seq<Seq<char>>, overlay: Seq<Seq<Seq<char>>>) -> Set<(int, int)> {
    Set::new(
        |cell: (int, int)|
            0 <= cell.0 < overlay.len() && 0 <= cell.1 < overlay[cell.0].len()
                && overlay[cell.0][cell.1] != seq![letters[cell.0][cell.1]],
    )
}

/// A run of no cells marks nothing.
pub proof fn lemma_paint_nothing(
    letters: Seq<Seq<char>>,
    overlay: Seq<Seq<Seq<char>>>,
    start: Location,
    dir: Direction,
    color: Color,
)
    ensures
        paint(letters, overlay, start, dir, 0, color) == overlay,
{
    let p = paint(letters, overlay, start, dir, 0, color);
    assert forall|r: int| 0 <= r < overlay.len() implies #[trigger] p[r] == overlay[r] by {
        assert(p[r] =~= overlay[r]);
    }
    assert(p =~= overlay);
}

/// A cell of the run that lies outside the overlay marks nothing.
pub proof fn lemma_paint_skip(
    letters: Seq<Seq<char>>,
    overlay: Seq<Seq<Seq<char>>>,
    start: Location,
    dir: Direction,
    len: int,
    color: Color,
)
    requires
        0 <= len,
        forall|r: int|
            0 <= r < overlay.len() ==> !(0 <= cell_at(start, dir, len).1 < (#[trigger] overlay[r]).len()
                && r == cell_at(start, dir, len).0),
    ensures
        paint(letters, overlay, start, dir, len + 1, color) == paint(
            letters,
            overlay,
            start,
            dir,
            len,
            color,
        ),
{
    let so_far = paint(letters, overlay, start, dir, len, color);
    let goal = paint(letters, overlay, start, dir, len + 1, color);
    assert forall|r: int| 0 <= r < overlay.len() implies #[trigger] goal[r] == so_far[r] by {
        assert forall|c: int| 0 <= c < overlay[r].len() implies #[trigger] goal[r][c]
            == so_far[r][c] by {
            if on_run(start, dir, len + 1, r, c) {
                let k = choose|k: int| 0 <= k < len + 1 && #[trigger] cell_at(start, dir, k) == (r, c);
                assert(k < len);
                assert(on_run(start, dir, len, r, c));
            }
            if on_run(start, dir, len, r, c) {
                let k = choose|k: int| 0 <= k < len && #[trigger] cell_at(start, dir, k) == (r, c);
                assert(0 <= k < len + 1 && cell_at(start, dir, k) == (r, c));
            }
        }
        assert(goal[r] =~= so_far[r]);
    }
    assert(goal =~= so_far);
}

/// Marking one cell more is marking the run so far and then overwriting
/// the next cell.
pub proof fn lemma_paint_step(
    letters: Seq<Seq<char>>,
    overlay: Seq<Seq<Seq<char>>>,
    start: Location,
    dir: Direction,
    len: int,
    color: Color,
)
    requires
        0 <= len,
        0 <= cell_at(start, dir, len).0 < overlay.len(),
        0 <= cell_at(start, dir, len).1 < overlay[cell_at(start, dir, len).0].len(),
    ensures
        paint(letters, overlay, start, dir, len + 1, color) == ({
            let so_far = paint(letters, overlay, start, dir, len, color);
            let (r, c) = cell_at(start, dir, len);
            so_far.update(r, so_far[r].update(c, painted(color, letters[r][c])))
        }),
{
    let so_far = paint(letters, overlay, start, dir, len, color);
    let (r0, c0) = cell_at(start, dir, len);
    let next = so_far.update(r0, so_far[r0].update(c0, painted(color, letters[r0][c0])));
    let goal = paint(letters, overlay, start, dir, len + 1, color);
    assert forall|r: int| 0 <= r < overlay.len() implies #[trigger] goal[r] == next[r] by {
        assert forall|c: int| 0 <= c < overlay[r].len() implies #[trigger] goal[r][c]
            == next[r][c] by {
            if on_run(start, dir, len + 1, r, c) {
                let k = choose|k: int| 0 <= k < len + 1 && #[trigger] cell_at(start, dir, k) == (r, c);
                if k < len {
                    assert(on_run(start, dir, len, r, c));
                }
            }
            if on_run(start, dir, len, r, c) {
                let k = choose|k: int| 0 <= k < len && #[trigger] cell_at(start, dir, k) == (r, c);
                assert(0 <= k < len + 1 && cell_at(start, dir, k) == (r, c));
            }
            if (r, c) == (r0, c0) {
                assert(0 <= len < len + 1 && cell_at(start, dir, len) == (r, c));
            }
        }
        assert(goal[r] =~= next[r]);
    }
    assert(goal =~= next);
}

} // verus!
