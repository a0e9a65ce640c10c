//! A word-search solver.
//!
//! A puzzle is a rectangular grid of letters and a list of words. The grid
//! is indexed by its rows, its columns and both families of diagonals; a
//! word is looked for in each of these lines, forwards and backwards, and
//! the first line that holds it decides the cell and the direction that are
//! reported. Found words are marked in an overlay of the grid.
//!
//! - [`scan`]: finding a word in one line.
//! - [`lines`], [`runs`]: the lines of a letter matrix, and how they
//!   correspond to runs of cells.
//! - [`search`]: the order of the search and what it reports.
//! - [`grid`], [`filling`], [`marking`], [`render`]: the grid, how it is
//!   built and marked, and how it is shown.
//! - [`format`], [`puzzle`]: the puzzle text.
//! - [`solve`]: searching a word list and reporting on each word.
//! - [`laws`]: what holds of every search.

pub mod color;
pub mod direction;
pub mod filling;
pub mod format;
pub mod grid;
pub mod laws;
pub mod lines;
pub mod location;
pub mod marking;
pub mod puzzle;
pub mod render;
pub mod runs;
pub mod scan;
pub mod search;
pub mod solve;
pub mod text;

pub use color::{random_color, Color};
pub use direction::Direction;
pub use grid::{Grid, GridView};
pub use location::Location;
pub use puzzle::{get_words, parse_grid, parse_puzzle, PuzzleError};
pub use scan::find_in_group;
pub use solve::{report, solve, solve_with};
