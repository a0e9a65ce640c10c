//! The puzzle text: a grid, three line breaks, and a list of words
//! separated by whitespace.

use crate::filling::plain;
use crate::format::{grid_rows, rows_of_text, sections_of, split_sections};
use crate::grid::Grid;
use crate::lines::lines_of;
use crate::runs::sized;
use crate::text::{chars_of, lemma_take_all, lemma_take_next, string_of, strings_of};
use regex::Regex;
use vstd::prelude::*;
use vstd::string::*;

verus! {

/// Why a puzzle text was not accepted.
#[derive(Clone, Copy, Debug, PartialEq, Eq, Structural)]
pub enum PuzzleError {
    /// The grid has no letter, or its rows differ in length.
    MalformedGrid,
    /// No three line breaks follow the grid, so there is no word list.
    NoWordList,
    /// The pattern that separates the words was not accepted.
    Pattern,
}

/// The error with which the `regex` crate refuses a pattern.
#[verifier::external_type_specification]
#[verifier::external_body]
pub struct ExRegexError(regex::Error);

/// The pattern between two words of the list: a run of whitespace.
pub const WORD_GAP: &'static str = "\\s+";

/// Whether `regex::Regex::new` accepts `pattern`: the pattern is well
/// formed and, compiled under the crate's default limits, not too large.
pub uninterp spec fn regex_accepts(pattern: Seq<char>) -> bool;

/// The pieces that `regex::Regex::split` yields for `text`, in order, when
/// the regular expression is compiled from `pattern`.
pub uninterp spec fn regex_split(pattern: Seq<char>, text: Seq<char>) -> Seq<Seq<char>>;

/// Compiles `pattern` with `regex::Regex::new` and splits `text` with
/// `regex::Regex::split`. The outcome is `Ok` exactly where the pattern is
/// accepted; the pieces are then those that the split yields, in its order,
/// each copied into a string. Where the pattern is refused, the crate's
/// error is handed on.
#[verifier::external_body]
fn split_by_pattern(pattern: &str, text: &str) -> (outcome: Result<Vec<String>, regex::Error>)
    ensures
        outcome is Ok <==> regex_accepts(pattern@),
        outcome matches Ok(pieces) ==> strings_of(pieces@) == regex_split(pattern@, text@),
{
    let re = Regex::new(pattern)?;
    Ok(re.split(text).map(String::from).collect())
}

/// The pieces that are not empty, in their order.
pub open spec fn non_empty(pieces: Seq<Seq<char>>) -> Seq<Seq<char>> {
    pieces.filter(|piece: Seq<char>| piece.len() > 0)
}

/// Drops the empty pieces and keeps the others in their order.
pub fn keep_non_empty(pieces: Vec<String>) -> (words: Vec<String>)
    ensures
        strings_of(words@) == non_empty(strings_of(pieces@)),
{
    let ghost all = strings_of(pieces@);
    let mut words: Vec<String> = Vec::new();
    let mut i: usize = 0;
    proof {
        reveal(Seq::filter);
        assert(strings_of(words@) =~= non_empty(all.take(0)));
    }
    while i < pieces.len()
        invariant
            i <= pieces.len(),
            all == strings_of(pieces@),
            strings_of(words@) == non_empty(all.take(i as int)),
        decreases pieces.len() - i,
    {
        proof {
            reveal(Seq::filter);
            lemma_take_next(all, i as int);
        }
        let ghost before = strings_of(words@);
        if !pieces[i].as_str().is_empty() {
            let word = pieces[i].clone();
            words.push(word);
            assert(strings_of(words@) =~= before.push(all[i as int]));
        }
        i += 1;
    }
    proof {
        lemma_take_all(all);
    }
    words
}

/// The word list for what the split of a text gave: the pieces that are not
/// empty where the pattern was accepted, and `PuzzleError::Pattern` where
/// it was refused.
pub fn words_from(outcome: Result<Vec<String>, regex::Error>) -> (r: Result<
    Vec<String>,
    PuzzleError,
>)
    ensures
        match outcome {
            Ok(pieces) => r matches Ok(words) && strings_of(words@) == non_empty(
                strings_of(pieces@),
            ),
            Err(_) => r == Err::<Vec<String>, PuzzleError>(PuzzleError::Pattern),
        },
{
    match outcome {
        Ok(pieces) => Ok(keep_non_empty(pieces)),
        Err(_) => Err(PuzzleError::Pattern),
    }
}

/// The words of a word list: `text` is split at each run of whitespace, and
/// the empty pieces are dropped.
///
/// The words are returned exactly where the pattern for a run of whitespace
/// is accepted, whatever the text.
pub fn get_words(text: &str) -> (r: Result<Vec<String>, PuzzleError>)
    ensures
        r is Ok <==> regex_accepts(WORD_GAP@),
        r matches Ok(words) ==> strings_of(words@) == non_empty(regex_split(WORD_GAP@, text@)),
        r matches Err(e) ==> e == PuzzleError::Pattern,
{
    words_from(split_by_pattern(WORD_GAP, text))
}

/// Whether `rows` is a rectangle of letters with at least one row and one
/// column, of a size that the machine can count.
pub fn is_sized(rows: &Vec<Vec<char>>) -> (b: bool)
    ensures
        b == sized(lines_of(rows@)),
{
    if rows.len() == 0 {
        return false;
    }
    let n_cols = rows[0].len();
    if n_cols == 0 || rows.len() > usize::MAX - n_cols {
        return false;
    }
    let mut r: usize = 0;
    while r < rows.len()
        invariant
            r <= rows.len(),
            rows.len() >= 1,
            n_cols == rows[0].len(),
            forall|i: int| 0 <= i < r ==> (#[trigger] lines_of(rows@)[i]).len() == n_cols,
        decreases rows.len() - r,
    {
        if rows[r].len() != n_cols {
            assert(lines_of(rows@)[r as int].len() != lines_of(rows@)[0].len());
            return false;
        }
        r += 1;
    }
    true
}

fn grid_of(text: &Vec<char>) -> (r: Result<Grid, PuzzleError>)
    ensures
        match r {
            Ok(grid) => {
                &&& sized(rows_of_text(text@))
                &&& grid.wf()
                &&& grid@.letters == rows_of_text(text@)
                &&& grid@.overlay == plain(grid@.letters)
            },
            Err(e) => e == PuzzleError::MalformedGrid && !sized(rows_of_text(text@)),
        },
{
    let rows = grid_rows(text);
    if is_sized(&rows) {
        Ok(Grid::from_rows(&rows))
    } else {
        Err(PuzzleError::MalformedGrid)
    }
}

/// Builds the grid that `text` spells, as `Grid::from_str` does, or refuses
/// a text whose rows are not a rectangle.
pub fn parse_grid(text: &str) -> (r: Result<Grid, PuzzleError>)
    ensures
        match r {
            Ok(grid) => {
                &&& sized(rows_of_text(text@))
                &&& grid.wf()
                &&& grid@.letters == rows_of_text(text@)
                &&& grid@.overlay == plain(grid@.letters)
            },
            Err(e) => e == PuzzleError::MalformedGrid && !sized(rows_of_text(text@)),
        },
{
    let letters = chars_of(text);
    grid_of(&letters)
}

/// Reads a puzzle text. Runs of three line breaks cut it into sections:
/// the first section is the grid text, read as `Grid::from_str` reads it,
/// the second is the word list, read as `get_words` reads it, and further
/// sections are ignored.
///
/// A malformed grid is reported first, then a missing word list.
pub fn parse_puzzle(text: &str) -> (r: Result<(Grid, Vec<String>), PuzzleError>)
    ensures
        ({
            let sections = sections_of(text@);
            let rows = rows_of_text(sections[0]);
            &&& r is Ok <==> sized(rows) && sections.len() >= 2 && regex_accepts(WORD_GAP@)
            &&& match r {
                Ok((grid, words)) => {
                    &&& grid.wf()
                    &&& grid@.letters == rows
                    &&& grid@.overlay == plain(rows)
                    &&& strings_of(words@) == non_empty(regex_split(WORD_GAP@, sections[1]))
                },
                Err(PuzzleError::MalformedGrid) => !sized(rows),
                Err(PuzzleError::NoWordList) => sized(rows) && sections.len() < 2,
                Err(PuzzleError::Pattern) => sized(rows) && sections.len() >= 2 && !regex_accepts(
                    WORD_GAP@,
                ),
            }
        }),
{
    let letters = chars_of(text);
    let sections = split_sections(&letters);
    let grid = match grid_of(&sections[0]) {
        Ok(grid) => grid,
        Err(e) => {
            return Err(e);
        },
    };
    if sections.len() < 2 {
        return Err(PuzzleError::NoWordList);
    }
    let list = string_of(&sections[1]);
    match get_words(list.as_str()) {
        Ok(words) => Ok((grid, words)),
        Err(e) => Err(e),
    }
}

} // verus!
