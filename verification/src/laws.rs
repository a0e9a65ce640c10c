//! What holds of every search: which words are found, where they are
//! reported, and what a find leaves behind.

use crate::color::Color;
use crate::direction::Direction;
use crate::format::{
    break_len, first_gap, gap_len, lemma_first_gap, lemma_first_gap_is, sections_of,
};
use crate::grid::{after_find, GridView};
use crate::lines::{height, on_run, reads};
use crate::location::Location;
use crate::marking::{marked, painted};
use crate::runs::{
    family_lines, in_some_line, is_hit, lemma_hit_reads, lemma_run_in_line, location_of, present,
    sized,
};
use crate::scan::{lemma_scan, occurs};
use crate::search::{
    first_match, hit_in, lands_on_match, lemma_first_hit, locate, matched_cell, reported_cell,
    reported_direction, Family, Hit,
};
use vstd::prelude::*;

verus! {

/// `word` stands in no row, column or diagonal of the matrix, read in
/// either orientation.
pub open spec fn absent(letters: Seq<Seq<char>>, word: Seq<char>) -> bool {
    forall|family: Family, g: int|
        0 <= g < family_lines(letters, family).len() ==> {
            &&& !occurs(word, #[trigger] family_lines(letters, family)[g])
            &&& !occurs(word, family_lines(letters, family)[g].reverse())
        }
}

/// The match that the search settles on is a report of the scanner for a
/// line of the matrix, and there is none where no line holds the word.
pub proof fn lemma_first_match(letters: Seq<Seq<char>>, word: Seq<char>)
    ensures
        match first_match(letters, word) {
            Some(hit) => is_hit(letters, word, hit),
            None => !in_some_line(letters, word),
        },
{
    lemma_first_hit(family_lines(letters, Family::Rows), word);
    lemma_first_hit(family_lines(letters, Family::Columns), word);
    lemma_first_hit(family_lines(letters, Family::UpRight), word);
    lemma_first_hit(family_lines(letters, Family::DownRight), word);
    if first_match(letters, word) is None {
        assert forall|family: Family, g: int| !hit_in(family_lines(letters, family), word, g) by {
            match family {
                Family::Rows => {},
                Family::Columns => {},
                Family::UpRight => {},
                Family::DownRight => {},
            }
        }
    }
}

/// Round trip. A word that can be read somewhere in the grid, in any of the
/// eight directions, is found, and reading as many cells as the word has
/// letters from the reported cell in the reported direction gives the word
/// again.
///
/// This is stated of every search but those that settle on a match on an
/// up-right diagonal with an index `d` below the row count `n`, at an index
/// other than `2 * d - n`: there the reported cell is not the cell on which
/// the match begins, as `law_report_lands_on_match` shows.
pub proof fn law_found_word_reads_back(letters: Seq<Seq<char>>, word: Seq<char>)
    requires
        sized(letters),
        present(letters, word),
        first_match(letters, word) matches Some(hit) ==> !(hit.family == Family::UpRight
            && hit.group < height(letters) && hit.at != 2 * hit.group - height(letters)),
    ensures
        locate(letters, word) matches Some((start, dir)) && reads(letters, start, dir, word),
{
    let (start, dir) = choose|start: Location, dir: Direction| reads(letters, start, dir, word);
    lemma_run_in_line(letters, start, dir, word);
    lemma_first_match(letters, word);
    let hit = first_match(letters, word)->0;
    lemma_hit_reads(letters, word, hit);
}

/// A word that can be read somewhere in the grid is always found, and it
/// can be read from the cell on which its match begins, in the reported
/// direction.
pub proof fn law_present_word_is_found(letters: Seq<Seq<char>>, word: Seq<char>)
    requires
        sized(letters),
        present(letters, word),
    ensures
        locate(letters, word) is Some,
        first_match(letters, word) matches Some(hit) && reads(
            letters,
            location_of(matched_cell(height(letters), hit)),
            reported_direction(hit),
            word,
        ),
{
    let (start, dir) = choose|start: Location, dir: Direction| reads(letters, start, dir, word);
    lemma_run_in_line(letters, start, dir, word);
    lemma_first_match(letters, word);
    lemma_hit_reads(letters, word, first_match(letters, word)->0);
}

/// The reported cell is the cell on which the match begins for every match
/// in a row, in a column, on a down-right diagonal, and on an up-right
/// diagonal whose index is the row count or more. On an up-right diagonal
/// with an index `d` below the row count `n` it is so at index `2 * d - n`
/// only; at any other index the reported cell lies in another row.
pub proof fn law_report_lands_on_match(n: int, hit: Hit)
    ensures
        lands_on_match(n, hit) <==> (hit.family == Family::UpRight && hit.group < n ==> hit.at
            == 2 * hit.group - n),
        !lands_on_match(n, hit) ==> reported_cell(n, hit).0 != matched_cell(n, hit).0,
{
}

/// A word is found exactly when it stands in a row, a column or a diagonal,
/// in either orientation; in a grid, that is exactly when it can be read
/// somewhere in one of the eight directions. A word that is absent is not
/// found.
pub proof fn law_absent_word_is_not_found(letters: Seq<Seq<char>>, word: Seq<char>)
    ensures
        absent(letters, word) <==> locate(letters, word) is None,
        sized(letters) ==> (present(letters, word) <==> locate(letters, word) is Some),
{
    lemma_first_match(letters, word);
    if absent(letters, word) {
        if let Some(hit) = first_match(letters, word) {
            lemma_scan(word, family_lines(letters, hit.family)[hit.group]);
        }
    }
    if locate(letters, word) is None {
        assert forall|family: Family, g: int|
            0 <= g < family_lines(letters, family).len() implies {
            &&& !occurs(word, #[trigger] family_lines(letters, family)[g])
            &&& !occurs(word, family_lines(letters, family)[g].reverse())
        } by {
            assert(!hit_in(family_lines(letters, family), word, g));
            lemma_scan(word, family_lines(letters, family)[g]);
        }
    }
    if sized(letters) {
        if present(letters, word) {
            law_present_word_is_found(letters, word);
        }
        if let Some(hit) = first_match(letters, word) {
            lemma_hit_reads(letters, word, hit);
        }
    }
}

/// Three line breaks in a row, each a carriage return and a line feed, or
/// each a line feed alone.
pub open spec fn is_gap_text(sep: Seq<char>) -> bool {
    sep == seq!['\r', '\n', '\r', '\n', '\r', '\n'] || sep == seq!['\n', '\n', '\n']
}

/// A line break that starts inside a text which does not end in one starts
/// and ends inside it, whatever follows the text.
proof fn lemma_break_inside(text: Seq<char>, rest: Seq<char>, i: int)
    requires
        0 <= i < text.len(),
        text.last() != '\n',
        rest.len() > 0 && rest[0] == '\n' ==> text.last() != '\r',
    ensures
        break_len(text + rest, i) == break_len(text, i),
        break_len(text, i) > 0 ==> i + break_len(text, i) < text.len(),
{
    let whole = text + rest;
    assert(whole[i] == text[i]);
    if i + 1 < text.len() {
        assert(whole[i + 1] == text[i + 1]);
    } else if rest.len() > 0 {
        assert(whole[i + 1] == rest[0]);
    }
}

/// A text made of a grid text, three line breaks and a word list has
/// exactly these two sections, provided that neither part holds three line
/// breaks in a row and the grid text does not end in a line break.
///
/// The grid is then read from the grid text as `Grid::from_str` reads it,
/// and the words from the word list as `get_words` reads it.
pub proof fn law_grid_then_words(grid_text: Seq<char>, sep: Seq<char>, list: Seq<char>)
    requires
        is_gap_text(sep),
        first_gap(grid_text) is None,
        grid_text.len() > 0 ==> grid_text.last() != '\n' && (sep[0] == '\n' ==> grid_text.last()
            != '\r'),
        first_gap(list) is None,
    ensures
        sections_of(grid_text + sep + list) == seq![grid_text, list],
{
    let tail = sep + list;
    let whole = grid_text + sep + list;
    let n = grid_text.len() as int;
    assert(whole =~= grid_text + tail);
    lemma_first_gap(grid_text);
    lemma_first_gap(list);
    assert forall|j: int| 0 <= j < n implies gap_len(whole, j) == 0 by {
        assert(gap_len(grid_text, j) == 0);
        lemma_break_inside(grid_text, tail, j);
        let first = break_len(grid_text, j);
        if first > 0 {
            lemma_break_inside(grid_text, tail, j + first);
            let second = break_len(grid_text, j + first);
            if second > 0 {
                lemma_break_inside(grid_text, tail, j + first + second);
            }
        }
    }
    assert forall|k: int| 0 <= k < sep.len() implies whole[n + k] == sep[k] by {}
    assert(gap_len(whole, n) == sep.len());
    lemma_first_gap_is(whole, n);
    assert(whole.take(n) =~= grid_text);
    assert(whole.skip(n + sep.len()) =~= list);
    assert(sections_of(list) =~= seq![list]);
    assert(sections_of(whole) =~= seq![grid_text, list]);
}

/// Searching for the same word again after a find reports the same cell and
/// direction: a find leaves the letters as they are, and the search reads
/// nothing else.
pub proof fn law_search_is_repeatable(grid: GridView, word: Seq<char>, color: Color)
    ensures
        after_find(grid, word, color).letters == grid.letters,
        locate(after_find(grid, word, color).letters, word) == locate(grid.letters, word),
{
}

/// A marked cell never shows its plain letter.
pub proof fn lemma_painted_differs(color: Color, letter: char)
    ensures
        painted(color, letter) != seq![letter],
{
    assert(painted(color, letter).len() >= 2);
}

/// Finding the same word a second time, in whatever colour, marks the same
/// set of cells as finding it once.
pub proof fn law_refinding_marks_same_cells(
    grid: GridView,
    word: Seq<char>,
    first: Color,
    second: Color,
)
    ensures
        ({
            let once = after_find(grid, word, first);
            let twice = after_find(once, word, second);
            marked(twice.letters, twice.overlay) == marked(once.letters, once.overlay)
        }),
{
    let once = after_find(grid, word, first);
    let twice = after_find(once, word, second);
    assert forall|cell: (int, int)|
        marked(twice.letters, twice.overlay).contains(cell) == marked(
            once.letters,
            once.overlay,
        ).contains(cell) by {
        lemma_painted_differs(first, grid.letters[cell.0][cell.1]);
        lemma_painted_differs(second, grid.letters[cell.0][cell.1]);
    }
    assert(marked(twice.letters, twice.overlay) =~= marked(once.letters, once.overlay));
}

/// A find marks the cells of the word's run and unmarks none.
pub proof fn law_find_marks_the_run(grid: GridView, word: Seq<char>, color: Color, r: int, c: int)
    requires
        0 <= r < grid.overlay.len(),
        0 <= c < grid.overlay[r].len(),
    ensures
        ({
            let after = after_find(grid, word, color);
            marked(after.letters, after.overlay).contains((r, c)) <==> {
                ||| marked(grid.letters, grid.overlay).contains((r, c))
                ||| locate(grid.letters, word) matches Some((start, dir)) && on_run(
                    start,
                    dir,
                    word.len() as int,
                    r,
                    c,
                )
            }
        }),
{
    lemma_painted_differs(color, grid.letters[r][c]);
}

} // verus!
