//! Solving a puzzle: each word of the list is searched and marked in turn,
//! and a line reports what became of it.

use crate::color::{random_color, Color};
use crate::direction::Direction;
use crate::grid::{after_find, Grid, GridView};
use crate::location::Location;
use crate::search::locate;
use crate::text::strings_of;
use vstd::prelude::*;
use vstd::string::*;

verus! {

/// The line that reports a search for `word`: where the word was found, it
/// names the word wrapped in `color`, the reported cell and the direction;
/// otherwise it says that the word was not found.
pub open spec fn report_text(
    word: Seq<char>,
    color: Color,
    found: Option<(Location, Direction)>,
) -> Seq<char> {
    match found {
        Some((start, dir)) => "Found "@ + color.text() + word + Color::Reset.text() + " at "@
            + start.text() + " going "@ + dir.text() + "."@,
        None => "Did not find "@ + word,
    }
}

/// The grid after the first `count` words of `words` were searched and
/// marked in order, each in the colour of the same index.
pub open spec fn solved(
    grid: GridView,
    words: Seq<Seq<char>>,
    colors: Seq<Color>,
    count: int,
) -> GridView
    decreases count,
{
    if count <= 0 {
        grid
    } else {
        after_find(solved(grid, words, colors, count - 1), words[count - 1], colors[count - 1])
    }
}

/// The letters stay as they are however many words are marked.
pub proof fn lemma_solved_letters(
    grid: GridView,
    words: Seq<Seq<char>>,
    colors: Seq<Color>,
    count: int,
)
    ensures
        solved(grid, words, colors, count).letters == grid.letters,
    decreases count,
{
    if count > 0 {
        lemma_solved_letters(grid, words, colors, count - 1);
    }
}

/// The line that reports a search for `word`.
pub fn report(word: &str, color: &Color, found: &Option<(Location, Direction)>) -> (line: String)
    ensures
        line@ == report_text(word@, *color, *found),
{
    match found {
        Some((start, dir)) => {
            let mut line = String::from_str("Found ");
            line.append(color.to_string().as_str());
            line.append(word);
            line.append(Color::Reset.to_string().as_str());
            line.append(" at ");
            line.append(start.to_string().as_str());
            line.append(" going ");
            line.append(dir.to_string().as_str());
            line.append(".");
            line
        },
        None => {
            let mut line = String::from_str("Did not find ");
            line.append(word);
            line
        },
    }
}

/// Searches and marks the words in list order, word `i` in colour `i`, and
/// returns one report line per word, in the same order.
pub fn solve_with(grid: &mut Grid, words: &Vec<String>, colors: &Vec<Color>) -> (lines: Vec<String>)
    requires
        old(grid).wf(),
        colors.len() == words.len(),
    ensures
        final(grid).wf(),
        final(grid)@ == solved(old(grid)@, strings_of(words@), colors@, words.len() as int),
        lines.len() == words.len(),
        forall|i: int|
            0 <= i < words.len() ==> (#[trigger] lines[i])@ == report_text(
                words[i]@,
                colors[i],
                locate(old(grid)@.letters, words[i]@),
            ),
{
    let ghost start = grid@;
    let ghost texts = strings_of(words@);
    let mut lines: Vec<String> = Vec::new();
    let mut i: usize = 0;
    while i < words.len()
        invariant
            i <= words.len(),
            colors.len() == words.len(),
            texts == strings_of(words@),
            grid.wf(),
            grid@ == solved(start, texts, colors@, i as int),
            lines.len() == i,
            forall|j: int|
                0 <= j < i ==> (#[trigger] lines[j])@ == report_text(
                    words[j]@,
                    colors[j],
                    locate(start.letters, words[j]@),
                ),
        decreases words.len() - i,
    {
        proof {
            lemma_solved_letters(start, texts, colors@, i as int);
        }
        let word = words[i].as_str();
        let color = colors[i];
        let found = grid.find_word(word, &color);
        lines.push(report(word, &color, &found));
        i += 1;
    }
    lines
}

/// Colours drawn at random from the palette, one for each of `count` words.
pub fn random_colors(count: usize) -> (colors: Vec<Color>)
    ensures
        colors.len() == count,
        forall|i: int| 0 <= i < count ==> #[trigger] colors[i] != Color::Reset,
{
    let mut colors: Vec<Color> = Vec::new();
    while colors.len() < count
        invariant
            colors.len() <= count,
            forall|i: int| 0 <= i < colors.len() ==> #[trigger] colors[i] != Color::Reset,
        decreases count - colors.len(),
    {
        colors.push(random_color());
    }
    colors
}

/// Searches and marks the words in list order, each in a colour drawn at
/// random from the palette, and returns one report line per word, in the
/// same order.
pub fn solve(grid: &mut Grid, words: &Vec<String>) -> (lines: Vec<String>)
    requires
        old(grid).wf(),
    ensures
        final(grid).wf(),
        lines.len() == words.len(),
        exists|colors: Seq<Color>|
            {
                &&& colors.len() == words.len()
                &&& forall|i: int| 0 <= i < colors.len() ==> #[trigger] colors[i] != Color::Reset
                &&& final(grid)@ == solved(
                    old(grid)@,
                    strings_of(words@),
                    colors,
                    words.len() as int,
                )
                &&& forall|i: int|
                    0 <= i < words.len() ==> (#[trigger] lines[i])@ == report_text(
                        words[i]@,
                        colors[i],
                        locate(old(grid)@.letters, words[i]@),
                    )
            },
{
    let colors = random_colors(words.len());
    solve_with(grid, words, &colors)
}

} // verus!
