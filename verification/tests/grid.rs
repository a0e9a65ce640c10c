use finder::{Color, Direction, Grid, Location};

const RED: &str = "\x1b[31m";
const GREEN: &str = "\x1b[32m";
const RESET: &str = "\x1b[0m";

fn red(letter: char) -> String {
    format!("{}{}{}", RED, letter, RESET)
}

fn green(letter: char) -> String {
    format!("{}{}{}", GREEN, letter, RESET)
}

/// The cells of a shown grid: rows are lines, cells end with a space.
fn cells(shown: &str) -> Vec<Vec<String>> {
    shown
        .lines()
        .map(|line| {
            let mut row: Vec<String> = line.split(' ').map(|cell| cell.to_string()).collect();
            row.pop();
            row
        })
        .collect()
}

/// The cells that do not show a single plain letter.
fn marked(shown: &str) -> Vec<(usize, usize)> {
    let mut out = Vec::new();
    for (r, row) in cells(shown).iter().enumerate() {
        for (c, cell) in row.iter().enumerate() {
            if cell.chars().count() != 1 {
                out.push((r, c));
            }
        }
    }
    out
}

#[test]
fn puzzle_shows_letters_with_spaces() {
    let grid = Grid::new(vec!["CAT", "DOG", "FOX"]);
    assert_eq!(grid.show_grid(), "C A T \nD O G \nF O X \n");
}

#[test]
fn solution_starts_plain() {
    let grid = Grid::new(vec!["CAT", "DOG", "FOX"]);
    assert_eq!(grid.show_solve(), "C A T \nD O G \nF O X \n");
    assert_eq!(grid.show_solve(), grid.show_grid());
}

#[test]
fn found_word_is_wrapped_in_colour() {
    let mut grid = Grid::new(vec!["CAT", "DOG", "FOX"]);
    grid.find_word("CAT", &Color::Red);
    let expected = format!("{} {} {} \nD O G \nF O X \n", red('C'), red('A'), red('T'));
    assert_eq!(grid.show_solve(), expected);
    assert_eq!(grid.show_grid(), "C A T \nD O G \nF O X \n");
}

#[test]
fn absent_word_marks_nothing() {
    let mut grid = Grid::new(vec!["CAT", "DOG", "FOX"]);
    grid.find_word("ZZZ", &Color::Red);
    assert_eq!(grid.show_solve(), "C A T \nD O G \nF O X \n");
}

#[test]
fn later_word_overwrites_shared_cell() {
    let mut grid = Grid::new(vec!["CAT", "DOG", "FOX"]);
    grid.find_word("DOG", &Color::Red);
    grid.find_word("AOO", &Color::Green);
    let expected = format!(
        "C {} T \n{} {} {} \nF {} X \n",
        green('A'),
        red('D'),
        green('O'),
        red('G'),
        green('O')
    );
    assert_eq!(grid.show_solve(), expected);
}

#[test]
fn finding_again_marks_the_same_cells() {
    let mut grid = Grid::new(vec!["CAT", "DOG", "FOX"]);
    grid.find_word("GOD", &Color::Red);
    let once = marked(&grid.show_solve());
    grid.find_word("GOD", &Color::LightcyanEx);
    let twice = marked(&grid.show_solve());
    assert_eq!(once, vec![(1, 0), (1, 1), (1, 2)]);
    assert_eq!(once, twice);
}

#[test]
fn highlight_walks_each_direction() {
    let all = [
        (Direction::Up, vec![(0, 1), (1, 1)]),
        (Direction::Down, vec![(1, 1), (2, 1)]),
        (Direction::Left, vec![(1, 0), (1, 1)]),
        (Direction::Right, vec![(1, 1), (1, 2)]),
        (Direction::AngledUpRight, vec![(0, 2), (1, 1)]),
        (Direction::AngledDownRight, vec![(1, 1), (2, 2)]),
        (Direction::AngledUpLeft, vec![(0, 0), (1, 1)]),
        (Direction::AngledDownLeft, vec![(1, 1), (2, 0)]),
    ];
    for (dir, expected) in all {
        let mut grid = Grid::new(vec!["ABC", "DEF", "GHI"]);
        let start = Location::new(1, 1);
        grid.highlight(&start, &dir, 2, &Color::Yellow);
        assert_eq!(marked(&grid.show_solve()), expected);
    }
}

#[test]
fn highlight_of_no_cells_changes_nothing() {
    let mut grid = Grid::new(vec!["AB", "CD"]);
    grid.highlight(&Location::new(7, 7), &Direction::Up, 0, &Color::Red);
    assert_eq!(grid.show_solve(), "A B \nC D \n");
}

#[test]
fn highlight_passes_over_cells_outside_the_grid() {
    let mut grid = Grid::new(vec!["ABC", "DEF", "GHI"]);
    grid.highlight(&Location::new(1, 0), &Direction::AngledUpRight, 3, &Color::Red);
    assert_eq!(marked(&grid.show_solve()), vec![(0, 1), (1, 0)]);
    let mut grid = Grid::new(vec!["ABC", "DEF", "GHI"]);
    grid.highlight(&Location::new(4, 1), &Direction::Up, 4, &Color::Red);
    assert_eq!(marked(&grid.show_solve()), vec![(1, 1), (2, 1)]);
    let mut grid = Grid::new(vec!["ABC", "DEF", "GHI"]);
    grid.highlight(&Location::new(0, usize::MAX), &Direction::Right, 3, &Color::Red);
    grid.highlight(&Location::new(0, 5), &Direction::AngledDownRight, 3, &Color::Red);
    assert_eq!(marked(&grid.show_solve()), Vec::new());
}

#[test]
fn off_match_report_marks_the_reported_run() {
    let mut grid = Grid::new(vec!["ABC", "DEF", "GHI"]);
    let found = grid.find_word("DB", &Color::Red);
    assert_eq!(found, Some((Location::new(2, 0), Direction::AngledUpRight)));
    assert_eq!(marked(&grid.show_solve()), vec![(1, 1), (2, 0)]);
    // The run reported for GEC starts at D and leaves the grid after B.
    let mut grid = Grid::new(vec!["ABC", "DEF", "GHI"]);
    let found = grid.find_word("GEC", &Color::Red);
    assert_eq!(found, Some((Location::new(1, 0), Direction::AngledUpRight)));
    assert_eq!(marked(&grid.show_solve()), vec![(0, 1), (1, 0)]);
}

#[test]
fn grid_from_text_with_line_feeds() {
    let mut grid = Grid::from_str("CAT\nDOG\nFOX");
    assert_eq!(grid.show_grid(), "C A T \nD O G \nF O X \n");
    assert_eq!(grid.find_word("CAT", &Color::Red), Some((Location::new(0, 0), Direction::Right)));
    assert_eq!(grid.find_word("GOD", &Color::Red), Some((Location::new(1, 2), Direction::Left)));
    assert_eq!(grid.find_word("ZZZ", &Color::Red), None);
}

#[test]
fn grid_from_text_with_carriage_returns() {
    let grid = Grid::from_str("CAT\r\nDOG\r\nFOX");
    assert_eq!(grid.show_grid(), "C A T \nD O G \nF O X \n");
    assert_eq!(grid.locate("TGX"), Some((Location::new(0, 2), Direction::Down)));
}

#[test]
fn grid_from_text_skips_spaces() {
    let grid = Grid::from_str("C A T\r\n D O G \r\nFOX");
    assert_eq!(grid.show_grid(), "C A T \nD O G \nF O X \n");
}

#[test]
fn grid_from_text_of_steps() {
    let grid = Grid::from_str("ABC\nBCD\nCDE");
    assert_eq!(grid.locate("ACE"), Some((Location::new(0, 0), Direction::AngledDownRight)));
}

#[test]
fn grid_from_rows_of_letters() {
    let rows = vec![vec!['A', 'B'], vec!['C', 'D']];
    let grid = Grid::from_rows(&rows);
    assert_eq!(grid.show_grid(), "A B \nC D \n");
    assert_eq!(grid.locate("CB"), Some((Location::new(1, 0), Direction::AngledUpRight)));
}

#[test]
fn letters_beyond_ascii_count_as_one_cell() {
    let mut grid = Grid::new(vec!["ÄB", "CÖ"]);
    assert_eq!(grid.show_grid(), "Ä B \nC Ö \n");
    assert_eq!(grid.locate("B"), Some((Location::new(0, 1), Direction::Right)));
    assert_eq!(grid.find_word("ÄÖ", &Color::Red), Some((Location::new(0, 0), Direction::AngledDownRight)));
    assert_eq!(marked(&grid.show_solve()), vec![(0, 0), (1, 1)]);
}

#[test]
fn single_row_and_single_column_grids() {
    let row = Grid::new(vec!["CAT"]);
    assert_eq!(row.locate("TAC"), Some((Location::new(0, 2), Direction::Left)));
    assert_eq!(row.locate("AT"), Some((Location::new(0, 1), Direction::Right)));
    let column = Grid::new(vec!["C", "A", "T"]);
    assert_eq!(column.locate("CAT"), Some((Location::new(0, 0), Direction::Down)));
    assert_eq!(column.locate("TA"), Some((Location::new(2, 0), Direction::Up)));
    assert_eq!(column.show_grid(), "C \nA \nT \n");
}
