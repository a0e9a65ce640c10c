use finder::search::{down_right_start, find_in_groups, up_right_start};
use finder::{find_in_group, Color, Direction, Grid, Location};

fn animals() -> Grid {
    Grid::new(vec!["CAT", "DOG", "FOX"])
}

fn steps() -> Grid {
    Grid::new(vec!["ABC", "BCD", "CDE"])
}

fn alphabet() -> Grid {
    Grid::new(vec!["ABC", "DEF", "GHI"])
}

fn offsets(dir: Direction) -> (i64, i64) {
    let (row, column) = dir.offsets();
    (row as i64, column as i64)
}

/// Reads `len` letters of `rows` from `start` in direction `dir`.
fn read_back(rows: &[&str], start: Location, dir: Direction, len: usize) -> String {
    let (row_step, column_step) = offsets(dir);
    let mut out = String::new();
    for k in 0..len as i64 {
        let row = (start.row as i64 + k * row_step) as usize;
        let column = (start.column as i64 + k * column_step) as usize;
        out.push(rows[row].chars().nth(column).unwrap());
    }
    out
}

#[test]
fn word_in_first_row_reads_right() {
    let mut grid = animals();
    let found = grid.find_word("CAT", &Color::Red);
    assert_eq!(found, Some((Location::new(0, 0), Direction::Right)));
    assert_eq!(read_back(&["CAT", "DOG", "FOX"], Location::new(0, 0), Direction::Right, 3), "CAT");
}

#[test]
fn reversed_word_in_row_reads_left() {
    let mut grid = animals();
    let found = grid.find_word("GOD", &Color::Green);
    assert_eq!(found, Some((Location::new(1, 2), Direction::Left)));
}

#[test]
fn word_on_main_diagonal_reads_down_right() {
    let mut grid = steps();
    let found = grid.find_word("ACE", &Color::Cyan);
    assert_eq!(found, Some((Location::new(0, 0), Direction::AngledDownRight)));
}

#[test]
fn absent_word_is_not_found() {
    let mut grid = animals();
    assert_eq!(grid.find_word("ZZZ", &Color::Red), None);
    assert_eq!(grid.locate("ZZZ"), None);
}

#[test]
fn words_in_columns_read_down_and_up() {
    let grid = alphabet();
    assert_eq!(grid.locate("ADG"), Some((Location::new(0, 0), Direction::Down)));
    assert_eq!(grid.locate("GDA"), Some((Location::new(2, 0), Direction::Up)));
    assert_eq!(grid.locate("FI"), Some((Location::new(1, 2), Direction::Down)));
    assert_eq!(grid.locate("HE"), Some((Location::new(2, 1), Direction::Up)));
}

#[test]
fn words_on_down_right_diagonals() {
    let grid = alphabet();
    assert_eq!(grid.locate("EI"), Some((Location::new(1, 1), Direction::AngledDownRight)));
    assert_eq!(grid.locate("IE"), Some((Location::new(2, 2), Direction::AngledUpLeft)));
    assert_eq!(grid.locate("BF"), Some((Location::new(0, 1), Direction::AngledDownRight)));
    assert_eq!(grid.locate("FB"), Some((Location::new(1, 2), Direction::AngledUpLeft)));
    assert_eq!(grid.locate("DH"), Some((Location::new(1, 0), Direction::AngledDownRight)));
    assert_eq!(grid.locate("HD"), Some((Location::new(2, 1), Direction::AngledUpLeft)));
}

#[test]
fn words_on_up_right_diagonals_from_the_row_count_on() {
    let grid = alphabet();
    assert_eq!(grid.locate("HF"), Some((Location::new(2, 1), Direction::AngledUpRight)));
    assert_eq!(grid.locate("FH"), Some((Location::new(1, 2), Direction::AngledDownLeft)));
}

#[test]
fn up_right_diagonal_below_row_count_reports_row_count_less_diagonal() {
    let grid = alphabet();
    // Diagonal 1 holds D, B from its lower left end; the report is row 3 - 1.
    assert_eq!(grid.locate("DB"), Some((Location::new(2, 0), Direction::AngledUpRight)));
    assert_eq!(grid.locate("BD"), Some((Location::new(2, 1), Direction::AngledDownLeft)));
    // Diagonal 2 holds G, E, C; at index 1 the report is the cell of the match.
    assert_eq!(grid.locate("EC"), Some((Location::new(1, 1), Direction::AngledUpRight)));
    assert_eq!(grid.locate("GEC"), Some((Location::new(1, 0), Direction::AngledUpRight)));
}

#[test]
fn rows_win_over_columns_and_diagonals() {
    let grid = Grid::new(vec!["AB", "BA"]);
    // AB stands in row 0, in column 0 and backwards in row 1.
    assert_eq!(grid.locate("AB"), Some((Location::new(0, 0), Direction::Right)));
    // BA stands backwards in row 0 before it stands forwards in row 1.
    assert_eq!(grid.locate("BA"), Some((Location::new(0, 1), Direction::Left)));
    // AA stands only on the main diagonal.
    assert_eq!(grid.locate("AA"), Some((Location::new(0, 0), Direction::AngledDownRight)));
}

#[test]
fn single_letter_and_empty_word() {
    let grid = alphabet();
    assert_eq!(grid.locate("E"), Some((Location::new(1, 1), Direction::Right)));
    assert_eq!(grid.locate(""), Some((Location::new(0, 0), Direction::Right)));
}

#[test]
fn found_words_read_back_in_every_direction() {
    let rows = ["ABCD", "EFGH", "IJKL", "MNOP"];
    let grid = Grid::new(rows.to_vec());
    let words = ["BCD", "HGF", "AEI", "PLH", "FKP", "KFA", "NK", "KN", "CH", "HC", "OL", "LO"];
    for word in words {
        let (start, dir) = grid.locate(word).unwrap();
        assert_eq!(read_back(&rows, start, dir, word.len()), word);
    }
    assert_eq!(grid.locate("BCD"), Some((Location::new(0, 1), Direction::Right)));
    assert_eq!(grid.locate("HGF"), Some((Location::new(1, 3), Direction::Left)));
    assert_eq!(grid.locate("AEI"), Some((Location::new(0, 0), Direction::Down)));
    assert_eq!(grid.locate("PLH"), Some((Location::new(3, 3), Direction::Up)));
    assert_eq!(grid.locate("FKP"), Some((Location::new(1, 1), Direction::AngledDownRight)));
    assert_eq!(grid.locate("KFA"), Some((Location::new(2, 2), Direction::AngledUpLeft)));
    assert_eq!(grid.locate("NK"), Some((Location::new(3, 1), Direction::AngledUpRight)));
    assert_eq!(grid.locate("KN"), Some((Location::new(2, 2), Direction::AngledDownLeft)));
    assert_eq!(grid.locate("CH"), Some((Location::new(0, 2), Direction::AngledDownRight)));
}

#[test]
fn search_is_the_same_after_marking() {
    let mut grid = animals();
    let first = grid.find_word("GOD", &Color::Red);
    let second = grid.find_word("GOD", &Color::LightblueEx);
    assert_eq!(first, second);
    assert_eq!(grid.locate("GOD"), first);
}

#[test]
fn tall_and_wide_grids() {
    let tall = Grid::new(vec!["AB", "CD", "EF", "GH"]);
    assert_eq!(tall.locate("DE"), Some((Location::new(2, 1), Direction::AngledDownLeft)));
    assert_eq!(tall.locate("CF"), Some((Location::new(1, 0), Direction::AngledDownRight)));
    // G, F lie on up-right diagonal 3 of 4 rows: the report is row 4 - 3.
    assert_eq!(tall.locate("GF"), Some((Location::new(1, 0), Direction::AngledUpRight)));
    assert_eq!(tall.locate("BDFH"), Some((Location::new(0, 1), Direction::Down)));
    let wide = Grid::new(vec!["ABCD", "EFGH"]);
    assert_eq!(wide.locate("FC"), Some((Location::new(1, 1), Direction::AngledUpRight)));
    assert_eq!(wide.locate("GD"), Some((Location::new(1, 2), Direction::AngledUpRight)));
    assert_eq!(wide.locate("BG"), Some((Location::new(0, 1), Direction::AngledDownRight)));
    assert_eq!(wide.locate("HC"), Some((Location::new(1, 3), Direction::AngledUpLeft)));
    let one = Grid::new(vec!["X"]);
    assert_eq!(one.locate("X"), Some((Location::new(0, 0), Direction::Right)));
    assert_eq!(one.locate("XX"), None);
}

#[test]
fn scanner_reports_forward_offset() {
    let group = vec!['X', 'C', 'A', 'T'];
    assert_eq!(find_in_group("CAT", &group), Some((1, true)));
}

#[test]
fn scanner_reports_backward_offset_of_first_letter() {
    let group = vec!['X', 'T', 'A', 'C', 'Y'];
    assert_eq!(find_in_group("CAT", &group), Some((3, false)));
}

#[test]
fn scanner_prefers_forward_and_leftmost() {
    let group = vec!['A', 'B', 'A', 'B', 'A'];
    assert_eq!(find_in_group("AB", &group), Some((0, true)));
    assert_eq!(find_in_group("BA", &group), Some((1, true)));
}

#[test]
fn scanner_backward_match_is_leftmost_in_reversed_line() {
    // Reversed: Y C B A X C B A; "CBA" first stands at 1, so the first
    // letter is at 7 - 1 = 6 of the line.
    let group = vec!['A', 'B', 'C', 'X', 'A', 'B', 'C', 'Y'];
    assert_eq!(find_in_group("CBA", &group), Some((6, false)));
}

#[test]
fn scanner_finds_nothing() {
    let group = vec!['A', 'B', 'C'];
    assert_eq!(find_in_group("ABCD", &group), None);
    assert_eq!(find_in_group("CA", &group), None);
}

#[test]
fn scanner_finds_empty_word_at_start() {
    let group = vec!['A', 'B'];
    assert_eq!(find_in_group("", &group), Some((0, true)));
    let nothing: Vec<char> = Vec::new();
    assert_eq!(find_in_group("", &nothing), Some((0, true)));
    assert_eq!(find_in_group("A", &nothing), None);
}

#[test]
fn scanner_counts_letters_not_bytes() {
    let group = vec!['É', 'T', 'É'];
    assert_eq!(find_in_group("TÉ", &group), Some((1, true)));
    assert_eq!(find_in_group("ÉT", &group), Some((0, true)));
}

#[test]
fn first_group_with_a_match_wins() {
    let groups = vec![vec!['A', 'B'], vec!['C', 'D', 'C'], vec!['D', 'C']];
    assert_eq!(find_in_groups("DC", &groups), Some((1, 1, true)));
    assert_eq!(find_in_groups("BA", &groups), Some((0, 1, false)));
    assert_eq!(find_in_groups("AC", &groups), None);
}

#[test]
fn diagonal_reports_follow_their_formulas() {
    assert_eq!(up_right_start(3, 1, 0), Location::new(2, 0));
    assert_eq!(up_right_start(3, 2, 1), Location::new(1, 1));
    assert_eq!(up_right_start(3, 3, 0), Location::new(2, 1));
    assert_eq!(up_right_start(3, 4, 0), Location::new(2, 2));
    assert_eq!(up_right_start(3, 3, 1), Location::new(1, 2));
    assert_eq!(down_right_start(3, 0, 0), Location::new(2, 0));
    assert_eq!(down_right_start(3, 2, 1), Location::new(1, 1));
    assert_eq!(down_right_start(3, 3, 1), Location::new(1, 2));
    assert_eq!(down_right_start(3, 4, 0), Location::new(0, 2));
}
