use finder::color::LAST_PALETTE_INDEX;
use finder::format::{grid_rows, normalize, slice_of, split_on, split_sections, strip_spaces};
use finder::scan::{find_first, find_from};
use finder::text::{chars_of, decimal_string, reversed, string_of};
use finder::{random_color, Color, Direction, Location};

fn letters(s: &str) -> Vec<char> {
    s.chars().collect()
}

fn texts(pieces: &Vec<Vec<char>>) -> Vec<String> {
    pieces.iter().map(|piece| piece.iter().collect()).collect()
}

#[test]
fn directions_are_described() {
    assert_eq!(Direction::Up.to_string(), "UP");
    assert_eq!(Direction::Down.to_string(), "DOWN");
    assert_eq!(Direction::Left.to_string(), "RIGHT to LEFT");
    assert_eq!(Direction::Right.to_string(), "LEFT to RIGHT");
    assert_eq!(Direction::AngledUpRight.to_string(), "UP to the RIGHT");
    assert_eq!(Direction::AngledDownRight.to_string(), "DOWN to the RIGHT");
    assert_eq!(Direction::AngledUpLeft.to_string(), "UP to the LEFT");
    assert_eq!(Direction::AngledDownLeft.to_string(), "DOWN to the LEFT");
}

#[test]
fn directions_step_by_one() {
    assert_eq!(Direction::Up.offsets(), (-1, 0));
    assert_eq!(Direction::Down.offsets(), (1, 0));
    assert_eq!(Direction::Left.offsets(), (0, -1));
    assert_eq!(Direction::Right.offsets(), (0, 1));
    assert_eq!(Direction::AngledUpRight.offsets(), (-1, 1));
    assert_eq!(Direction::AngledDownRight.offsets(), (1, 1));
    assert_eq!(Direction::AngledUpLeft.offsets(), (-1, -1));
    assert_eq!(Direction::AngledDownLeft.offsets(), (1, -1));
}

#[test]
fn location_shows_row_then_column() {
    assert_eq!(Location::new(0, 0).to_string(), "0, 0");
    assert_eq!(Location::new(3, 12).to_string(), "3, 12");
    assert_eq!(Location::new(105, 7).to_string(), "105, 7");
    let loc = Location::new(4, 9);
    assert_eq!(loc.row, 4);
    assert_eq!(loc.column, 9);
}

#[test]
fn colours_are_escape_sequences() {
    assert_eq!(Color::Red.to_string(), "\x1b[31m");
    assert_eq!(Color::Green.to_string(), "\x1b[32m");
    assert_eq!(Color::Yellow.to_string(), "\x1b[33m");
    assert_eq!(Color::Magenta.to_string(), "\x1b[35m");
    assert_eq!(Color::Cyan.to_string(), "\x1b[36m");
    assert_eq!(Color::Reset.to_string(), "\x1b[0m");
    assert_eq!(Color::LightredEx.to_string(), "\x1b[91m");
    assert_eq!(Color::LightgreenEx.to_string(), "\x1b[92m");
    assert_eq!(Color::LightyellowEx.to_string(), "\x1b[93m");
    assert_eq!(Color::LightblueEx.to_string(), "\x1b[94m");
    assert_eq!(Color::LightmagentaEx.to_string(), "\x1b[95m");
    assert_eq!(Color::LightcyanEx.to_string(), "\x1b[96m");
    assert_eq!(Color::Magenta.code(), 35);
}

#[test]
fn palette_has_eleven_colours() {
    assert_eq!(LAST_PALETTE_INDEX, 10);
    assert_eq!(Color::from_index(0), Color::Red);
    assert_eq!(Color::from_index(1), Color::Green);
    assert_eq!(Color::from_index(2), Color::Yellow);
    assert_eq!(Color::from_index(3), Color::Magenta);
    assert_eq!(Color::from_index(4), Color::Cyan);
    assert_eq!(Color::from_index(5), Color::LightredEx);
    assert_eq!(Color::from_index(6), Color::LightgreenEx);
    assert_eq!(Color::from_index(7), Color::LightyellowEx);
    assert_eq!(Color::from_index(8), Color::LightblueEx);
    assert_eq!(Color::from_index(9), Color::LightmagentaEx);
    assert_eq!(Color::from_index(10), Color::LightcyanEx);
    assert_eq!(Color::from_index(11), Color::LightcyanEx);
}

#[test]
fn random_colour_is_of_the_palette() {
    let mut seen = Vec::new();
    for _ in 0..400 {
        let color = random_color();
        assert_ne!(color, Color::Reset);
        assert!((0..=10).any(|i| Color::from_index(i) == color));
        if !seen.contains(&color) {
            seen.push(color);
        }
    }
    assert!(seen.len() > 1);
}

#[test]
fn numbers_in_decimal() {
    assert_eq!(decimal_string(0), "0");
    assert_eq!(decimal_string(7), "7");
    assert_eq!(decimal_string(10), "10");
    assert_eq!(decimal_string(96), "96");
    assert_eq!(decimal_string(12345), "12345");
    assert_eq!(decimal_string(1000), "1000");
}

#[test]
fn strings_and_letters_convert() {
    assert_eq!(chars_of("CÄT"), vec!['C', 'Ä', 'T']);
    assert_eq!(chars_of(""), Vec::<char>::new());
    assert_eq!(string_of(&vec!['D', 'O', 'G']), "DOG");
    assert_eq!(reversed(&vec!['D', 'O', 'G']), vec!['G', 'O', 'D']);
    assert_eq!(reversed(&Vec::new()), Vec::<char>::new());
}

#[test]
fn first_occurrence_from_an_offset() {
    let line = letters("ABCABC");
    assert_eq!(find_first(&letters("BC"), &line), Some(1));
    assert_eq!(find_from(&letters("BC"), &line, 1), Some(1));
    assert_eq!(find_from(&letters("BC"), &line, 2), Some(4));
    assert_eq!(find_from(&letters("BC"), &line, 5), None);
    assert_eq!(find_from(&letters(""), &line, 6), Some(6));
    assert_eq!(find_first(&letters("ABCABCA"), &line), None);
}

#[test]
fn spaces_are_stripped() {
    assert_eq!(strip_spaces(&letters(" A B  C ")), letters("ABC"));
    assert_eq!(strip_spaces(&letters("A\tB")), letters("A\tB"));
    assert_eq!(strip_spaces(&letters("   ")), letters(""));
}

#[test]
fn line_breaks_become_line_feeds() {
    assert_eq!(normalize(&letters("A\r\nB\nC")), letters("A\nB\nC"));
    assert_eq!(normalize(&letters("A\rB")), letters("A\rB"));
    assert_eq!(normalize(&letters("A\r\r\nB")), letters("A\r\nB"));
    assert_eq!(normalize(&letters("\r\n\r\n")), letters("\n\n"));
    assert_eq!(normalize(&letters("\n\r")), letters("\n\r"));
    assert_eq!(normalize(&letters("")), letters(""));
}

#[test]
fn split_finds_separators_left_to_right() {
    assert_eq!(texts(&split_on(&letters("A,B,C"), &letters(","))), vec!["A", "B", "C"]);
    assert_eq!(texts(&split_on(&letters(",A,"), &letters(","))), vec!["", "A", ""]);
    assert_eq!(texts(&split_on(&letters("ABC"), &letters(","))), vec!["ABC"]);
    assert_eq!(texts(&split_on(&letters(""), &letters(","))), vec![""]);
    assert_eq!(texts(&split_on(&letters("AxxxxB"), &letters("xxx"))), vec!["A", "xB"]);
    assert_eq!(texts(&split_on(&letters("AxxxxxxB"), &letters("xxx"))), vec!["A", "", "B"]);
}

#[test]
fn slices_copy_a_range() {
    assert_eq!(slice_of(&letters("ABCDE"), 1, 4), letters("BCD"));
    assert_eq!(slice_of(&letters("ABCDE"), 2, 2), letters(""));
}

#[test]
fn grid_text_gives_rows() {
    assert_eq!(texts(&grid_rows(&letters("C A T\r\nDOG\nF OX"))), vec!["CAT", "DOG", "FOX"]);
    assert_eq!(texts(&grid_rows(&letters("CAT\n"))), vec!["CAT", ""]);
    assert_eq!(texts(&grid_rows(&letters("C\r \nD"))), vec!["C", "D"]);
}

#[test]
fn sections_are_cut_at_three_line_breaks() {
    assert_eq!(texts(&split_sections(&letters("G\r\n\r\n\r\nW"))), vec!["G", "W"]);
    assert_eq!(texts(&split_sections(&letters("G\n\n\nW"))), vec!["G", "W"]);
    assert_eq!(texts(&split_sections(&letters("G\n\r\n\nW"))), vec!["G", "W"]);
    assert_eq!(texts(&split_sections(&letters("G\r\n\n\nW\n\n\nX"))), vec!["G", "W", "X"]);
    assert_eq!(texts(&split_sections(&letters("G\n\nW"))), vec!["G\n\nW"]);
    assert_eq!(texts(&split_sections(&letters(""))), vec![""]);
    assert_eq!(texts(&split_sections(&letters("\n\n\n"))), vec!["", ""]);
}

#[test]
fn sections_keep_their_own_text() {
    // A carriage return that no line feed follows stays in its section.
    assert_eq!(texts(&split_sections(&letters("G\r\r\n\r\n\r\nW"))), vec!["G\r", "W"]);
    // Line breaks within a section are left as they are.
    assert_eq!(
        texts(&split_sections(&letters("A\r\nB\r\n\r\n\r\nC\r\nD"))),
        vec!["A\r\nB", "C\r\nD"]
    );
    // A fourth line break starts the next section.
    assert_eq!(texts(&split_sections(&letters("G\n\n\n\nW"))), vec!["G", "\nW"]);
    assert_eq!(
        texts(&split_sections(&letters("G\r\n\r\n\r\n\r\n\r\n\r\nW"))),
        vec!["G", "", "W"]
    );
}
