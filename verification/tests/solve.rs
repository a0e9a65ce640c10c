use finder::{report, solve, solve_with, Color, Direction, Grid, Location};

fn owned(words: &[&str]) -> Vec<String> {
    words.iter().map(|word| word.to_string()).collect()
}

#[test]
fn found_word_is_reported() {
    let found = Some((Location::new(0, 0), Direction::Right));
    assert_eq!(
        report("CAT", &Color::Red, &found),
        "Found \x1b[31mCAT\x1b[0m at 0, 0 going LEFT to RIGHT."
    );
    let found = Some((Location::new(10, 2), Direction::AngledDownLeft));
    assert_eq!(
        report("GOD", &Color::LightcyanEx, &found),
        "Found \x1b[96mGOD\x1b[0m at 10, 2 going DOWN to the LEFT."
    );
}

#[test]
fn missing_word_is_reported() {
    assert_eq!(report("ZZZ", &Color::Red, &None), "Did not find ZZZ");
}

#[test]
fn absent_word_gives_the_did_not_find_line() {
    let mut grid = Grid::new(vec!["CAT", "DOG", "FOX"]);
    let found = grid.find_word("ZZZ", &Color::Green);
    assert_eq!(found, None);
    assert_eq!(report("ZZZ", &Color::Green, &found), "Did not find ZZZ");
}

#[test]
fn word_list_is_reported_in_order() {
    let mut grid = Grid::new(vec!["CAT", "DOG", "FOX"]);
    let words = owned(&["CAT", "DOG"]);
    let lines = solve_with(&mut grid, &words, &vec![Color::Red, Color::Green]);
    assert_eq!(
        lines,
        vec![
            "Found \x1b[31mCAT\x1b[0m at 0, 0 going LEFT to RIGHT.",
            "Found \x1b[32mDOG\x1b[0m at 1, 0 going LEFT to RIGHT.",
        ]
    );
    assert_eq!(
        grid.show_solve(),
        "\x1b[31mC\x1b[0m \x1b[31mA\x1b[0m \x1b[31mT\x1b[0m \n\x1b[32mD\x1b[0m \x1b[32mO\x1b[0m \x1b[32mG\x1b[0m \nF O X \n"
    );
}

#[test]
fn word_list_with_random_colours() {
    let mut grid = Grid::new(vec!["CAT", "DOG", "FOX"]);
    let words = owned(&["CAT", "ZZZ", "DOG"]);
    let lines = solve(&mut grid, &words);
    assert_eq!(lines.len(), 3);
    assert!(lines[0].starts_with("Found \x1b["));
    assert!(lines[0].ends_with("mCAT\x1b[0m at 0, 0 going LEFT to RIGHT."));
    assert_eq!(lines[1], "Did not find ZZZ");
    assert!(lines[2].starts_with("Found \x1b["));
    assert!(lines[2].ends_with("mDOG\x1b[0m at 1, 0 going LEFT to RIGHT."));
    assert!(!lines[0].starts_with("Found \x1b[0m"));
}

#[test]
fn later_words_overwrite_earlier_marks() {
    let mut grid = Grid::new(vec!["AB", "CD"]);
    let words = owned(&["AB", "AC"]);
    let lines = solve_with(&mut grid, &words, &vec![Color::Red, Color::Cyan]);
    assert_eq!(lines.len(), 2);
    assert_eq!(
        grid.show_solve(),
        "\x1b[36mA\x1b[0m \x1b[31mB\x1b[0m \n\x1b[36mC\x1b[0m D \n"
    );
}

#[test]
fn no_words_no_lines() {
    let mut grid = Grid::new(vec!["AB", "CD"]);
    let lines = solve(&mut grid, &owned(&[]));
    assert_eq!(lines.len(), 0);
    assert_eq!(grid.show_solve(), "A B \nC D \n");
}
