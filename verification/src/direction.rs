//! The eight directions in which a word may run.

use vstd::prelude::*;
use vstd::string::*;

verus! {

/// A direction of reading. `Up` is towards row zero, `Left` towards column
/// zero.
#[derive(Clone, Copy, Debug, PartialEq, Eq, Structural)]
pub enum Direction {
    Up,
    Down,
    Left,
    Right,
    AngledUpRight,
    AngledDownRight,
    AngledUpLeft,
    AngledDownLeft,
}

impl Direction {
    /// The change of row from one letter to the next: -1, 0 or 1.
    pub open spec fn row_step(self) -> int {
        match self {
            Direction::Up => -1,
            Direction::Down => 1,
            Direction::Left => 0,
            Direction::Right => 0,
            Direction::AngledUpRight => -1,
            Direction::AngledDownRight => 1,
            Direction::AngledUpLeft => -1,
            Direction::AngledDownLeft => 1,
        }
    }

    /// The change of column from one letter to the next: -1, 0 or 1.
    pub open spec fn column_step(self) -> int {
        match self {
            Direction::Up => 0,
            Direction::Down => 0,
            Direction::Left => -1,
            Direction::Right => 1,
            Direction::AngledUpRight => 1,
            Direction::AngledDownRight => 1,
            Direction::AngledUpLeft => -1,
            Direction::AngledDownLeft => -1,
        }
    }

    /// The words that describe the direction to a reader.
    pub open spec fn text(self) -> Seq<char> {
        match self {
            Direction::Up => "UP"@,
            Direction::Down => "DOWN"@,
            Direction::Left => "RIGHT to LEFT"@,
            Direction::Right => "LEFT to RIGHT"@,
            Direction::AngledUpRight => "UP to the RIGHT"@,
            Direction::AngledDownRight => "DOWN to the RIGHT"@,
            Direction::AngledUpLeft => "UP to the LEFT"@,
            Direction::AngledDownLeft => "DOWN to the LEFT"@,
        }
    }

    /// The per-step change of row and of column, each -1, 0 or 1.
    pub fn offsets(&self) -> (step: (i8, i8))
        ensures
            step.0 == self.row_step(),
            step.1 == self.column_step(),
    {
        match self {
            Direction::Up => (-1, 0),
            Direction::Down => (1, 0),
            Direction::Left => (0, -1),
            Direction::Right => (0, 1),
            Direction::AngledUpRight => (-1, 1),
            Direction::AngledDownRight => (1, 1),
            Direction::AngledUpLeft => (-1, -1),
            Direction::AngledDownLeft => (1, -1),
        }
    }

    /// The description of the direction, as it is shown to a reader.
    pub fn to_string(&self) -> (s: String)
        ensures
            s@ == self.text(),
    {
        match self {
            Direction::Up => String::from_str("UP"),
            Direction::Down => String::from_str("DOWN"),
            Direction::Left => String::from_str("RIGHT to LEFT"),
            Direction::Right => String::from_str("LEFT to RIGHT"),
            Direction::AngledUpRight => String::from_str("UP to the RIGHT"),
            Direction::AngledDownRight => String::from_str("DOWN to the RIGHT"),
            Direction::AngledUpLeft => String::from_str("UP to the LEFT"),
            Direction::AngledDownLeft => String::from_str("DOWN to the LEFT"),
        }
    }
}

} // verus!
