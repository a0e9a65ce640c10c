//! Grid coordinates.

use crate::text::{decimal, decimal_string};
use vstd::prelude::*;
use vstd::string::*;

verus! {

/// A cell of the grid, counted from zero: `row` downwards, `column` to the
/// right.
#[derive(Clone, Copy, Debug, PartialEq, Eq, Structural)]
pub struct Location {
    pub row: usize,
    pub column: usize,
}

impl Location {
    pub fn new(row: usize, column: usize) -> (loc: Self)
        ensures
            loc.row == row,
            loc.column == column,
    {
        Self { row, column }
    }

    /// The location as it is shown to a reader: the row and the column in
    /// decimal, separated by a comma and a space.
    pub open spec fn text(self) -> Seq<char> {
        decimal(self.row as nat) + seq![',', ' '] + decimal(self.column as nat)
    }

    /// The location as it is shown to a reader.
    pub fn to_string(&self) -> (s: String)
        ensures
            s@ == self.text(),
    {
        let mut s = decimal_string(self.row);
        s.push(',');
        s.push(' ');
        let column = decimal_string(self.column);
        s.append(column.as_str());
        assert(s@ =~= self.text());
        s
    }
}

} // verus!
