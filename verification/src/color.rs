//! Terminal colours for marking words.

use crate::text::{decimal, decimal_string};
use rand::Rng;
use vstd::prelude::*;
use vstd::string::*;

verus! {

/// A foreground colour of the terminal, or `Reset`, which ends colouring.
#[derive(Clone, Copy, Debug, PartialEq, Eq, Structural)]
pub enum Color {
    Red,
    Green,
    Yellow,
    Magenta,
    Cyan,
    Reset,
    LightredEx,
    LightgreenEx,
    LightyellowEx,
    LightblueEx,
    LightmagentaEx,
    LightcyanEx,
}

/// The highest index of the palette that words are coloured from.
pub const LAST_PALETTE_INDEX: usize = 10;

impl Color {
    /// The number of the colour in its escape sequence.
    pub open spec fn number(self) -> nat {
        match self {
            Color::Red => 31,
            Color::Green => 32,
            Color::Yellow => 33,
            Color::Magenta => 35,
            Color::Cyan => 36,
            Color::Reset => 0,
            Color::LightredEx => 91,
            Color::LightgreenEx => 92,
            Color::LightyellowEx => 93,
            Color::LightblueEx => 94,
            Color::LightmagentaEx => 95,
            Color::LightcyanEx => 96,
        }
    }

    /// The escape sequence that switches the terminal to the colour: the
    /// escape character, `[`, the colour's number in decimal, and `m`.
    pub open spec fn text(self) -> Seq<char> {
        seq!['\u{1b}', '['] + decimal(self.number()) + seq!['m']
    }

    /// The colour at index `i` of the palette. Indices from the last one on
    /// all give the last colour; `Reset` is not in the palette.
    pub open spec fn palette(i: int) -> Color {
        if i == 0 {
            Color::Red
        } else if i == 1 {
            Color::Green
        } else if i == 2 {
            Color::Yellow
        } else if i == 3 {
            Color::Magenta
        } else if i == 4 {
            Color::Cyan
        } else if i == 5 {
            Color::LightredEx
        } else if i == 6 {
            Color::LightgreenEx
        } else if i == 7 {
            Color::LightyellowEx
        } else if i == 8 {
            Color::LightblueEx
        } else if i == 9 {
            Color::LightmagentaEx
        } else {
            Color::LightcyanEx
        }
    }

    /// The number of the colour in its escape sequence.
    pub fn code(&self) -> (n: usize)
        ensures
            n == self.number(),
    {
        match self {
            Color::Red => 31,
            Color::Green => 32,
            Color::Yellow => 33,
            Color::Magenta => 35,
            Color::Cyan => 36,
            Color::Reset => 0,
            Color::LightredEx => 91,
            Color::LightgreenEx => 92,
            Color::LightyellowEx => 93,
            Color::LightblueEx => 94,
            Color::LightmagentaEx => 95,
            Color::LightcyanEx => 96,
        }
    }

    /// The escape sequence that switches the terminal to the colour.
    pub fn to_string(&self) -> (s: String)
        ensures
            s@ == self.text(),
    {
        proof {
            reveal_strlit("\x1b[");
        }
        let mut s = String::from_str("\x1b[");
        assert(s@ =~= seq!['\u{1b}', '[']);
        let digits = decimal_string(self.code());
        s.append(digits.as_str());
        s.push('m');
        assert(s@ =~= self.text());
        s
    }

    /// The palette colour for a drawn index.
    pub fn from_index(i: usize) -> (c: Color)
        ensures
            c == Color::palette(i as int),
    {
        match i {
            0 => Color::Red,
            1 => Color::Green,
            2 => Color::Yellow,
            3 => Color::Magenta,
            4 => Color::Cyan,
            5 => Color::LightredEx,
            6 => Color::LightgreenEx,
            7 => Color::LightyellowEx,
            8 => Color::LightblueEx,
            9 => Color::LightmagentaEx,
            _ => Color::LightcyanEx,
        }
    }
}

/// Draws an index with `rand::Rng::gen_range` over the inclusive range from
/// zero to `max`, on the generator that `rand::thread_rng` hands out. The
/// contract claims only that the index lies in that range.
#[verifier::external_body]
fn random_index(max: usize) -> (i: usize)
    ensures
        i <= max,
{
    rand::thread_rng().gen_range(0..=max)
}

/// A colour drawn at random from the palette.
pub fn random_color() -> (c: Color)
    ensures
        exists|i: int| 0 <= i <= LAST_PALETTE_INDEX && c == Color::palette(i),
        c != Color::Reset,
{
    let i = random_index(LAST_PALETTE_INDEX);
    Color::from_index(i)
}

} // verus!
