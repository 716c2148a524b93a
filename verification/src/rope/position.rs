//! Positions in a text and what is known of a text as a whole.

use vstd::prelude::*;

verus! {

/// On which side of a position to look for one that is allowed.
#[derive(Copy, Clone, Debug, PartialEq, Eq, PartialOrd, Ord, Hash, Structural)]
pub enum Bias {
    Left,
    Right,
}

impl Bias {
    /// The other side.
    pub open spec fn inverted(self) -> Bias {
        match self {
            Bias::Left => Bias::Right,
            Bias::Right => Bias::Left,
        }
    }

    /// The other side.
    pub fn invert(self) -> (other: Bias)
        ensures
            other == self.inverted(),
    {
        match self {
            Bias::Left => Bias::Right,
            Bias::Right => Bias::Left,
        }
    }
}

/// Inverting twice gives back the bias, and inverting once never does.
pub proof fn law_bias_invert_involutive(bias: Bias)
    ensures
        bias.inverted().inverted() == bias,
        bias.inverted() != bias,
{
}

impl Default for Bias {
    fn default() -> (bias: Bias)
        ensures
            bias == Bias::Left,
    {
        Bias::Left
    }
}

/// A row and a column counted in bytes.
#[derive(Copy, Clone, Debug, PartialEq, Eq, Hash, Structural)]
pub struct Point {
    pub row: u32,
    pub column: u32,
}

impl Point {
    pub fn new(row: u32, column: u32) -> (point: Point)
        ensures
            point == (Point { row, column }),
    {
        Point { row, column }
    }
}

/// A row and a column counted in UTF-16 code units.
#[derive(Copy, Clone, Debug, PartialEq, Eq, Hash, Structural)]
pub struct PointUtf16 {
    pub row: u32,
    pub column: u32,
}

impl PointUtf16 {
    pub fn new(row: u32, column: u32) -> (point: PointUtf16)
        ensures
            point == (PointUtf16 { row, column }),
    {
        PointUtf16 { row, column }
    }
}

/// An offset counted in UTF-16 code units.
#[derive(Copy, Clone, Debug, PartialEq, Eq, Hash, Structural)]
pub struct OffsetUtf16(pub usize);

/// A position that need not lie in the text.
#[derive(Copy, Clone, Debug, PartialEq, Eq, Hash)]
pub struct Unclipped<T>(pub T);

/// Lengths of a text in several units, and of its first, last and longest row.
#[derive(Copy, Clone, Debug, PartialEq, Eq, Hash, Structural)]
pub struct TextSummary {
    /// Length in bytes.
    pub len: usize,
    /// Length in characters.
    pub chars: usize,
    /// Length in UTF-16 code units.
    pub len_utf16: OffsetUtf16,
    /// The end of the text.
    pub lines: Point,
    /// How many characters are on the first row.
    pub first_line_chars: u32,
    /// How many characters are on the last row.
    pub last_line_chars: u32,
    /// How many UTF-16 code units are on the last row.
    pub last_line_len_utf16: u32,
    /// The first of the rows with the most characters.
    pub longest_row: u32,
    /// How many characters are on that row.
    pub longest_row_chars: u32,
}

} // verus!
