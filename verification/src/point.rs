//! Positions on the half-cell grid.

use vstd::prelude::*;

verus! {

/// A position or an offset in the plane.
///
/// Coordinates are counted in half cells: the value `9` stands for the real
/// coordinate `4.5`, the value `-2` for `-1.0`. Every centre and offset that
/// the game uses is a multiple of one half, so the encoding is exact.
#[derive(Clone, Copy, Debug, PartialEq, Eq, Structural)]
pub struct Point {
    pub x: i64,
    pub y: i64,
}

/// The mathematical value of a `Point`: a pair of unbounded integers, again in
/// half cells.
pub struct Position {
    pub x: int,
    pub y: int,
}

impl Position {
    /// Component-wise sum.
    pub open spec fn plus(self, other: Position) -> Position {
        Position { x: self.x + other.x, y: self.y + other.y }
    }

    /// True when both coordinates can be held by a `Point`.
    pub open spec fn representable(self) -> bool {
        &&& i64::MIN <= self.x <= i64::MAX
        &&& i64::MIN <= self.y <= i64::MAX
    }
}

impl View for Point {
    type V = Position;

    open spec fn view(&self) -> Position {
        Position { x: self.x as int, y: self.y as int }
    }
}

impl Point {
    pub fn new(x: i64, y: i64) -> (p: Point)
        ensures
            p.x == x,
            p.y == y,
    {
        Point { x, y }
    }

    /// Adds two points component by component. The sum has to fit the
    /// coordinate type.
    pub fn add(self, other: Point) -> (p: Point)
        requires
            self@.plus(other@).representable(),
        ensures
            p@ == self@.plus(other@),
    {
        Point { x: self.x + other.x, y: self.y + other.y }
    }
}

} // verus!
