//! Plain integer coordinates: a position in a grid and a displacement that
//! can be added to it.

use vstd::prelude::*;

verus! {

/// An integer coordinate in a grid: `x` grows rightward, `y` grows downward.
#[derive(Clone, Copy, PartialEq, Eq, Structural, Debug)]
pub struct Position {
    pub x: i32,
    pub y: i32,
}

/// An integer displacement; adding it to a `Position` moves the position.
#[derive(Clone, Copy, PartialEq, Eq, Structural, Debug)]
pub struct Direction {
    pub x: i32,
    pub y: i32,
}

impl Direction {
    /// One of the four cardinal unit displacements.
    pub open spec fn is_unit(self) -> bool {
        ||| self.x == 0 && (self.y == 1 || self.y == -1)
        ||| self.y == 0 && (self.x == 1 || self.x == -1)
    }
}

impl Position {
    /// The position one `d` away, as long as the coordinates stay in range.
    pub open spec fn spec_add(self, d: Direction) -> Position {
        Position { x: (self.x + d.x) as i32, y: (self.y + d.y) as i32 }
    }

    /// The position one `d` back, as long as the coordinates stay in range.
    pub open spec fn spec_sub(self, d: Direction) -> Position {
        Position { x: (self.x - d.x) as i32, y: (self.y - d.y) as i32 }
    }

    pub fn add(self, d: Direction) -> (r: Position)
        requires
            i32::MIN <= self.x + d.x <= i32::MAX,
            i32::MIN <= self.y + d.y <= i32::MAX,
        ensures
            r.x == self.x + d.x,
            r.y == self.y + d.y,
            r == self.spec_add(d),
    {
        Position { x: self.x + d.x, y: self.y + d.y }
    }

    pub fn sub(self, d: Direction) -> (r: Position)
        requires
            i32::MIN <= self.x - d.x <= i32::MAX,
            i32::MIN <= self.y - d.y <= i32::MAX,
        ensures
            r.x == self.x - d.x,
            r.y == self.y - d.y,
            r == self.spec_sub(d),
    {
        Position { x: self.x - d.x, y: self.y - d.y }
    }
}

} // verus!
