//! Coordinates of cells.

use vstd::prelude::*;

verus! {

/// The coordinate of one cell: an ordered pair of signed integers.
#[derive(Debug, PartialEq, Eq, Hash, Clone, Copy, Structural)]
pub struct Pos {
    pub x: i32,
    pub y: i32,
}

impl Pos {
    /// The vector sum of two coordinates, as mathematical integers.
    pub open spec fn plus(self, rhs: Pos) -> (int, int) {
        (self.x + rhs.x, self.y + rhs.y)
    }

    /// The vector difference of two coordinates, as mathematical integers.
    pub open spec fn minus(self, rhs: Pos) -> (int, int) {
        (self.x - rhs.x, self.y - rhs.y)
    }

    /// Whether a pair of mathematical integers is the coordinate of a cell
    /// that this type can hold.
    pub open spec fn representable(p: (int, int)) -> bool {
        i32::MIN <= p.0 <= i32::MAX && i32::MIN <= p.1 <= i32::MAX
    }
}

impl core::ops::Add for Pos {
    type Output = Pos;

    /// The vector sum, where the coordinate type can hold it.
    fn add(self, rhs: Pos) -> (sum: Pos) {
        Pos { x: self.x + rhs.x, y: self.y + rhs.y }
    }
}

impl vstd::std_specs::ops::AddSpecImpl for Pos {
    open spec fn obeys_add_spec() -> bool {
        true
    }

    open spec fn add_req(self, rhs: Pos) -> bool {
        Pos::representable(self.plus(rhs))
    }

    open spec fn add_spec(self, rhs: Pos) -> Pos {
        Pos { x: (self.x + rhs.x) as i32, y: (self.y + rhs.y) as i32 }
    }
}

impl core::ops::Sub for Pos {
    type Output = Pos;

    /// The vector difference, where the coordinate type can hold it.
    fn sub(self, rhs: Pos) -> (diff: Pos) {
        Pos { x: self.x - rhs.x, y: self.y - rhs.y }
    }
}

impl vstd::std_specs::ops::SubSpecImpl for Pos {
    open spec fn obeys_sub_spec() -> bool {
        true
    }

    open spec fn sub_req(self, rhs: Pos) -> bool {
        Pos::representable(self.minus(rhs))
    }

    open spec fn sub_spec(self, rhs: Pos) -> Pos {
        Pos { x: (self.x - rhs.x) as i32, y: (self.y - rhs.y) as i32 }
    }
}

} // verus!
