use vstd::prelude::*;

verus! {

/// A 1-based terminal cell coordinate. Mutation is validated against the
/// live terminal bounds: a move that would leave the bounds is rejected and
/// the position stays put.
#[derive(Clone, Copy, Debug)]
pub struct Position {
    pub x: u16,
    pub y: u16,
}

/// A position lies inside the terminal when both coordinates are at least 1
/// and at most the corresponding bound.
pub open spec fn in_boundary(p: Position, bounds: Position) -> bool {
    1 <= p.x <= bounds.x && 1 <= p.y <= bounds.y
}

impl PartialEq for Position {
    fn eq(&self, other: &Self) -> (r: bool) {
        self.x == other.x && self.y == other.y
    }
}

impl vstd::std_specs::cmp::PartialEqSpecImpl for Position {
    open spec fn obeys_eq_spec() -> bool {
        true
    }

    open spec fn eq_spec(&self, other: &Position) -> bool {
        self.x == other.x && self.y == other.y
    }
}

impl PartialOrd for Position {
    fn partial_cmp(&self, other: &Self) -> (r: Option<core::cmp::Ordering>) {
        if self.x < other.x {
            Some(core::cmp::Ordering::Less)
        } else if self.x > other.x {
            Some(core::cmp::Ordering::Greater)
        } else if self.y < other.y {
            Some(core::cmp::Ordering::Less)
        } else if self.y > other.y {
            Some(core::cmp::Ordering::Greater)
        } else {
            Some(core::cmp::Ordering::Equal)
        }
    }
}

impl vstd::std_specs::cmp::PartialOrdSpecImpl for Position {
    open spec fn obeys_partial_cmp_spec() -> bool {
        true
    }

    /// Ordering is lexicographic on (x, y).
    open spec fn partial_cmp_spec(&self, other: &Position) -> Option<core::cmp::Ordering> {
        if self.x < other.x {
            Some(core::cmp::Ordering::Less)
        } else if self.x > other.x {
            Some(core::cmp::Ordering::Greater)
        } else if self.y < other.y {
            Some(core::cmp::Ordering::Less)
        } else if self.y > other.y {
            Some(core::cmp::Ordering::Greater)
        } else {
            Some(core::cmp::Ordering::Equal)
        }
    }
}

impl Position {
    pub fn new(x: u16, y: u16) -> (r: Self)
        ensures
            r.x == x,
            r.y == y,
    {
        Position { x, y }
    }

    pub fn new_origin() -> (r: Self)
        ensures
            r.x == 1,
            r.y == 1,
    {
        Position::new(1, 1)
    }

    pub fn new_center(bounds: &Position) -> (r: Self)
        ensures
            r.x == bounds.x / 2,
            r.y == bounds.y / 2,
    {
        Position::new(bounds.x / 2, bounds.y / 2)
    }

    pub fn get_x(&self) -> (r: u16)
        ensures
            r == self.x,
    {
        self.x
    }

    pub fn get_y(&self) -> (r: u16)
        ensures
            r == self.y,
    {
        self.y
    }

    pub fn set_x(&mut self, x: u16, bounds: &Position) -> (r: bool)
        ensures
            r == (in_boundary(*old(self), *bounds) && in_boundary(
                Position { x, y: old(self).y },
                *bounds,
            )),
            r ==> *final(self) == (Position { x, y: old(self).y }),
            !r ==> *final(self) == *old(self),
    {
        let y = self.y;
        self.set(x, y, bounds)
    }

    pub fn set_y(&mut self, y: u16, bounds: &Position) -> (r: bool)
        ensures
            r == (in_boundary(*old(self), *bounds) && in_boundary(
                Position { x: old(self).x, y },
                *bounds,
            )),
            r ==> *final(self) == (Position { x: old(self).x, y }),
            !r ==> *final(self) == *old(self),
    {
        let x = self.x;
        self.set(x, y, bounds)
    }

    /// A move is accepted only when the position is inside the bounds both
    /// before and after; a rejected move leaves the position unchanged.
    pub fn set(&mut self, x: u16, y: u16, bounds: &Position) -> (r: bool)
        ensures
            r == (in_boundary(*old(self), *bounds) && in_boundary(Position { x, y }, *bounds)),
            r ==> *final(self) == (Position { x, y }),
            !r ==> *final(self) == *old(self),
    {
        if self.respect_boundary(x, y, bounds) {
            self.x = x;
            self.y = y;
            true
        } else {
            false
        }
    }

    fn respect_boundary(&self, x: u16, y: u16, bounds: &Position) -> (r: bool)
        ensures
            r == (in_boundary(*self, *bounds) && in_boundary(Position { x, y }, *bounds)),
    {
        self.is_in_boundary(bounds) && Position::new(x, y).is_in_boundary(bounds)
    }

    pub fn is_in_boundary(&self, bounds: &Position) -> (r: bool)
        ensures
            r == in_boundary(*self, *bounds),
    {
        self.x > 0 && self.y > 0 && self.x <= bounds.x && self.y <= bounds.y
    }
}

/// A movement request, either for the cursor inside one tile or for the
/// selected tile inside the grid.
#[derive(Clone, Copy, Debug)]
pub enum Direction {
    Up,
    Down,
    Left,
    Right,
}

} // verus!
