//! Position of a record in a store.

use vstd::prelude::*;
use vstd::std_specs::ops::AddSpec;
use vstd::std_specs::ops::AddSpecImpl;
use vstd::std_specs::ops::SubSpec;
use vstd::std_specs::ops::SubSpecImpl;

use crate::math::Point;

verus! {

/// Position in the store
#[derive(Clone, Copy, Debug, PartialEq, Eq)]
pub struct Position(pub usize);

impl Position {
    /// Converts position into Point
    pub fn to_point(self) -> (r: Point)
        ensures
            r.at() == self.0,
    {
        Point::new(self.0)
    }

    /// Returns the index held by the position
    pub fn get(&self) -> (r: usize)
        ensures
            r == self.0,
    {
        self.0
    }
}

impl std::ops::Deref for Position {
    type Target = usize;

    /// The index held by the position.
    fn deref(&self) -> (r: &usize)
        ensures
            *r == self.0,
    {
        &self.0
    }
}

impl std::ops::Add<Position> for Position {
    type Output = Position;

    fn add(self, rhs: Position) -> (r: Position) {
        Position(self.0 + rhs.0)
    }
}

impl AddSpecImpl<Position> for Position {
    open spec fn obeys_add_spec() -> bool {
        true
    }

    open spec fn add_req(self, rhs: Position) -> bool {
        self.0 + rhs.0 <= usize::MAX
    }

    open spec fn add_spec(self, rhs: Position) -> Position {
        Position((self.0 + rhs.0) as usize)
    }
}

impl std::ops::Add<usize> for Position {
    type Output = Position;

    fn add(self, rhs: usize) -> (r: Position) {
        Position(self.0 + rhs)
    }
}

impl AddSpecImpl<usize> for Position {
    open spec fn obeys_add_spec() -> bool {
        true
    }

    open spec fn add_req(self, rhs: usize) -> bool {
        self.0 + rhs <= usize::MAX
    }

    open spec fn add_spec(self, rhs: usize) -> Position {
        Position((self.0 + rhs) as usize)
    }
}

impl std::ops::Sub<Position> for Position {
    type Output = Position;

    fn sub(self, rhs: Position) -> (r: Position) {
        Position(self.0 - rhs.0)
    }
}

impl SubSpecImpl<Position> for Position {
    open spec fn obeys_sub_spec() -> bool {
        true
    }

    open spec fn sub_req(self, rhs: Position) -> bool {
        rhs.0 <= self.0
    }

    open spec fn sub_spec(self, rhs: Position) -> Position {
        Position((self.0 - rhs.0) as usize)
    }
}

impl std::ops::Sub<usize> for Position {
    type Output = Position;

    fn sub(self, rhs: usize) -> (r: Position) {
        Position(self.0 - rhs)
    }
}

impl SubSpecImpl<usize> for Position {
    open spec fn obeys_sub_spec() -> bool {
        true
    }

    open spec fn sub_req(self, rhs: usize) -> bool {
        rhs <= self.0
    }

    open spec fn sub_spec(self, rhs: usize) -> Position {
        Position((self.0 - rhs) as usize)
    }
}

} // verus!

verus! {

/// Moving a position forward by `n` and back by `n` gives it back.
pub proof fn lemma_forward_then_back(p: Position, n: usize)
    requires
        p.0 + n <= usize::MAX,
    ensures
        SubSpec::sub_spec(AddSpec::add_spec(p, n), n) == p,
{
}

} // verus!
