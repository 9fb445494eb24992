//! Positions in space.
use vstd::prelude::*;

use crate::geometry::decimal::{Decimal, DecimalModel};

verus! {

/// Why a position could not be made.
#[derive(Clone, Debug, PartialEq, Eq)]
pub enum Error {
    /// Not exactly three coordinates were given.
    FromF32(String),
}

/// A position of three coordinates.
#[derive(Debug, PartialEq, Eq, Default)]
pub struct Position {
    pub x: Decimal,
    pub y: Decimal,
    pub z: Decimal,
}

/// The model of a position: its coordinates.
pub type PositionModel = (DecimalModel, DecimalModel, DecimalModel);

impl View for Position {
    type V = PositionModel;

    open spec fn view(&self) -> PositionModel {
        (self.x@, self.y@, self.z@)
    }
}

impl Clone for Position {
    fn clone(&self) -> (r: Self)
        ensures
            r@ == self@,
    {
        Position { x: self.x.copy(), y: self.y.copy(), z: self.z.copy() }
    }
}

impl Position {
    /// Creates a new position.
    pub fn new(x: Decimal, y: Decimal, z: Decimal) -> (r: Position)
        ensures
            r@ == (x@, y@, z@),
    {
        Position { x, y, z }
    }

    /// Makes a position from exactly three coordinates.
    pub fn from_coords(v: Vec<Decimal>) -> (r: Result<Position, Error>)
        ensures
            r is Ok <==> v.len() == 3,
            r is Ok ==> r->Ok_0@ == (v@[0]@, v@[1]@, v@[2]@),
    {
        let mut v = v;
        if v.len() != 3 {
            return Err(Error::FromF32("expected three coordinates".to_owned()));
        }
        let ghost w = v@;
        let z = v.pop().unwrap();
        let y = v.pop().unwrap();
        let x = v.pop().unwrap();
        assert(x == w[0] && y == w[1] && z == w[2]);
        Ok(Position { x, y, z })
    }

    /// The coordinates in the order x, y, z.
    pub fn to_coords(self) -> (r: Vec<Decimal>)
        ensures
            r@.len() == 3,
            r@[0]@ == self.x@,
            r@[1]@ == self.y@,
            r@[2]@ == self.z@,
    {
        let mut r: Vec<Decimal> = Vec::new();
        r.push(self.x);
        r.push(self.y);
        r.push(self.z);
        r
    }
}

} // verus!
