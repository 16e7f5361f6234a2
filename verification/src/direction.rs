//! Eight-way movement directions and their unit vectors.
//!
//! A direction has a sign along each axis. Its unit vector is expressed in
//! parts of [`UNIT`]: a step along one axis has a component of `UNIT`, a
//! diagonal step has two components of [`DIAGONAL`] each. The pair
//! `DIAGONAL / UNIT` is a convergent of the continued fraction of `1/√2`, so
//! that `2 * DIAGONAL² = UNIT² - 1`: a diagonal is shorter than an axis step
//! by less than one part in 10¹¹.

use vstd::prelude::*;

verus! {

/// The length of a unit vector, in parts.
pub const UNIT: u32 = 665_857;

/// Each component of a diagonal unit vector, in parts of [`UNIT`].
pub const DIAGONAL: u32 = 470_832;

/// The sign of a direction along one axis.
#[derive(Debug, Clone, Copy, PartialEq, Eq, Structural)]
pub enum Axis {
    Negative,
    Neutral,
    Positive,
}

impl Axis {
    /// The sign as an integer: -1, 0 or 1.
    pub open spec fn sign(self) -> int {
        match self {
            Axis::Negative => -1,
            Axis::Neutral => 0,
            Axis::Positive => 1,
        }
    }

    /// The axis sign that a wire value stands for, where it stands for one.
    pub open spec fn of_wire(v: i8) -> Option<Axis> {
        if v == -1 {
            Some(Axis::Negative)
        } else if v == 0 {
            Some(Axis::Neutral)
        } else if v == 1 {
            Some(Axis::Positive)
        } else {
            None
        }
    }

    /// Reads a wire value. Only -1, 0 and 1 are directions along an axis.
    pub fn from_wire(v: i8) -> (a: Option<Axis>)
        ensures
            a == Axis::of_wire(v),
            a is Some <==> -1 <= v <= 1,
            a matches Some(axis) ==> axis.sign() == v,
    {
        if v == -1 {
            Some(Axis::Negative)
        } else if v == 0 {
            Some(Axis::Neutral)
        } else if v == 1 {
            Some(Axis::Positive)
        } else {
            None
        }
    }

    /// The wire value of the sign.
    pub fn to_wire(self) -> (v: i8)
        ensures
            v == self.sign(),
            Axis::of_wire(v) == Some(self),
    {
        match self {
            Axis::Negative => -1,
            Axis::Neutral => 0,
            Axis::Positive => 1,
        }
    }

    /// The sign that results from pressing the key towards the positive end,
    /// the key towards the negative end, both or neither: opposite keys
    /// cancel.
    pub open spec fn of_keys(positive: bool, negative: bool) -> Axis {
        if positive && !negative {
            Axis::Positive
        } else if negative && !positive {
            Axis::Negative
        } else {
            Axis::Neutral
        }
    }

    /// Combines two opposite keys into a sign.
    pub fn from_keys(positive: bool, negative: bool) -> (a: Axis)
        ensures
            a == Axis::of_keys(positive, negative),
    {
        if positive && !negative {
            Axis::Positive
        } else if negative && !positive {
            Axis::Negative
        } else {
            Axis::Neutral
        }
    }
}

/// One of the eight compass directions, or no direction at all.
#[derive(Debug, Clone, Copy, PartialEq, Eq, Structural)]
pub struct Direction {
    pub x: Axis,
    pub y: Axis,
}

impl Direction {
    /// No direction: the intent to stand still.
    pub open spec fn zero() -> Direction {
        Direction { x: Axis::Neutral, y: Axis::Neutral }
    }

    /// The direction along the positive x axis.
    pub open spec fn east() -> Direction {
        Direction { x: Axis::Positive, y: Axis::Neutral }
    }

    pub open spec fn is_zero(self) -> bool {
        self.x == Axis::Neutral && self.y == Axis::Neutral
    }

    pub open spec fn is_diagonal(self) -> bool {
        self.x != Axis::Neutral && self.y != Axis::Neutral
    }

    /// The size of each non-zero component of the unit vector, in parts of
    /// [`UNIT`].
    pub open spec fn unit_part(self) -> nat {
        if self.is_diagonal() {
            DIAGONAL as nat
        } else {
            UNIT as nat
        }
    }

    /// The x component of the unit vector, in parts of [`UNIT`].
    pub open spec fn unit_x(self) -> int {
        self.x.sign() * self.unit_part()
    }

    /// The y component of the unit vector, in parts of [`UNIT`].
    pub open spec fn unit_y(self) -> int {
        self.y.sign() * self.unit_part()
    }

    /// The squared length of the unit vector, in squared parts.
    pub open spec fn unit_length_squared(self) -> int {
        self.unit_x() * self.unit_x() + self.unit_y() * self.unit_y()
    }

    /// The direction that a pair of wire values stands for. A pair with a
    /// component outside -1..=1 stands for no direction.
    pub open spec fn of_wire(x: i8, y: i8) -> Direction {
        match (Axis::of_wire(x), Axis::of_wire(y)) {
            (Some(ax), Some(ay)) => Direction { x: ax, y: ay },
            _ => Direction::zero(),
        }
    }

    /// The intent to stand still.
    pub fn none() -> (d: Direction)
        ensures
            d == Direction::zero(),
    {
        Direction { x: Axis::Neutral, y: Axis::Neutral }
    }

    /// Reads a direction off the wire without trusting it: a pair that is
    /// not made of -1, 0 and 1 is taken as the intent to stand still.
    pub fn from_wire(x: i8, y: i8) -> (d: Direction)
        ensures
            d == Direction::of_wire(x, y),
            (-1 <= x <= 1 && -1 <= y <= 1) ==> d.x.sign() == x && d.y.sign() == y,
            !(-1 <= x <= 1 && -1 <= y <= 1) ==> d.is_zero(),
    {
        match (Axis::from_wire(x), Axis::from_wire(y)) {
            (Some(ax), Some(ay)) => Direction { x: ax, y: ay },
            _ => Direction { x: Axis::Neutral, y: Axis::Neutral },
        }
    }

    /// Whether this is the intent to stand still.
    pub fn is_none(&self) -> (b: bool)
        ensures
            b == self.is_zero(),
    {
        self.x == Axis::Neutral && self.y == Axis::Neutral
    }

    /// The size of each non-zero component of the unit vector.
    pub fn part(&self) -> (p: u32)
        ensures
            p == self.unit_part(),
            0 < p <= UNIT,
    {
        if self.x != Axis::Neutral && self.y != Axis::Neutral {
            DIAGONAL
        } else {
            UNIT
        }
    }
}

/// Every direction but the zero direction has a unit vector of unit length:
/// a step along an axis exactly, a diagonal step to within one squared part
/// in `UNIT²`. In particular a diagonal is not longer than an axis step.
pub proof fn lemma_unit_length(d: Direction)
    requires
        !d.is_zero(),
    ensures
        UNIT * UNIT - 1 <= d.unit_length_squared() <= UNIT * UNIT,
        !d.is_diagonal() ==> d.unit_length_squared() == UNIT * UNIT,
        d.is_diagonal() ==> d.unit_length_squared() == UNIT * UNIT - 1,
{
    assert(UNIT * UNIT == 443_365_544_449int);
    assert(DIAGONAL * DIAGONAL == 221_682_772_224int);
    let p = d.unit_part() as int;
    assert((-1 * p) * (-1 * p) == p * p) by (nonlinear_arith);
    assert((1 * p) * (1 * p) == p * p) by (nonlinear_arith);
    assert((0 * p) * (0 * p) == 0) by (nonlinear_arith);
}

} // verus!
