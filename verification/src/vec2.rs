//! Two-component vectors for world positions.

use std::ops::{Add, Sub};
use vstd::prelude::*;
use vstd::std_specs::ops::{AddSpec, AddSpecImpl, SubSpec, SubSpecImpl};

verus! {

/// A pair of coordinates.
#[derive(Debug, Clone, Copy)]
pub struct Vec2<T> {
    pub x: T,
    pub y: T,
}

impl<T> Add for Vec2<T> where T: Add<Output = T> {
    type Output = Self;

    /// Component-wise sum.
    fn add(self, rhs: Self) -> Self::Output {
        Self { x: self.x + rhs.x, y: self.y + rhs.y }
    }
}

impl<T> AddSpecImpl for Vec2<T> where T: Add<Output = T> {
    open spec fn obeys_add_spec() -> bool {
        T::obeys_add_spec()
    }

    open spec fn add_req(self, rhs: Self) -> bool {
        self.x.add_req(rhs.x) && self.y.add_req(rhs.y)
    }

    open spec fn add_spec(self, rhs: Self) -> Self {
        Vec2 { x: self.x.add_spec(rhs.x), y: self.y.add_spec(rhs.y) }
    }
}

impl<T> Sub for Vec2<T> where T: Sub<Output = T> {
    type Output = Self;

    /// Component-wise difference.
    fn sub(self, rhs: Self) -> Self::Output {
        Self { x: self.x - rhs.x, y: self.y - rhs.y }
    }
}

impl<T> SubSpecImpl for Vec2<T> where T: Sub<Output = T> {
    open spec fn obeys_sub_spec() -> bool {
        T::obeys_sub_spec()
    }

    open spec fn sub_req(self, rhs: Self) -> bool {
        self.x.sub_req(rhs.x) && self.y.sub_req(rhs.y)
    }

    open spec fn sub_spec(self, rhs: Self) -> Self {
        Vec2 { x: self.x.sub_spec(rhs.x), y: self.y.sub_spec(rhs.y) }
    }
}

impl Vec2<i32> {
    /// The square of the Euclidean distance between two points.
    pub open spec fn dist_sq(self, other: Vec2<i32>) -> int {
        (self.x - other.x) * (self.x - other.x) + (self.y - other.y) * (self.y - other.y)
    }

    /// The square of the Euclidean distance between two points. It is
    /// computed from the exact differences, so no pair of points overflows.
    pub fn distance_squared(&self, other: &Vec2<i32>) -> (d: u128)
        ensures
            d == self.dist_sq(*other),
    {
        let dx: u128 = gap(self.x, other.x) as u128;
        let dy: u128 = gap(self.y, other.y) as u128;
        assert(dx * dx <= 0x1_0000_0000 * 0x1_0000_0000) by (nonlinear_arith)
            requires
                dx <= 0x1_0000_0000,
        ;
        assert(dy * dy <= 0x1_0000_0000 * 0x1_0000_0000) by (nonlinear_arith)
            requires
                dy <= 0x1_0000_0000,
        ;
        assert(dx * dx == (self.x - other.x) * (self.x - other.x)) by (nonlinear_arith)
            requires
                dx == self.x - other.x || dx == other.x - self.x,
        ;
        assert(dy * dy == (self.y - other.y) * (self.y - other.y)) by (nonlinear_arith)
            requires
                dy == self.y - other.y || dy == other.y - self.y,
        ;
        dx * dx + dy * dy
    }

    /// The square of the vector's length.
    pub fn mag_squared(&self) -> (m: u128)
        ensures
            m == self.x * self.x + self.y * self.y,
    {
        let origin = Vec2 { x: 0i32, y: 0i32 };
        self.distance_squared(&origin)
    }
}

/// How far apart two coordinates are.
pub fn gap(a: i32, b: i32) -> (d: u64)
    ensures
        d == if a >= b { a - b } else { b - a },
        d < 0x1_0000_0000,
{
    if a >= b {
        (a as i64 - b as i64) as u64
    } else {
        (b as i64 - a as i64) as u64
    }
}

} // verus!
