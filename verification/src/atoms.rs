//! Basic geometry: integer 2D vectors and rectangles, and the handle type
//! used by the slot arena. All layout arithmetic is done in whole pixels,
//! clamped into the `i64` range.

use vstd::prelude::*;

verus! {

/// Stable integer handle into a `BucketArray`.
pub type Id = usize;

/// The mathematical value of `a + b` clamped into the `i64` range.
pub open spec fn clip64(v: int) -> int {
    if v > i64::MAX as int {
        i64::MAX as int
    } else if v < i64::MIN as int {
        i64::MIN as int
    } else {
        v
    }
}

/// `i64` addition that clamps at the ends of the range instead of wrapping.
pub fn add64(a: i64, b: i64) -> (r: i64)
    ensures
        r as int == clip64(a as int + b as int),
{
    match a.checked_add(b) {
        Some(v) => v,
        None => {
            if b > 0 {
                i64::MAX
            } else {
                i64::MIN
            }
        },
    }
}

/// `i64` subtraction that clamps at the ends of the range instead of
/// wrapping.
pub fn sub64(a: i64, b: i64) -> (r: i64)
    ensures
        r as int == clip64(a as int - b as int),
{
    match a.checked_sub(b) {
        Some(v) => v,
        None => {
            if b < 0 {
                i64::MAX
            } else {
                i64::MIN
            }
        },
    }
}

/// A 2D vector of whole pixels.
#[derive(Clone, Copy, Debug, PartialEq, Eq, Structural)]
pub struct Vec2 {
    pub x: i64,
    pub y: i64,
}

impl Vec2 {
    pub fn new(x: i64, y: i64) -> (r: Vec2)
        ensures
            r.x == x && r.y == y,
    {
        Vec2 { x, y }
    }

    /// Component-wise clamped addition.
    pub fn plus(self, other: Vec2) -> (r: Vec2)
        ensures
            r.x as int == clip64(self.x as int + other.x as int),
            r.y as int == clip64(self.y as int + other.y as int),
    {
        Vec2 { x: add64(self.x, other.x), y: add64(self.y, other.y) }
    }

    /// Component-wise maximum.
    pub fn max2(self, other: Vec2) -> (r: Vec2)
        ensures
            r.x == if self.x >= other.x { self.x } else { other.x },
            r.y == if self.y >= other.y { self.y } else { other.y },
    {
        Vec2 {
            x: if self.x >= other.x { self.x } else { other.x },
            y: if self.y >= other.y { self.y } else { other.y },
        }
    }
}

/// An axis-aligned rectangle: a position and a size.
#[derive(Clone, Copy, Debug, PartialEq, Eq, Structural)]
pub struct Rect {
    pub pos: Vec2,
    pub size: Vec2,
}

impl Rect {
    pub fn new(x: i64, y: i64, width: i64, height: i64) -> (r: Rect)
        ensures
            r.pos.x == x && r.pos.y == y && r.size.x == width && r.size.y == height,
    {
        Rect { pos: Vec2 { x, y }, size: Vec2 { x: width, y: height } }
    }

    /// Whether the two rectangles overlap, their edges excluded.
    pub fn overlaps(self, other: Rect) -> (r: bool)
        ensures
            r == (clip64(self.pos.x as int + self.size.x as int) > other.pos.x as int && (
            self.pos.x as int) < clip64(other.pos.x as int + other.size.x as int) && clip64(
                self.pos.y as int + self.size.y as int,
            ) > other.pos.y as int && (self.pos.y as int) < clip64(
                other.pos.y as int + other.size.y as int,
            )),
    {
        add64(self.pos.x, self.size.x) > other.pos.x && self.pos.x < add64(
            other.pos.x,
            other.size.x,
        ) && add64(self.pos.y, self.size.y) > other.pos.y && self.pos.y < add64(
            other.pos.y,
            other.size.y,
        )
    }

    /// The same rectangle moved by `vec` (clamped addition).
    pub fn at(self, vec: Vec2) -> (r: Rect)
        ensures
            r.pos.x as int == clip64(self.pos.x as int + vec.x as int),
            r.pos.y as int == clip64(self.pos.y as int + vec.y as int),
            r.size == self.size,
    {
        Rect { pos: vec.plus(self.pos), size: self.size }
    }
}

} // verus!
