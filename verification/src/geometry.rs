//! Points and displacements of the plane, in fixed-point coordinates.

use crate::fixed::{
    clamped, difference, sum, wrap_from, wrap_upto, wrapped_from, wrapped_upto, PI, SCALE,
};
use crate::random::{draw_unit, is_unit};
use rand_chacha::ChaCha8Rng;
use vstd::prelude::*;

verus! {

/// A place in the world.
#[derive(Clone, Copy, Debug, PartialEq, Eq, Structural)]
pub struct Point {
    pub x: i64,
    pub y: i64,
}

/// A displacement from one place to another.
#[derive(Clone, Copy, Debug, PartialEq, Eq, Structural)]
pub struct Vector {
    pub x: i64,
    pub y: i64,
}

/// A displacement given by its length and by the angle, in radians, from the
/// first axis to it.
#[derive(Clone, Copy, Debug, PartialEq, Eq, Structural)]
pub struct Polar {
    pub distance: i64,
    pub bearing: i64,
}

/// The displacement that leads from `from` to `to`, saturating.
pub open spec fn offset(from: Point, to: Point) -> Vector {
    Vector { x: clamped(to.x - from.x), y: clamped(to.y - from.y) }
}

/// The place reached from `point` by `step` in a world that wraps around:
/// both coordinates are brought back to at least zero and less than one.
pub open spec fn carried(point: Point, step: Vector) -> Point {
    Point {
        x: wrapped_from(clamped(point.x + step.x) as int, 0, SCALE as int) as i64,
        y: wrapped_from(clamped(point.y + step.y) as int, 0, SCALE as int) as i64,
    }
}

/// The direction reached from `rotation` by turning by `change`: an angle
/// above minus half a turn and up to half a turn.
pub open spec fn turned(rotation: i64, change: i64) -> i64 {
    wrapped_upto(clamped(rotation + change) as int, -PI as int, PI as int) as i64
}

/// The two places are no further apart than `radius`.
pub open spec fn near(a: Point, b: Point, radius: i64) -> bool {
    (b.x - a.x) * (b.x - a.x) + (b.y - a.y) * (b.y - a.y) <= radius * radius
}

impl Point {
    /// Both coordinates are at least zero and less than one.
    pub open spec fn in_world(self) -> bool {
        0 <= self.x < SCALE && 0 <= self.y < SCALE
    }

    /// A place whose coordinates are drawn independently and uniformly, the
    /// first one first.
    pub fn random(rng: &mut ChaCha8Rng) -> (point: Point)
        ensures
            point.in_world(),
            is_unit(point.x),
            is_unit(point.y),
    {
        let x: i64 = draw_unit(rng);
        let y: i64 = draw_unit(rng);
        Point { x, y }
    }

    /// The displacement that leads from here to `to`.
    pub fn offset_to(self, to: Point) -> (step: Vector)
        ensures
            step == offset(self, to),
    {
        Vector { x: difference(to.x, self.x), y: difference(to.y, self.y) }
    }

    /// The place reached from here by `step`, wrapped into the world.
    pub fn carry(self, step: Vector) -> (point: Point)
        ensures
            point == carried(self, step),
            point.in_world(),
    {
        Point {
            x: wrap_from(sum(self.x, step.x), 0, SCALE),
            y: wrap_from(sum(self.y, step.y), 0, SCALE),
        }
    }

    /// Whether `other` is no further from here than `radius`.
    pub fn is_near(self, other: Point, radius: i64) -> (yes: bool)
        requires
            radius >= 0,
        ensures
            yes == near(self, other, radius),
    {
        let dx: i128 = other.x as i128 - self.x as i128;
        let dy: i128 = other.y as i128 - self.y as i128;
        let r: i128 = radius as i128;
        if dx > r || dx < -r || dy > r || dy < -r {
            proof {
                assert(dx * dx > r * r || dy * dy > r * r) by (nonlinear_arith)
                    requires
                        dx > r || dx < -r || dy > r || dy < -r,
                        r >= 0,
                ;
                assert(dx * dx >= 0 && dy * dy >= 0) by (nonlinear_arith);
            }
            false
        } else {
            proof {
                assert(0 <= dx * dx <= r * r && 0 <= dy * dy <= r * r) by (nonlinear_arith)
                    requires
                        -r <= dx <= r,
                        -r <= dy <= r,
                ;
                assert(r * r <= 0x3fff_ffff_ffff_ffff_ffff_ffff_ffff_ffff) by (nonlinear_arith)
                    requires
                        0 <= r <= 0x7fff_ffff_ffff_ffff,
                ;
            }
            dx * dx + dy * dy <= r * r
        }
    }
}

/// The direction reached from `rotation` by turning by `change`.
pub fn turn(rotation: i64, change: i64) -> (direction: i64)
    ensures
        direction == turned(rotation, change),
        -PI < direction <= PI,
{
    wrap_upto(sum(rotation, change), -PI, PI)
}

} // verus!
