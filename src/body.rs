//! A single circular body advanced by position Verlet integration.
use vstd::prelude::*;
use crate::geometry::{Vec2, clamp, clamp_i128, WORLD_LIMIT, ACCEL_LIMIT, RADIUS_LIMIT};

verus! {

/// Display colour of a body; it plays no part in the physics.
#[derive(Clone, Copy, Debug, PartialEq, Eq, Structural)]
pub struct Color {
    pub r: u8,
    pub g: u8,
    pub b: u8,
}

impl Color {
    pub fn rgb(r: u8, g: u8, b: u8) -> (c: Color)
        ensures
            c.r == r,
            c.g == g,
            c.b == b,
    {
        Color { r, g, b }
    }
}

/// A circular body. Its velocity is implicit: `position_current - position_old`.
#[derive(Clone, Copy, Debug, PartialEq, Eq, Structural)]
pub struct VerletObject {
    pub position_current: Vec2,
    pub position_old: Vec2,
    pub acceleration: Vec2,
    pub radius: i64,
    pub color: Color,
}

/// One coordinate after a Verlet step: `2p - o + a dt²`, saturated at the world edge.
pub open spec fn verlet_coord(p: int, o: int, a: int, dt: int) -> int {
    clamp(2 * p - o + a * dt * dt, WORLD_LIMIT as int)
}

/// `v` rounded to the nearest multiple of `unit`, halves away from zero, counted in units.
pub open spec fn round_div(v: int, unit: int) -> int {
    if v >= 0 {
        (2 * v + unit) / (2 * unit)
    } else {
        -((2 * (-v) + unit) / (2 * unit))
    }
}

/// Whether a value fits in an `i16`.
pub open spec fn fits_i16(v: int) -> bool {
    -32768 <= v <= 32767
}

fn verlet_step_coord(p: i64, o: i64, a: i64, dt: u32) -> (r: i64)
    requires
        -WORLD_LIMIT <= p <= WORLD_LIMIT,
        -WORLD_LIMIT <= o <= WORLD_LIMIT,
        -ACCEL_LIMIT <= a <= ACCEL_LIMIT,
    ensures
        r == verlet_coord(p as int, o as int, a as int, dt as int),
{
    let d: i128 = dt as i128;
    assert(0 <= d * d <= 0x10000000000000000) by (nonlinear_arith)
        requires 0 <= d <= 0xffffffff;
    let dd: i128 = d * d;
    assert(-0x10000000000000000000000000000 <= a * dd <= 0x10000000000000000000000000000)
        by (nonlinear_arith)
        requires -0x10000000000 <= a <= 0x10000000000, 0 <= dd <= 0x10000000000000000;
    let next: i128 = 2 * (p as i128) - (o as i128) + (a as i128) * dd;
    assert(a * dd == a * dt * dt) by (nonlinear_arith)
        requires dd == d * d, d == dt;
    clamp_i128(next, WORLD_LIMIT)
}

impl VerletObject {
    /// Every coordinate is within the world, the acceleration within its bound,
    /// and the radius positive.
    pub open spec fn wf(self) -> bool {
        &&& self.position_current.within(WORLD_LIMIT as int)
        &&& self.position_old.within(WORLD_LIMIT as int)
        &&& self.acceleration.within(ACCEL_LIMIT as int)
        &&& 0 < self.radius <= RADIUS_LIMIT
    }

    /// A body at rest at `(x, y)` with no accumulated acceleration.
    pub open spec fn at_rest(x: i64, y: i64, radius: i64, color: Color) -> VerletObject {
        VerletObject {
            position_current: Vec2 { x, y },
            position_old: Vec2 { x, y },
            acceleration: Vec2 { x: 0, y: 0 },
            radius,
            color,
        }
    }

    /// The body after one Verlet step of length `dt`.
    pub open spec fn integrated(self, dt: int) -> VerletObject {
        let p = self.position_current;
        let o = self.position_old;
        let a = self.acceleration;
        VerletObject {
            position_current: Vec2 {
                x: verlet_coord(p.x as int, o.x as int, a.x as int, dt) as i64,
                y: verlet_coord(p.y as int, o.y as int, a.y as int, dt) as i64,
            },
            position_old: p,
            acceleration: Vec2 { x: 0, y: 0 },
            ..self
        }
    }

    /// The body with `acc` added to its acceleration, saturated at the bound.
    pub open spec fn accelerated(self, acc: Vec2) -> VerletObject {
        VerletObject {
            acceleration: Vec2 {
                x: clamp(self.acceleration.x + acc.x, ACCEL_LIMIT as int) as i64,
                y: clamp(self.acceleration.y + acc.y, ACCEL_LIMIT as int) as i64,
            },
            ..self
        }
    }

    /// A body at rest. A non-positive radius is a caller error and is excluded.
    pub fn new(x: i64, y: i64, radius: i64, color: Color) -> (r: VerletObject)
        requires
            0 < radius <= RADIUS_LIMIT,
            -WORLD_LIMIT <= x <= WORLD_LIMIT,
            -WORLD_LIMIT <= y <= WORLD_LIMIT,
        ensures
            r == VerletObject::at_rest(x, y, radius, color),
            r.wf(),
    {
        VerletObject {
            position_current: Vec2 { x, y },
            position_old: Vec2 { x, y },
            acceleration: Vec2 { x: 0, y: 0 },
            radius,
            color,
        }
    }

    /// Verlet step: the old position takes the current one, the current one moves
    /// by the implicit velocity plus `acceleration * dt²`, and the acceleration is reset.
    pub fn update_position(&mut self, dt: u32)
        requires
            old(self).wf(),
        ensures
            *final(self) == old(self).integrated(dt as int),
            final(self).wf(),
    {
        let p = self.position_current;
        let o = self.position_old;
        let a = self.acceleration;
        let nx = verlet_step_coord(p.x, o.x, a.x, dt);
        let ny = verlet_step_coord(p.y, o.y, a.y, dt);
        self.position_old = p;
        self.position_current = Vec2 { x: nx, y: ny };
        self.acceleration = Vec2 { x: 0, y: 0 };
    }

    /// Adds `acc` to the acceleration accumulated for the current sub-step.
    pub fn accelerate(&mut self, acc: Vec2)
        requires
            old(self).wf(),
            acc.within(ACCEL_LIMIT as int),
        ensures
            *final(self) == old(self).accelerated(acc),
            final(self).wf(),
    {
        let ax = clamp_i128(self.acceleration.x as i128 + acc.x as i128, ACCEL_LIMIT);
        let ay = clamp_i128(self.acceleration.y as i128 + acc.y as i128, ACCEL_LIMIT);
        self.acceleration = Vec2 { x: ax, y: ay };
    }

    /// The position in whole pixels of `unit` units each, rounded half away from
    /// zero, or `None` where a coordinate does not fit in an `i16`.
    pub fn pixel_position(&self, unit: i64) -> (r: Option<(i16, i16)>)
        requires
            unit > 0,
        ensures
            ({
                let px = round_div(self.position_current.x as int, unit as int);
                let py = round_div(self.position_current.y as int, unit as int);
                &&& r is Some <==> (fits_i16(px) && fits_i16(py))
                &&& r matches Some(q) ==> q.0 == px && q.1 == py
            }),
    {
        let px = round_div_i64(self.position_current.x, unit);
        let py = round_div_i64(self.position_current.y, unit);
        if -32768 <= px && px <= 32767 && -32768 <= py && py <= 32767 {
            Some((px as i16, py as i16))
        } else {
            None
        }
    }
}

fn round_div_i64(v: i64, unit: i64) -> (r: i128)
    requires
        unit > 0,
    ensures
        r == round_div(v as int, unit as int),
{
    let u: i128 = unit as i128;
    if v >= 0 {
        let w: i128 = v as i128;
        proof {
            assert(0 <= (2 * w + u) / (2 * u) <= 2 * w + u) by (nonlinear_arith)
                requires w >= 0, u > 0;
        }
        (2 * w + u) / (2 * u)
    } else {
        let w: i128 = -(v as i128);
        proof {
            assert(0 <= (2 * w + u) / (2 * u) <= 2 * w + u) by (nonlinear_arith)
                requires w >= 0, u > 0;
        }
        -((2 * w + u) / (2 * u))
    }
}

} // verus!
