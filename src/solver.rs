//! The solver: gravity, containment, collision and integration passes.
use vstd::prelude::*;
use crate::geometry::{
    Vec2, norm2, dist2, ceil_sqrt, scale, clamp, ceil_sqrt_u128, scale_i128, clamp_i128,
    lemma_scaled_norm, lemma_coord_within, WORLD_LIMIT, ACCEL_LIMIT, RADIUS_LIMIT,
};
use crate::body::{Color, VerletObject};

verus! {

/// Number of sub-steps a frame is divided into by default.
pub const SUB_STEPS: u32 = 16;

/// How far from the arena centre a body of radius `r` may sit.
pub open spec fn contain_limit(boundary_radius: int, r: int) -> int {
    if r <= boundary_radius {
        boundary_radius - r
    } else {
        0
    }
}

/// The body after the containment constraint: if it lies farther from `center`
/// than its limit, it is pulled back along the same direction onto the limit
/// (as far as integer division allows). A body at the centre is never moved.
pub open spec fn contained(b: VerletObject, center: Vec2, boundary_radius: int) -> VerletObject {
    let dx = b.position_current.x - center.x;
    let dy = b.position_current.y - center.y;
    let d2 = norm2(dx, dy);
    let lim = contain_limit(boundary_radius, b.radius as int);
    if d2 > lim * lim {
        let s = ceil_sqrt(d2);
        VerletObject {
            position_current: Vec2 {
                x: (center.x + scale(dx, lim, s)) as i64,
                y: (center.y + scale(dy, lim, s)) as i64,
            },
            ..b
        }
    } else {
        b
    }
}

/// The pair after collision response: overlapping bodies with distinct centres
/// are pushed apart along the axis between them, each by half the overlap.
pub open spec fn pair_resolved(a: VerletObject, b: VerletObject) -> (VerletObject, VerletObject) {
    let ax = a.position_current.x - b.position_current.x;
    let ay = a.position_current.y - b.position_current.y;
    let d2 = norm2(ax, ay);
    let m = a.radius + b.radius;
    if 0 < d2 < m * m {
        let s = ceil_sqrt(d2);
        let cx = scale(ax, m - s, 2 * s);
        let cy = scale(ay, m - s, 2 * s);
        (
            VerletObject {
                position_current: Vec2 {
                    x: clamp(a.position_current.x + cx, WORLD_LIMIT as int) as i64,
                    y: clamp(a.position_current.y + cy, WORLD_LIMIT as int) as i64,
                },
                ..a
            },
            VerletObject {
                position_current: Vec2 {
                    x: clamp(b.position_current.x - cx, WORLD_LIMIT as int) as i64,
                    y: clamp(b.position_current.y - cy, WORLD_LIMIT as int) as i64,
                },
                ..b
            },
        )
    } else {
        (a, b)
    }
}

/// Every body is well formed.
pub open spec fn all_wf(objs: Seq<VerletObject>) -> bool {
    forall|i: int| 0 <= i < objs.len() ==> (#[trigger] objs[i]).wf()
}

/// The gravity pass: `g` added to every body's acceleration.
pub open spec fn gravity_all(objs: Seq<VerletObject>, g: Vec2) -> Seq<VerletObject> {
    objs.map_values(|b: VerletObject| b.accelerated(g))
}

/// The containment pass over every body.
pub open spec fn contain_all(objs: Seq<VerletObject>, center: Vec2, boundary_radius: int) -> Seq<
    VerletObject,
> {
    objs.map_values(|b: VerletObject| contained(b, center, boundary_radius))
}

/// The integration pass: every body advanced by one Verlet step of length `dt`.
pub open spec fn integrate_all(objs: Seq<VerletObject>, dt: int) -> Seq<VerletObject> {
    objs.map_values(|b: VerletObject| b.integrated(dt))
}

/// The sequence with the pair `(i, k)` resolved.
pub open spec fn resolve_at(objs: Seq<VerletObject>, i: int, k: int) -> Seq<VerletObject> {
    let p = pair_resolved(objs[i], objs[k]);
    objs.update(i, p.0).update(k, p.1)
}

/// Resolves the pairs `(i, k), (i, k + 1), ..., (i, n - 1)` in order.
pub open spec fn collide_row(objs: Seq<VerletObject>, i: int, k: int, n: int) -> Seq<VerletObject>
    decreases n - k,
{
    if k >= n {
        objs
    } else {
        collide_row(resolve_at(objs, i, k), i, k + 1, n)
    }
}

/// Resolves every pair `(i, k)` with `start <= i < k < n`, row by row.
pub open spec fn collide_rows(objs: Seq<VerletObject>, start: int, n: int) -> Seq<VerletObject>
    decreases n - start,
{
    if start >= n {
        objs
    } else {
        collide_rows(collide_row(objs, start, start + 1, n), start + 1, n)
    }
}

/// Every pair `(i, k)` with `i < k` resolved, in storage order.
pub open spec fn collide_all(objs: Seq<VerletObject>) -> Seq<VerletObject> {
    collide_rows(objs, 0, objs.len() as int)
}

/// One sub-step: gravity, containment, collisions, integration.
pub open spec fn sub_step(s: Solver, objs: Seq<VerletObject>, dt: int) -> Seq<VerletObject> {
    let g = gravity_all(objs, s.gravity);
    let c = contain_all(g, s.center, s.boundary_radius as int);
    integrate_all(collide_all(c), dt)
}

/// `n` sub-steps of length `dt` each.
pub open spec fn run(s: Solver, objs: Seq<VerletObject>, dt: int, n: nat) -> Seq<VerletObject>
    decreases n,
{
    if n == 0 {
        objs
    } else {
        sub_step(s, run(s, objs, dt, (n - 1) as nat), dt)
    }
}

/// Applies the containment constraint to one body.
pub fn contain(b: &VerletObject, center: Vec2, boundary_radius: i64) -> (r: VerletObject)
    requires
        b.wf(),
        0 < boundary_radius <= RADIUS_LIMIT,
        center.within(WORLD_LIMIT - boundary_radius),
    ensures
        r == contained(*b, center, boundary_radius as int),
        r.wf(),
        dist2(r.position_current, center) <= contain_limit(boundary_radius as int, b.radius as int)
            * contain_limit(boundary_radius as int, b.radius as int),
{
    let dx: i128 = b.position_current.x as i128 - center.x as i128;
    let dy: i128 = b.position_current.y as i128 - center.y as i128;
    assert(0 <= dx * dx <= 0x400000000000000000000 && 0 <= dy * dy <= 0x400000000000000000000)
        by (nonlinear_arith)
        requires
            -0x20000000000 <= dx <= 0x20000000000,
            -0x20000000000 <= dy <= 0x20000000000;
    let d2: i128 = dx * dx + dy * dy;
    let lim: i128 = if b.radius <= boundary_radius {
        boundary_radius as i128 - b.radius as i128
    } else {
        0
    };
    assert(0 <= lim * lim <= 0x100000000000000000000) by (nonlinear_arith)
        requires 0 <= lim <= 0x10000000000;
    if d2 > lim * lim {
        let s: i128 = ceil_sqrt_u128(d2 as u128) as i128;
        assert(s > 0) by (nonlinear_arith)
            requires d2 <= s * s, d2 > 0, s >= 0;
        let qx = scale_i128(dx, lim, s);
        let qy = scale_i128(dy, lim, s);
        proof {
            lemma_scaled_norm(dx as int, dy as int, lim as int, s as int);
            lemma_coord_within(qx as int, qy as int, lim as int);
            lemma_coord_within(qy as int, qx as int, lim as int);
        }
        let p = Vec2 { x: (center.x as i128 + qx) as i64, y: (center.y as i128 + qy) as i64 };
        VerletObject { position_current: p, ..*b }
    } else {
        *b
    }
}

/// Collision response for one pair of bodies.
pub fn resolve_pair(a: &VerletObject, b: &VerletObject) -> (r: (VerletObject, VerletObject))
    requires
        a.wf(),
        b.wf(),
    ensures
        r == pair_resolved(*a, *b),
        r.0.wf(),
        r.1.wf(),
{
    let ax: i128 = a.position_current.x as i128 - b.position_current.x as i128;
    let ay: i128 = a.position_current.y as i128 - b.position_current.y as i128;
    assert(0 <= ax * ax <= 0x400000000000000000000 && 0 <= ay * ay <= 0x400000000000000000000)
        by (nonlinear_arith)
        requires
            -0x20000000000 <= ax <= 0x20000000000,
            -0x20000000000 <= ay <= 0x20000000000;
    let d2: i128 = ax * ax + ay * ay;
    let m: i128 = a.radius as i128 + b.radius as i128;
    assert(0 <= m * m <= 0x400000000000000000000) by (nonlinear_arith)
        requires 0 <= m <= 0x20000000000;
    if 0 < d2 && d2 < m * m {
        let s: i128 = ceil_sqrt_u128(d2 as u128) as i128;
        assert(0 < s <= m) by (nonlinear_arith)
            requires
                d2 <= s * s,
                s == 0 || (s - 1) * (s - 1) < d2,
                d2 > 0,
                s >= 0,
                d2 < m * m,
                m >= 0;
        let cx = scale_i128(ax, m - s, 2 * s);
        let cy = scale_i128(ay, m - s, 2 * s);
        let pa = Vec2 {
            x: clamp_i128(a.position_current.x as i128 + cx, WORLD_LIMIT),
            y: clamp_i128(a.position_current.y as i128 + cy, WORLD_LIMIT),
        };
        let pb = Vec2 {
            x: clamp_i128(b.position_current.x as i128 - cx, WORLD_LIMIT),
            y: clamp_i128(b.position_current.y as i128 - cy, WORLD_LIMIT),
        };
        (VerletObject { position_current: pa, ..*a }, VerletObject { position_current: pb, ..*b })
    } else {
        (*a, *b)
    }
}

/// Owns the bodies and the configuration: gravity, the arena (centre and radius)
/// and the number of sub-steps per frame.
pub struct Solver {
    pub gravity: Vec2,
    pub center: Vec2,
    pub boundary_radius: i64,
    pub sub_steps: u32,
    pub objects: Vec<VerletObject>,
}

/// A configuration the solver accepts: the arena lies inside the world.
pub open spec fn config_ok(gravity: Vec2, center: Vec2, boundary_radius: int, sub_steps: int) -> bool {
    &&& gravity.within(ACCEL_LIMIT as int)
    &&& 0 < boundary_radius <= RADIUS_LIMIT
    &&& center.within(WORLD_LIMIT - boundary_radius)
    &&& sub_steps >= 1
}

impl Solver {
    /// The configuration is accepted and every body is well formed.
    pub open spec fn wf(self) -> bool {
        &&& config_ok(self.gravity, self.center, self.boundary_radius as int, self.sub_steps as int)
        &&& all_wf(self.objects@)
    }

    /// The configuration is that of `other`.
    pub open spec fn same_config(self, other: Solver) -> bool {
        &&& self.gravity == other.gravity
        &&& self.center == other.center
        &&& self.boundary_radius == other.boundary_radius
        &&& self.sub_steps == other.sub_steps
    }

    /// A solver with no bodies.
    pub fn new(gravity: Vec2, center: Vec2, boundary_radius: i64, sub_steps: u32) -> (s: Solver)
        requires
            config_ok(gravity, center, boundary_radius as int, sub_steps as int),
        ensures
            s.wf(),
            s.gravity == gravity,
            s.center == center,
            s.boundary_radius == boundary_radius,
            s.sub_steps == sub_steps,
            s.objects@ == Seq::<VerletObject>::empty(),
    {
        Solver { gravity, center, boundary_radius, sub_steps, objects: Vec::new() }
    }

    /// Appends a body at rest at `(x, y)`.
    pub fn add_object(&mut self, x: i64, y: i64, radius: i64, color: Color)
        requires
            old(self).wf(),
            0 < radius <= RADIUS_LIMIT,
            -WORLD_LIMIT <= x <= WORLD_LIMIT,
            -WORLD_LIMIT <= y <= WORLD_LIMIT,
        ensures
            final(self).wf(),
            final(self).same_config(*old(self)),
            final(self).objects@ == old(self).objects@.push(
                VerletObject::at_rest(x, y, radius, color),
            ),
    {
        let b = VerletObject::new(x, y, radius, color);
        self.objects.push(b);
    }

    /// Adds gravity to every body's acceleration.
    pub fn apply_gravity(&mut self)
        requires
            old(self).wf(),
        ensures
            final(self).wf(),
            final(self).same_config(*old(self)),
            final(self).objects@ == gravity_all(old(self).objects@, old(self).gravity),
    {
        let n = self.objects.len();
        let mut i: usize = 0;
        while i < n
            invariant
                self.same_config(*old(self)),
                self.wf(),
                n == self.objects.len(),
                n == old(self).objects.len(),
                0 <= i <= n,
                forall|j: int| 0 <= j < i ==> self.objects@[j] == old(self).objects@[j].accelerated(old(self).gravity),
                forall|j: int| i <= j < n ==> self.objects@[j] == old(self).objects@[j],
            decreases n - i,
        {
            let mut b = self.objects[i];
            b.accelerate(self.gravity);
            self.objects[i] = b;
            i += 1;
        }
        assert(self.objects@ =~= gravity_all(old(self).objects@, old(self).gravity));
    }

    /// Integrates every body over `dt`.
    pub fn update_positions(&mut self, dt: u32)
        requires
            old(self).wf(),
        ensures
            final(self).wf(),
            final(self).same_config(*old(self)),
            final(self).objects@ == integrate_all(old(self).objects@, dt as int),
    {
        let n = self.objects.len();
        let mut i: usize = 0;
        while i < n
            invariant
                self.same_config(*old(self)),
                self.wf(),
                n == self.objects.len(),
                n == old(self).objects.len(),
                0 <= i <= n,
                forall|j: int| 0 <= j < i ==> self.objects@[j] == old(self).objects@[j].integrated(dt as int),
                forall|j: int| i <= j < n ==> self.objects@[j] == old(self).objects@[j],
            decreases n - i,
        {
            let mut b = self.objects[i];
            b.update_position(dt);
            self.objects[i] = b;
            i += 1;
        }
        assert(self.objects@ =~= integrate_all(old(self).objects@, dt as int));
    }

    /// Pulls every body that lies outside the arena back onto its limit circle.
    pub fn apply_constraint(&mut self)
        requires
            old(self).wf(),
        ensures
            final(self).wf(),
            final(self).same_config(*old(self)),
            final(self).objects@ == contain_all(
                old(self).objects@,
                old(self).center,
                old(self).boundary_radius as int,
            ),
            forall|j: int|
                0 <= j < final(self).objects.len() ==> dist2(
                    (#[trigger] final(self).objects@[j]).position_current,
                    old(self).center,
                ) <= contain_limit(old(self).boundary_radius as int, final(self).objects@[j].radius as int)
                    * contain_limit(old(self).boundary_radius as int, final(self).objects@[j].radius as int),
    {
        let n = self.objects.len();
        let mut i: usize = 0;
        while i < n
            invariant
                self.same_config(*old(self)),
                self.wf(),
                n == self.objects.len(),
                n == old(self).objects.len(),
                0 <= i <= n,
                forall|j: int|
                    0 <= j < i ==> self.objects@[j] == contained(
                        old(self).objects@[j],
                        old(self).center,
                        old(self).boundary_radius as int,
                    ),
                forall|j: int|
                    0 <= j < i ==> dist2((#[trigger] self.objects@[j]).position_current, old(self).center)
                        <= contain_limit(old(self).boundary_radius as int, self.objects@[j].radius as int)
                        * contain_limit(old(self).boundary_radius as int, self.objects@[j].radius as int),
                forall|j: int| i <= j < n ==> self.objects@[j] == old(self).objects@[j],
            decreases n - i,
        {
            let b = contain(&self.objects[i], self.center, self.boundary_radius);
            self.objects[i] = b;
            i += 1;
        }
        assert(self.objects@ =~= contain_all(
            old(self).objects@,
            old(self).center,
            old(self).boundary_radius as int,
        ));
    }

    /// Resolves every overlapping pair `(i, k)`, `i < k`, in storage order.
    pub fn solve_collisions(&mut self)
        requires
            old(self).wf(),
        ensures
            final(self).wf(),
            final(self).same_config(*old(self)),
            final(self).objects@ == collide_all(old(self).objects@),
    {
        let n = self.objects.len();
        let mut i: usize = 0;
        while i < n
            invariant
                self.same_config(*old(self)),
                self.wf(),
                n == self.objects.len(),
                0 <= i <= n,
                collide_rows(self.objects@, i as int, n as int) == collide_all(old(self).objects@),
            decreases n - i,
        {
            let mut k: usize = i + 1;
            while k < n
                invariant
                    self.same_config(*old(self)),
                    self.wf(),
                    n == self.objects.len(),
                    i < n,
                    i + 1 <= k <= n,
                    collide_rows(collide_row(self.objects@, i as int, k as int, n as int), i + 1, n as int)
                        == collide_all(old(self).objects@),
                decreases n - k,
            {
                let ghost before = self.objects@;
                let r = resolve_pair(&self.objects[i], &self.objects[k]);
                self.objects[i] = r.0;
                self.objects[k] = r.1;
                assert(self.objects@ == resolve_at(before, i as int, k as int));
                k += 1;
            }
            i += 1;
        }
    }

    /// Advances the simulation by one frame of length `dt`, split into
    /// `sub_steps` equal sub-steps (the remainder of the division is dropped).
    /// Each sub-step applies gravity, containment, collisions and integration.
    pub fn update(&mut self, dt: u32)
        requires
            old(self).wf(),
        ensures
            final(self).wf(),
            final(self).same_config(*old(self)),
            final(self).objects@ == run(
                *old(self),
                old(self).objects@,
                (dt / old(self).sub_steps) as int,
                old(self).sub_steps as nat,
            ),
    {
        let sub_dt: u32 = dt / self.sub_steps;
        let mut step: u32 = 0;
        while step < self.sub_steps
            invariant
                self.same_config(*old(self)),
                self.wf(),
                0 <= step <= self.sub_steps,
                sub_dt == dt / old(self).sub_steps,
                self.objects@ == run(*old(self), old(self).objects@, sub_dt as int, step as nat),
            decreases self.sub_steps - step,
        {
            self.apply_gravity();
            self.apply_constraint();
            self.solve_collisions();
            self.update_positions(sub_dt);
            step += 1;
        }
    }
}

} // verus!
