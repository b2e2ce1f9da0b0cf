//! Properties that relate the solver's passes to one another.
use vstd::prelude::*;
use crate::geometry::{Vec2, dist2, norm2, scale, lemma_scale_square, WORLD_LIMIT, ACCEL_LIMIT};
use crate::body::VerletObject;
use crate::solver::{
    Solver, all_wf, contain_limit, pair_resolved, resolve_at, collide_row,
    collide_rows, gravity_all, contain_all, integrate_all, sub_step,
};

verus! {

/// The implicit velocity of a body.
pub open spec fn velocity(b: VerletObject) -> (int, int) {
    (
        b.position_current.x - b.position_old.x,
        b.position_current.y - b.position_old.y,
    )
}

/// Without acceleration, a Verlet step keeps the velocity, as long as the body
/// does not reach the edge of the world.
pub proof fn lemma_velocity_kept(b: VerletObject, dt: int)
    requires
        b.wf(),
        b.acceleration == (Vec2 { x: 0, y: 0 }),
        -WORLD_LIMIT <= 2 * b.position_current.x - b.position_old.x <= WORLD_LIMIT,
        -WORLD_LIMIT <= 2 * b.position_current.y - b.position_old.y <= WORLD_LIMIT,
    ensures
        velocity(b.integrated(dt)) == velocity(b),
{
    assert(0 * dt * dt == 0) by (nonlinear_arith);
}

/// A body at rest that receives the gravity pass and one Verlet step of length
/// `dt` moves by exactly `gravity * dt²`, as long as it stays inside the world.
pub proof fn lemma_gravity_displacement(objs: Seq<VerletObject>, g: Vec2, dt: int, j: int)
    requires
        all_wf(objs),
        g.within(ACCEL_LIMIT as int),
        0 <= j < objs.len(),
        objs[j].position_current == objs[j].position_old,
        objs[j].acceleration == (Vec2 { x: 0, y: 0 }),
        -WORLD_LIMIT <= objs[j].position_current.x + g.x * dt * dt <= WORLD_LIMIT,
        -WORLD_LIMIT <= objs[j].position_current.y + g.y * dt * dt <= WORLD_LIMIT,
    ensures
        integrate_all(gravity_all(objs, g), dt)[j].position_current.x - objs[j].position_current.x
            == g.x * dt * dt,
        integrate_all(gravity_all(objs, g), dt)[j].position_current.y - objs[j].position_current.y
            == g.y * dt * dt,
{
    let b = objs[j];
    assert(all_wf(objs) ==> objs[j].wf());
    assert(gravity_all(objs, g)[j] == b.accelerated(g));
    assert(b.accelerated(g).acceleration == g);
}

/// Collision response moves the two bodies by opposite amounts, so their
/// combined centre stays where it was, unless one reaches the edge of the world.
pub proof fn lemma_pair_symmetric(a: VerletObject, b: VerletObject)
    requires
        a.wf(),
        b.wf(),
        ({
            let ax = a.position_current.x - b.position_current.x;
            let ay = a.position_current.y - b.position_current.y;
            let s = crate::geometry::ceil_sqrt(norm2(ax, ay));
            let m = a.radius + b.radius;
            let cx = scale(ax, m - s, 2 * s);
            let cy = scale(ay, m - s, 2 * s);
            &&& -WORLD_LIMIT <= a.position_current.x + cx <= WORLD_LIMIT
            &&& -WORLD_LIMIT <= a.position_current.y + cy <= WORLD_LIMIT
            &&& -WORLD_LIMIT <= b.position_current.x - cx <= WORLD_LIMIT
            &&& -WORLD_LIMIT <= b.position_current.y - cy <= WORLD_LIMIT
        }),
    ensures
        ({
            let r = pair_resolved(a, b);
            &&& r.0.position_current.x - a.position_current.x == -(r.1.position_current.x
                - b.position_current.x)
            &&& r.0.position_current.y - a.position_current.y == -(r.1.position_current.y
                - b.position_current.y)
            &&& r.0.position_current.x + r.1.position_current.x == a.position_current.x
                + b.position_current.x
            &&& r.0.position_current.y + r.1.position_current.y == a.position_current.y
                + b.position_current.y
        }),
{
}

/// Collision response never brings two bodies closer together, unless one
/// reaches the edge of the world: a single pass reduces their overlap or
/// leaves it as it was.
pub proof fn lemma_pair_separates(a: VerletObject, b: VerletObject)
    requires
        a.wf(),
        b.wf(),
        ({
            let ax = a.position_current.x - b.position_current.x;
            let ay = a.position_current.y - b.position_current.y;
            let s = crate::geometry::ceil_sqrt(norm2(ax, ay));
            let m = a.radius + b.radius;
            let cx = scale(ax, m - s, 2 * s);
            let cy = scale(ay, m - s, 2 * s);
            &&& -WORLD_LIMIT <= a.position_current.x + cx <= WORLD_LIMIT
            &&& -WORLD_LIMIT <= a.position_current.y + cy <= WORLD_LIMIT
            &&& -WORLD_LIMIT <= b.position_current.x - cx <= WORLD_LIMIT
            &&& -WORLD_LIMIT <= b.position_current.y - cy <= WORLD_LIMIT
        }),
    ensures
        ({
            let r = pair_resolved(a, b);
            dist2(r.0.position_current, r.1.position_current) >= dist2(
                a.position_current,
                b.position_current,
            )
        }),
{
    let ax = a.position_current.x - b.position_current.x;
    let ay = a.position_current.y - b.position_current.y;
    let d2 = norm2(ax, ay);
    let m = a.radius + b.radius;
    if 0 < d2 < m * m {
        let s = crate::geometry::ceil_sqrt(d2);
        crate::geometry::lemma_ceil_sqrt_exists(d2);
        assert(0 < s <= m) by (nonlinear_arith)
            requires
                d2 <= s * s,
                s == 0 || (s - 1) * (s - 1) < d2,
                d2 > 0,
                s >= 0,
                d2 < m * m,
                m >= 0;
        let cx = scale(ax, m - s, 2 * s);
        let cy = scale(ay, m - s, 2 * s);
        lemma_scale_square(ax, m - s, 2 * s);
        lemma_scale_square(ay, m - s, 2 * s);
        assert((ax + 2 * cx) * (ax + 2 * cx) >= ax * ax) by (nonlinear_arith)
            requires (ax >= 0 && cx >= 0) || (ax <= 0 && cx <= 0);
        assert((ay + 2 * cy) * (ay + 2 * cy) >= ay * ay) by (nonlinear_arith)
            requires (ay >= 0 && cy >= 0) || (ay <= 0 && cy <= 0);
    }
}

proof fn lemma_collide_row_fixed(objs: Seq<VerletObject>, i: int, k: int, n: int)
    requires
        n == objs.len(),
        0 <= i < n,
        i < k,
        forall|p: int, q: int|
            0 <= p < q < n ==> dist2(objs[p].position_current, objs[q].position_current) >= (
            objs[p].radius + objs[q].radius) * (objs[p].radius + objs[q].radius),
    ensures
        collide_row(objs, i, k, n) == objs,
    decreases n - k,
{
    if k < n {
        assert(dist2(objs[i].position_current, objs[k].position_current) >= (objs[i].radius
            + objs[k].radius) * (objs[i].radius + objs[k].radius));
        assert(resolve_at(objs, i, k) =~= objs);
        lemma_collide_row_fixed(objs, i, k + 1, n);
    }
}

proof fn lemma_collide_rows_fixed(objs: Seq<VerletObject>, start: int, n: int)
    requires
        n == objs.len(),
        0 <= start,
        forall|p: int, q: int|
            0 <= p < q < n ==> dist2(objs[p].position_current, objs[q].position_current) >= (
            objs[p].radius + objs[q].radius) * (objs[p].radius + objs[q].radius),
    ensures
        collide_rows(objs, start, n) == objs,
    decreases n - start,
{
    if start < n {
        lemma_collide_row_fixed(objs, start, start + 1, n);
        lemma_collide_rows_fixed(objs, start + 1, n);
    }
}

/// Bodies at rest, inside the arena and overlapping no other body, are left
/// exactly where they are by a sub-step without gravity.
pub proof fn lemma_rest_is_fixed_point(s: Solver, objs: Seq<VerletObject>, dt: int)
    requires
        s.gravity == (Vec2 { x: 0, y: 0 }),
        all_wf(objs),
        forall|j: int|
            0 <= j < objs.len() ==> (#[trigger] objs[j]).position_current == objs[j].position_old
                && objs[j].acceleration == (Vec2 { x: 0, y: 0 }) && dist2(
                objs[j].position_current,
                s.center,
            ) <= contain_limit(s.boundary_radius as int, objs[j].radius as int) * contain_limit(
                s.boundary_radius as int,
                objs[j].radius as int,
            ),
        forall|p: int, q: int|
            0 <= p < q < objs.len() ==> dist2(objs[p].position_current, objs[q].position_current)
                >= (objs[p].radius + objs[q].radius) * (objs[p].radius + objs[q].radius),
    ensures
        sub_step(s, objs, dt) == objs,
{
    let g = gravity_all(objs, s.gravity);
    assert(g =~= objs) by {
        assert forall|j: int| 0 <= j < objs.len() implies g[j] == objs[j] by {
            assert(objs[j].wf());
        }
    }
    let c = contain_all(g, s.center, s.boundary_radius as int);
    assert(c =~= objs);
    lemma_collide_rows_fixed(objs, 0, objs.len() as int);
    let i = integrate_all(objs, dt);
    assert(0 * dt * dt == 0) by (nonlinear_arith);
    assert(i =~= objs) by {
        assert forall|j: int| 0 <= j < objs.len() implies i[j] == objs[j] by {
            assert(objs[j].wf());
        }
    }
}

} // verus!
