use vstd::prelude::*;

use crate::geometry::{
    dist_sq, distance_sq, isqrt, lemma_dist_root, lemma_floor_sqrt_unique,
    lemma_route_bound, lemma_scaled_bounds, scale, GroundPoint,
};
use crate::world::{along, route_len, MoveTarget, Unit, World};

verus! {

/// Distance from the destination, in ground units, within which a unit has arrived.
pub const ARRIVAL_EPSILON: i64 = 10;

pub open spec fn min_int(a: int, b: int) -> int {
    if a <= b { a } else { b }
}

/// A unit after one tick in which it may travel `step` ground units.
///
/// Without an order nothing changes. Within `ARRIVAL_EPSILON` of its
/// destination the unit is put exactly on it and the order is cleared.
/// Otherwise `step` is added to the distance travelled along the order's
/// straight route, stopping at the route's end, and the unit stands at that
/// point of the route.
pub open spec fn advance_spec(u: Unit, step: int) -> Unit {
    match u.move_target {
        None => u,
        Some(m) => {
            if dist_sq(u.position, m.dest) <= ARRIVAL_EPSILON * ARRIVAL_EPSILON {
                Unit { position: m.dest, move_target: None, ..u }
            } else {
                let t = min_int(m.travelled + step, route_len(m));
                let m2 = MoveTarget { travelled: t as u64, ..m };
                Unit { position: along(m2), move_target: Some(m2), ..u }
            }
        },
    }
}

/// A well-formed order that has travelled its whole route stands on its destination.
proof fn lemma_route_end(m: MoveTarget)
    requires
        m.wf(),
        m.travelled == route_len(m),
    ensures
        along(m) == m.dest,
{
    lemma_dist_root(m.start, m.dest);
    let len = route_len(m);
    if len > 0 {
        lemma_scaled_bounds(m.dest.x - m.start.x, len, len);
        lemma_scaled_bounds(m.dest.z - m.start.z, len, len);
    }
}

/// A tick keeps a unit well formed.
pub proof fn lemma_advance_wf(u: Unit, step: int)
    requires
        u.wf(),
        step >= 0,
    ensures
        advance_spec(u, step).wf(),
        advance_spec(u, step).owner == u.owner,
        advance_spec(u, step).health == u.health,
{
    if let Some(m) = u.move_target {
        if dist_sq(u.position, m.dest) > ARRIVAL_EPSILON * ARRIVAL_EPSILON {
            lemma_dist_root(m.start, m.dest);
            lemma_route_bound(m.start, m.dest);
            let len = route_len(m);
            if len == 0 {
                assert(u.position == m.dest);
                assert(dist_sq(u.position, m.dest) == 0);
            }
            let t = min_int(m.travelled + step, len);
            lemma_scaled_bounds(m.dest.x - m.start.x, t, len);
            lemma_scaled_bounds(m.dest.z - m.start.z, t, len);
        }
    }
}

/// One tick of movement for a single unit.
pub fn advance(u: Unit, step: u64) -> (r: Unit)
    requires
        u.wf(),
    ensures
        r == advance_spec(u, step as int),
        r.wf(),
{
    proof {
        lemma_advance_wf(u, step as int);
    }
    match u.move_target {
        None => u,
        Some(m) => {
            let n = distance_sq(u.position, m.dest);
            if n <= (ARRIVAL_EPSILON * ARRIVAL_EPSILON) as u64 {
                Unit { position: m.dest, move_target: None, ..u }
            } else {
                let len = isqrt(distance_sq(m.start, m.dest));
                proof {
                    lemma_floor_sqrt_unique(dist_sq(m.start, m.dest), len as int);
                    lemma_dist_root(m.start, m.dest);
                    lemma_route_bound(m.start, m.dest);
                    assert(route_len(m) == len as int);
                    if len == 0 {
                        assert(u.position == m.dest);
                        assert(dist_sq(u.position, m.dest) == 0);
                    }
                }
                let t: u64 = if step >= len - m.travelled { len } else { m.travelled + step };
                proof {
                    lemma_scaled_bounds(m.dest.x - m.start.x, t as int, len as int);
                    lemma_scaled_bounds(m.dest.z - m.start.z, t as int, len as int);
                }
                let x = m.start.x + scale(m.dest.x - m.start.x, t, len);
                let z = m.start.z + scale(m.dest.z - m.start.z, t, len);
                Unit {
                    position: GroundPoint { x, z },
                    move_target: Some(MoveTarget { travelled: t, ..m }),
                    ..u
                }
            }
        },
    }
}

/// One tick of the movement controller: every unit with an order advances by
/// up to `step` ground units (its speed times the elapsed time).
pub fn move_towards_target(world: &mut World, step: u64)
    requires
        old(world).wf(),
    ensures
        final(world).wf(),
        final(world).players@ == old(world).players@,
        final(world).acting_player == old(world).acting_player,
        final(world).units@ == old(world).units@.map_values(|u: Unit| advance_spec(u, step as int)),
{
    let ghost units0 = world.units@;
    let mut i: usize = 0;
    while i < world.units.len()
        invariant
            old(world).wf(),
            units0 == old(world).units@,
            world.players@ == old(world).players@,
            world.acting_player == old(world).acting_player,
            world.units@.len() == units0.len(),
            i <= units0.len(),
            forall|j: int|
                0 <= j < units0.len() ==> (#[trigger] world.units@[j]).wf() && world.units@[j].owner
                    == units0[j].owner,
            forall|j: int|
                0 <= j < units0.len() ==> #[trigger] world.units@[j] == if j < i {
                    advance_spec(units0[j], step as int)
                } else {
                    units0[j]
                },
        decreases units0.len() - i,
    {
        assert(units0[i as int].wf());
        let u = advance(world.units[i], step);
        world.units.set(i, u);
        i = i + 1;
    }
    proof {
        assert(world.units@ =~= units0.map_values(|u: Unit| advance_spec(u, step as int)));
        assert forall|j: int| 0 <= j < world.units@.len() implies #[trigger] world.units@[j].wf()
            && world.units@[j].owner < world.players@.len() by {
            assert(units0[j].wf());
        }
    }
}

/// Arrival: a unit within `ARRIVAL_EPSILON` of its destination is put exactly
/// on it and loses its order; later ticks leave it there.
pub proof fn lemma_arrival_snap(u: Unit, m: MoveTarget, step: int, later: int)
    requires
        u.move_target == Some(m),
        dist_sq(u.position, m.dest) <= ARRIVAL_EPSILON * ARRIVAL_EPSILON,
    ensures
        advance_spec(u, step).position == m.dest,
        advance_spec(u, step).move_target.is_none(),
        advance_spec(advance_spec(u, step), later) == advance_spec(u, step),
{
}

/// Frame-rate independence: while neither tick brings a unit within
/// `ARRIVAL_EPSILON` of its destination, covering `s1` and then `s2` ground
/// units leaves it exactly where covering `s1 + s2` in one tick does, in any
/// direction.
pub proof fn lemma_travel_additive(u: Unit, m: MoveTarget, s1: int, s2: int)
    requires
        u.wf(),
        u.move_target == Some(m),
        s1 >= 0,
        s2 >= 0,
        dist_sq(u.position, m.dest) > ARRIVAL_EPSILON * ARRIVAL_EPSILON,
        dist_sq(advance_spec(u, s1).position, m.dest) > ARRIVAL_EPSILON * ARRIVAL_EPSILON,
    ensures
        advance_spec(advance_spec(u, s1), s2) == advance_spec(u, s1 + s2),
{
    lemma_route_bound(m.start, m.dest);
}

/// A unit after one tick for each entry of `steps`, in order.
pub open spec fn run_spec(u: Unit, steps: Seq<int>) -> Unit
    decreases steps.len(),
{
    if steps.len() == 0 {
        u
    } else {
        run_spec(advance_spec(u, steps[0]), steps.drop_first())
    }
}

/// The sum of the steps.
pub open spec fn steps_sum(steps: Seq<int>) -> int
    decreases steps.len(),
{
    if steps.len() == 0 {
        0
    } else {
        steps[0] + steps_sum(steps.drop_first())
    }
}

/// Non-negative steps have a non-negative sum.
proof fn lemma_steps_sum_nonneg(steps: Seq<int>)
    requires
        forall|k: int| 0 <= k < steps.len() ==> steps[k] >= 0,
    ensures
        steps_sum(steps) >= 0,
    decreases steps.len(),
{
    if steps.len() > 0 {
        let rest = steps.drop_first();
        assert(forall|k: int| 0 <= k < rest.len() ==> rest[k] == steps[k + 1]);
        lemma_steps_sum_nonneg(rest);
    }
}

/// A unit without an order stays as it is, tick after tick.
proof fn lemma_run_idle(u: Unit, steps: Seq<int>)
    requires
        u.move_target.is_none(),
    ensures
        run_spec(u, steps) == u,
    decreases steps.len(),
{
    if steps.len() > 0 {
        lemma_run_idle(u, steps.drop_first());
    }
}

/// Arrival: once the steps of a run of ticks add up to the distance left on
/// a unit's route, one more tick leaves it exactly on its destination with no
/// order, in any direction.
pub proof fn lemma_arrival(u: Unit, m: MoveTarget, steps: Seq<int>, last: int)
    requires
        u.wf(),
        u.move_target == Some(m),
        forall|k: int| 0 <= k < steps.len() ==> steps[k] >= 0,
        steps_sum(steps) >= route_len(m) - m.travelled,
    ensures
        run_spec(u, steps.push(last)).position == m.dest,
        run_spec(u, steps.push(last)).move_target.is_none(),
    decreases steps.len(),
{
    let all = steps.push(last);
    if dist_sq(u.position, m.dest) <= ARRIVAL_EPSILON * ARRIVAL_EPSILON {
        lemma_run_idle(advance_spec(u, all[0]), all.drop_first());
    } else {
        if steps.len() == 0 {
            lemma_route_end(m);
            lemma_dist_root(m.dest, m.dest);
            assert(dist_sq(m.dest, m.dest) == 0);
        }
        let s0 = steps[0];
        let rest = steps.drop_first();
        assert(all.drop_first() =~= rest.push(last));
        assert(all[0] == s0);
        lemma_advance_wf(u, s0);
        lemma_route_bound(m.start, m.dest);
        let v = advance_spec(u, s0);
        assert(steps_sum(steps) == s0 + steps_sum(rest));
        assert(forall|k: int| 0 <= k < rest.len() ==> rest[k] == steps[k + 1]);
        lemma_steps_sum_nonneg(rest);
        lemma_arrival(v, v.move_target.unwrap(), rest, last);
    }
}

} // verus!
