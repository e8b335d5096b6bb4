//! Advancing a whole universe by one step, and the laws that the step obeys.
use vstd::prelude::*;
use crate::planet::{
    movable, next_pos, next_vel, others, valid_at, Gravity, Planet, SimError, MAX_BODIES,
};
use crate::vector::holds;

verus! {

/// Every body has a positive mass.
pub open spec fn all_massive(u: Seq<Planet>) -> bool {
    forall|i: int| 0 <= i < u.len() ==> u[i].mass > 0
}

/// Two distinct bodies share a position.
pub open spec fn degenerate(u: Seq<Planet>) -> bool {
    exists|i: int, j: int|
        0 <= i < u.len() && 0 <= j < u.len() && i != j && #[trigger] u[i].pos
            == #[trigger] u[j].pos
}

/// Every body's new position and velocity fit the integer range.
pub open spec fn all_movable(u: Seq<Planet>, g: Gravity, dt: int) -> bool {
    forall|i: int| 0 <= i < u.len() ==> movable(#[trigger] u[i], others(u, i), g, dt)
}

/// `v` is `u` one step later: each body moved by the pull of all the others
/// as they stood before the step, with its other attributes kept.
pub open spec fn stepped(v: Seq<Planet>, u: Seq<Planet>, g: Gravity, dt: int) -> bool {
    &&& v.len() == u.len()
    &&& forall|i: int|
        #![trigger v[i]]
        0 <= i < u.len() ==> {
            &&& v[i].color == u[i].color
            &&& v[i].mass == u[i].mass
            &&& v[i].radius == u[i].radius
            &&& v[i].tiny == u[i].tiny
            &&& holds(v[i].pos, next_pos(u[i], dt))
            &&& holds(v[i].vel, next_vel(u[i], others(u, i), g, dt))
        }
}

/// Advances every body of `universe` by `dt`.
///
/// All new states are computed from the universe as it stood before the
/// step, and only then put together; nothing is returned on failure.
pub fn step(universe: &Vec<Planet>, g: &Gravity, dt: i32) -> (r: Result<Vec<Planet>, SimError>)
    requires
        universe.len() <= MAX_BODIES,
    ensures
        (r matches Err(e) && e == SimError::InvalidConstant) <==> g.den == 0,
        (r matches Err(e) && e == SimError::InvalidBody) <==> g.den != 0 && !all_massive(
            universe@,
        ),
        (r matches Err(e) && e == SimError::DegenerateConfiguration) <==> g.den != 0
            && all_massive(universe@) && degenerate(universe@),
        (r matches Err(e) && e == SimError::OutOfRange) <==> g.den != 0 && all_massive(universe@)
            && !degenerate(universe@) && !all_movable(universe@, *g, dt as int),
        r matches Ok(v) ==> stepped(v@, universe@, *g, dt as int),
{
    let n = universe.len();
    if g.den == 0 {
        return Err(SimError::InvalidConstant);
    }
    let mut i: usize = 0;
    while i < n
        invariant
            n == universe.len(),
            i <= n,
            g.den != 0,
            forall|a: int| 0 <= a < i ==> universe@[a].mass > 0,
        decreases n - i,
    {
        if universe[i].mass <= 0 {
            return Err(SimError::InvalidBody);
        }
        i = i + 1;
    }
    let mut i: usize = 0;
    while i < n
        invariant
            n == universe.len(),
            i <= n,
            g.den != 0,
            all_massive(universe@),
            forall|a: int, b: int|
                0 <= a < i && a < b < n ==> universe@[a].pos != universe@[b].pos,
        decreases n - i,
    {
        let mut j: usize = i + 1;
        while j < n
            invariant
                n == universe.len(),
                i < n,
                g.den != 0,
                all_massive(universe@),
                i + 1 <= j <= n,
                forall|a: int, b: int|
                    0 <= a < i && a < b < n ==> universe@[a].pos != universe@[b].pos,
                forall|b: int| i < b < j ==> universe@[i as int].pos != universe@[b].pos,
            decreases n - j,
        {
            if universe[i].pos.x == universe[j].pos.x && universe[i].pos.y == universe[j].pos.y {
                assert(universe@[i as int].pos == universe@[j as int].pos);
                return Err(SimError::DegenerateConfiguration);
            }
            j = j + 1;
        }
        i = i + 1;
    }
    assert forall|a: int, b: int|
        0 <= a < n && 0 <= b < n && a != b implies universe@[a].pos != universe@[b].pos by {
        if b < a {
            assert(universe@[b].pos != universe@[a].pos);
        }
    }
    let mut next: Vec<Planet> = Vec::new();
    let mut i: usize = 0;
    while i < n
        invariant
            n == universe.len() <= MAX_BODIES,
            i <= n,
            g.den != 0,
            all_massive(universe@),
            !degenerate(universe@),
            next.len() == i,
            forall|a: int| 0 <= a < i ==> movable(universe@[a], others(universe@, a), *g, dt as int),
            forall|a: int|
                #![trigger next@[a]]
                0 <= a < i ==> {
                    &&& next@[a].color == universe@[a].color
                    &&& next@[a].mass == universe@[a].mass
                    &&& next@[a].radius == universe@[a].radius
                    &&& next@[a].tiny == universe@[a].tiny
                    &&& holds(next@[a].pos, next_pos(universe@[a], dt as int))
                    &&& holds(
                        next@[a].vel,
                        next_vel(universe@[a], others(universe@, a), *g, dt as int),
                    )
                },
        decreases n - i,
    {
        let b = &universe[i];
        assert(valid_at(universe@, *b, i as int));
        match b.update(universe, i, g, dt) {
            Some((pos, vel)) => {
                next.push(
                    Planet {
                        color: b.color,
                        mass: b.mass,
                        radius: b.radius,
                        pos,
                        vel,
                        tiny: b.tiny,
                    },
                );
            },
            None => {
                return Err(SimError::OutOfRange);
            },
        }
        i = i + 1;
    }
    Ok(next)
}

} // verus!
