//! Bodies, the force law between two of them, and the advance of one body.
use vstd::prelude::*;
use crate::arith::{abs, fits_i32, isqrt, isqrt_u128, trunc_div, trunc_div_i128};
use crate::vector::{holds, Vector};
use vstd::arithmetic::div_mod::{lemma_div_is_ordered, lemma_div_multiples_vanish};

verus! {

/// The most bodies a universe may hold: the net force on a body is summed in
/// an `i128`.
pub const MAX_BODIES: usize = 0xffff_ffff;

/// No single attraction between two bodies exceeds this in either component.
pub const FORCE_BOUND: u128 = 0x4000_0000_0000_0000_0000_0000u128;

/// A colour for drawing, as red, green, blue and opacity.
#[derive(Clone, Copy, Debug, PartialEq, Eq)]
pub struct Color {
    pub r: u8,
    pub g: u8,
    pub b: u8,
    pub a: u8,
}

/// One body of the simulation.
///
/// `mass` must be positive; `radius` and `tiny` (the radius of a small
/// marker drawn when the view is zoomed out, none when zero) only serve
/// for drawing.
#[derive(Clone, Copy, Debug, PartialEq, Eq)]
pub struct Planet {
    pub color: Color,
    pub mass: i32,
    pub radius: u32,
    pub pos: Vector,
    pub vel: Vector,
    pub tiny: u32,
}

/// The gravitational constant as the fraction `num / den`, in the units of
/// the run.
#[derive(Clone, Copy, Debug, PartialEq, Eq)]
pub struct Gravity {
    pub num: u32,
    pub den: u32,
}

#[derive(Clone, Copy, Debug, PartialEq, Eq)]
pub enum SimError {
    /// A body's mass is zero or negative.
    InvalidBody,
    /// The gravitational constant has a zero denominator.
    InvalidConstant,
    /// Two distinct bodies share a position, where the force is unbounded.
    DegenerateConfiguration,
    /// A new position or velocity does not fit the integer range.
    OutOfRange,
}

/// One component of the attraction: `k * |d| / (n * r * den)` rounded toward
/// zero, pointing against the displacement `d`.
pub open spec fn pull(k: int, d: int, n: int, r: int, den: int) -> int {
    let mag = (k * abs(d)) / (n * r) / den;
    if d > 0 {
        -mag
    } else {
        mag
    }
}

/// The force that `p` exerts on `b`: `-G * b.mass * p.mass * d / |d|^3`,
/// where `d` is `b.pos - p.pos` and `|d|` is the integer square root of its
/// squared length.
pub open spec fn pair_force(b: Planet, p: Planet, g: Gravity) -> (int, int) {
    let dx = b.pos.x - p.pos.x;
    let dy = b.pos.y - p.pos.y;
    let n = dx * dx + dy * dy;
    let r = isqrt(n as nat) as int;
    let k = g.num * b.mass * p.mass;
    (pull(k, dx, n, r, g.den as int), pull(k, dy, n, r, g.den as int))
}

/// The sum of the forces that the bodies of `sources` exert on `b`.
pub open spec fn total_force(b: Planet, sources: Seq<Planet>, g: Gravity) -> (int, int)
    decreases sources.len(),
{
    if sources.len() == 0 {
        (0, 0)
    } else {
        let rest = total_force(b, sources.drop_last(), g);
        let f = pair_force(b, sources.last(), g);
        (rest.0 + f.0, rest.1 + f.1)
    }
}

pub open spec fn acceleration(b: Planet, sources: Seq<Planet>, g: Gravity) -> (int, int) {
    let f = total_force(b, sources, g);
    (trunc_div(f.0, b.mass as int), trunc_div(f.1, b.mass as int))
}

/// The position after `dt`, reached with the velocity from before the step.
pub open spec fn next_pos(b: Planet, dt: int) -> (int, int) {
    (b.pos.x + b.vel.x * dt, b.pos.y + b.vel.y * dt)
}

pub open spec fn next_vel(b: Planet, sources: Seq<Planet>, g: Gravity, dt: int) -> (int, int) {
    let a = acceleration(b, sources, g);
    (b.vel.x + a.0 * dt, b.vel.y + a.1 * dt)
}

pub open spec fn in_range(p: (int, int)) -> bool {
    fits_i32(p.0) && fits_i32(p.1)
}

/// Whether the new position and velocity of `b` both fit the integer range.
pub open spec fn movable(b: Planet, sources: Seq<Planet>, g: Gravity, dt: int) -> bool {
    in_range(next_pos(b, dt)) && in_range(next_vel(b, sources, g, dt))
}

/// Every body of `u` but the one at `i` has a positive mass and stands
/// elsewhere than `b`.
pub open spec fn valid_at(u: Seq<Planet>, b: Planet, i: int) -> bool {
    forall|j: int| 0 <= j < u.len() && j != i ==> u[j].mass > 0 && u[j].pos != b.pos
}

/// The bodies of `u` that act on the one at `i`.
pub open spec fn others(u: Seq<Planet>, i: int) -> Seq<Planet> {
    u.remove(i)
}

/// The bodies of `u` before index `j`, leaving out the one at `i`.
pub open spec fn others_before(u: Seq<Planet>, i: int, j: int) -> Seq<Planet> {
    if j <= i {
        u.subrange(0, j)
    } else {
        u.subrange(0, i) + u.subrange(i + 1, j)
    }
}

proof fn lemma_square_bound(x: int)
    requires
        -0x1_0000_0000 <= x <= 0x1_0000_0000,
    ensures
        0 <= x * x <= 0x1_0000_0000_0000_0000,
{
    let a = abs(x);
    assert(x * x == a * a) by (nonlinear_arith)
        requires
            a == x || a == -x,
    ;
    assert(0 <= a * a <= 0x1_0000_0000_0000_0000) by (nonlinear_arith)
        requires
            0 <= a <= 0x1_0000_0000,
    ;
}

/// One component of the attraction, as `pull` gives it.
fn pull_exec(k: u128, d: i128, n: u128, r: u128, den: u32) -> (f: i128)
    requires
        k < FORCE_BOUND,
        abs(d as int) <= n,
        abs(d as int) <= 0x2_0000_0000,
        1 <= n <= 0x4_0000_0000_0000_0000u128,
        1 <= r <= 0x2_0000_0000u128,
        den >= 1,
    ensures
        f == pull(k as int, d as int, n as int, r as int, den as int),
        abs(f as int) <= k,
{
    let ad: u128 = if d < 0 {
        (-d) as u128
    } else {
        d as u128
    };
    assert(k * ad < 0x8000_0000_0000_0000_0000_0000_0000_0000u128) by (nonlinear_arith)
        requires
            k < 0x4000_0000_0000_0000_0000_0000u128,
            ad <= 0x2_0000_0000u128,
    ;
    assert(n * r <= 0x8_0000_0000_0000_0000_0000_0000u128) by (nonlinear_arith)
        requires
            n <= 0x4_0000_0000_0000_0000u128,
            r <= 0x2_0000_0000u128,
    ;
    assert(n * r >= 1) by (nonlinear_arith)
        requires
            n >= 1,
            r >= 1,
    ;
    let prod: u128 = k * ad;
    let nr: u128 = n * r;
    let q: u128 = prod / nr;
    let mag: u128 = q / (den as u128);
    proof {
        assert(prod <= nr * k) by (nonlinear_arith)
            requires
                prod == k * ad,
                nr == n * r,
                ad <= n,
                r >= 1,
                k >= 0,
        ;
        lemma_div_is_ordered(prod as int, (nr * k) as int, nr as int);
        lemma_div_multiples_vanish(k as int, nr as int);
        assert(mag <= q) by (nonlinear_arith)
            requires
                mag == q / (den as u128),
                den >= 1,
        ;
    }
    if d > 0 {
        -(mag as i128)
    } else {
        mag as i128
    }
}

/// The force that `p` exerts on `b`, as `pair_force` gives it.
fn pair_force_exec(b: &Planet, p: &Planet, g: &Gravity) -> (f: (i128, i128))
    requires
        b.mass > 0,
        p.mass > 0,
        g.den > 0,
        b.pos != p.pos,
    ensures
        f.0 == pair_force(*b, *p, *g).0,
        f.1 == pair_force(*b, *p, *g).1,
        abs(f.0 as int) < FORCE_BOUND,
        abs(f.1 as int) < FORCE_BOUND,
{
    let dx: i128 = b.pos.x as i128 - p.pos.x as i128;
    let dy: i128 = b.pos.y as i128 - p.pos.y as i128;
    proof {
        lemma_square_bound(dx as int);
        lemma_square_bound(dy as int);
    }
    let n: u128 = (dx * dx + dy * dy) as u128;
    assert(abs(dx as int) <= n && abs(dy as int) <= n && n >= 1) by (nonlinear_arith)
        requires
            n == dx * dx + dy * dy,
            dx != 0 || dy != 0,
    ;
    let r: u128 = isqrt_u128(n);
    assert(r >= 1) by (nonlinear_arith)
        requires
            n < (r + 1) * (r + 1),
            n >= 1,
    ;
    assert((g.num as u128) * (b.mass as u128) <= 0x8000_0000_0000_0000u128) by (nonlinear_arith)
        requires
            0 <= g.num <= 0xffff_ffffu32,
            0 < b.mass <= 0x7fff_ffffi32,
    ;
    let gm: u128 = (g.num as u128) * (b.mass as u128);
    assert(gm * (p.mass as u128) < FORCE_BOUND) by (nonlinear_arith)
        requires
            gm == (g.num as int) * (b.mass as int),
            0 <= g.num <= 0xffff_ffffu32,
            0 < b.mass <= 0x7fff_ffffi32,
            0 < p.mass <= 0x7fff_ffffi32,
    ;
    let k: u128 = gm * (p.mass as u128);
    (pull_exec(k, dx, n, r, g.den), pull_exec(k, dy, n, r, g.den))
}

/// The force that the bodies of `u`, but the one at `index`, exert on `b`.
fn net_force(b: &Planet, u: &Vec<Planet>, index: usize, g: &Gravity) -> (f: (i128, i128))
    requires
        index < u.len() <= MAX_BODIES,
        b.mass > 0,
        g.den > 0,
        valid_at(u@, *b, index as int),
    ensures
        f.0 == total_force(*b, others(u@, index as int), *g).0,
        f.1 == total_force(*b, others(u@, index as int), *g).1,
        abs(f.0 as int) <= MAX_BODIES * FORCE_BOUND,
        abs(f.1 as int) <= MAX_BODIES * FORCE_BOUND,
{
    let mut fx: i128 = 0;
    let mut fy: i128 = 0;
    let mut j: usize = 0;
    while j < u.len()
        invariant
            index < u.len() <= MAX_BODIES,
            j <= u.len(),
            b.mass > 0,
            g.den > 0,
            valid_at(u@, *b, index as int),
            fx == total_force(*b, others_before(u@, index as int, j as int), *g).0,
            fy == total_force(*b, others_before(u@, index as int, j as int), *g).1,
            abs(fx as int) <= j * FORCE_BOUND,
            abs(fy as int) <= j * FORCE_BOUND,
        decreases u.len() - j,
    {
        let ghost before = others_before(u@, index as int, j as int);
        if j != index {
            let f = pair_force_exec(b, &u[j], g);
            proof {
                assert(others_before(u@, index as int, j + 1) =~= before.push(u@[j as int]));
                assert(before.push(u@[j as int]).drop_last() =~= before);
            }
            fx = fx + f.0;
            fy = fy + f.1;
        } else {
            assert(others_before(u@, index as int, j + 1) =~= before);
        }
        j = j + 1;
    }
    assert(others_before(u@, index as int, u.len() as int) =~= others(u@, index as int));
    (fx, fy)
}

impl Planet {
    /// A body with the given attributes, refused where its mass is not positive.
    pub fn new(color: Color, mass: i32, radius: u32, pos: Vector, vel: Vector, tiny: u32) -> (r:
        Result<Planet, SimError>)
        ensures
            r is Err <==> mass <= 0,
            r matches Err(e) ==> e == SimError::InvalidBody,
            r matches Ok(p) ==> p == (Planet { color, mass, radius, pos, vel, tiny }),
    {
        if mass <= 0 {
            Err(SimError::InvalidBody)
        } else {
            Ok(Planet { color, mass, radius, pos, vel, tiny })
        }
    }

    /// The new position and velocity of this body after `dt`, under the pull
    /// of every body of `universe` but the one at `index`, or `None` where
    /// either does not fit the integer range.
    pub fn update(&self, universe: &Vec<Planet>, index: usize, g: &Gravity, dt: i32) -> (r: Option<
        (Vector, Vector),
    >)
        requires
            index < universe.len() <= MAX_BODIES,
            self.mass > 0,
            g.den > 0,
            valid_at(universe@, *self, index as int),
        ensures
            r is Some <==> movable(*self, others(universe@, index as int), *g, dt as int),
            r matches Some(s) ==> holds(s.0, next_pos(*self, dt as int)) && holds(
                s.1,
                next_vel(*self, others(universe@, index as int), *g, dt as int),
            ),
    {
        let (fx, fy) = net_force(self, universe, index, g);
        let ax = trunc_div_i128(fx, self.mass as i128);
        let ay = trunc_div_i128(fy, self.mass as i128);
        let vx = match ax.checked_mul(dt as i128) {
            Some(d) => (self.vel.x as i128).checked_add(d),
            None => None,
        };
        let vy = match ay.checked_mul(dt as i128) {
            Some(d) => (self.vel.y as i128).checked_add(d),
            None => None,
        };
        assert(-0x4000_0000_0000_0000i64 <= self.vel.x * dt <= 0x4000_0000_0000_0000i64
            && -0x4000_0000_0000_0000i64 <= self.vel.y * dt <= 0x4000_0000_0000_0000i64)
            by (nonlinear_arith)
            requires
                i32::MIN <= self.vel.x <= i32::MAX,
                i32::MIN <= self.vel.y <= i32::MAX,
                i32::MIN <= dt <= i32::MAX,
        ;
        let px: i64 = self.pos.x as i64 + (self.vel.x as i64) * (dt as i64);
        let py: i64 = self.pos.y as i64 + (self.vel.y as i64) * (dt as i64);
        match (vx, vy) {
            (Some(vx), Some(vy)) => {
                if i32::MIN as i64 <= px && px <= i32::MAX as i64 && i32::MIN as i64 <= py && py
                    <= i32::MAX as i64 && i32::MIN as i128 <= vx && vx <= i32::MAX as i128
                    && i32::MIN as i128 <= vy && vy <= i32::MAX as i128 {
                    Some(
                        (
                            Vector { x: px as i32, y: py as i32 },
                            Vector { x: vx as i32, y: vy as i32 },
                        ),
                    )
                } else {
                    None
                }
            },
            _ => None,
        }
    }
}

} // verus!
