use orbits::arith::{isqrt_u128, trunc_div_i128};
use orbits::planet::{Color, Gravity, Planet, SimError};
use orbits::universe::step;
use orbits::vector::Vector;

const GREY: Color = Color { r: 180, g: 180, b: 180, a: 255 };

fn body(mass: i32, pos: (i32, i32), vel: (i32, i32)) -> Planet {
    Planet::new(GREY, mass, 10, Vector::new(pos.0, pos.1), Vector::new(vel.0, vel.1), 0).unwrap()
}

// Length in km, time in units of 1000 s, mass in units of 1e22 kg: the
// gravitational constant 6.67408e-20 km^3/(kg s^2) becomes 667_408_000.
const SOLAR: Gravity = Gravity { num: 667_408_000, den: 1 };

fn sun() -> Planet {
    body(198_900_000, (0, 0), (0, 0))
}

fn earth() -> Planet {
    body(597, (152_100_000, 0), (0, -29_300))
}

fn moon() -> Planet {
    body(7, (152_484_400, 0), (0, -28_300))
}

const LAB: Gravity = Gravity { num: 50_000, den: 1 };

fn trio() -> Vec<Planet> {
    vec![body(1000, (-300, 400), (3, -2)), body(1000, (900, -500), (0, 1)), body(50, (100, 100), (0, 0))]
}

#[test]
fn isolated_body_keeps_its_velocity() {
    let u = vec![body(1000, (10, -20), (7, 3))];
    let next = step(&u, &LAB, 5).unwrap();
    assert_eq!(next.len(), 1);
    assert_eq!(next[0].vel, Vector::new(7, 3));
    assert_eq!(next[0].pos, Vector::new(45, -5));
}

#[test]
fn two_equal_masses_change_velocity_oppositely() {
    let a = body(1000, (-300, 400), (3, -2));
    let b = body(1000, (900, -500), (0, 1));
    let next = step(&vec![a, b], &LAB, 2).unwrap();
    assert_eq!(next[0].vel, Vector::new(37, -28));
    assert_eq!(next[1].vel, Vector::new(-34, 27));
    let da = (next[0].vel.x - a.vel.x, next[0].vel.y - a.vel.y);
    let db = (next[1].vel.x - b.vel.x, next[1].vel.y - b.vel.y);
    assert_eq!(da, (-db.0, -db.1));
}

#[test]
fn sun_and_earth_one_step() {
    let next = step(&vec![sun(), earth()], &SOLAR, 1).unwrap();
    // The position moves with the velocity from before the step.
    assert_eq!(next[1].pos, Vector::new(152_100_000, -29_300));
    // About 5.7e-6 km/s^2 toward the sun, that is 5.7 km per (1000 s)^2,
    // rounded toward zero.
    assert_eq!(next[1].vel, Vector::new(-5, -29_300));
    assert_eq!(next[0].pos, Vector::new(0, 0));
    assert_eq!(next[0].vel, Vector::new(0, 0));
    assert_eq!(next[1].mass, 597);
}

#[test]
fn sun_earth_moon_one_step() {
    let next = step(&vec![sun(), earth(), moon()], &SOLAR, 1).unwrap();
    assert_eq!(next[1].vel, Vector::new(-5, -29_300));
    assert_eq!(next[2].pos, Vector::new(152_484_400, -28_300));
    assert_eq!(next[2].vel, Vector::new(-8, -28_300));
}

#[test]
fn reordering_bodies_reorders_results() {
    let u = trio();
    let v = vec![u[2], u[0], u[1]];
    let a = step(&u, &LAB, 2).unwrap();
    let b = step(&v, &LAB, 2).unwrap();
    assert_eq!(b[0], a[2]);
    assert_eq!(b[1], a[0]);
    assert_eq!(b[2], a[1]);
    assert_eq!(a[2].vel, Vector::new(-240, 180));
}

#[test]
fn every_body_sees_the_state_before_the_step() {
    let u = trio();
    let next = step(&u, &LAB, 10).unwrap();
    for i in [2usize, 0, 1] {
        let (pos, vel) = u[i].update(&u, i, &LAB, 10).unwrap();
        assert_eq!(next[i].pos, pos);
        assert_eq!(next[i].vel, vel);
    }
    assert_eq!(next[1].vel, Vector::new(-190, 141));
    // Moving the first body in place before the others would change what
    // the second one feels.
    let mut in_place = u.clone();
    let (p0, v0) = in_place[0].update(&in_place, 0, &LAB, 10).unwrap();
    in_place[0].pos = p0;
    in_place[0].vel = v0;
    let (_, v1) = in_place[1].update(&in_place, 1, &LAB, 10).unwrap();
    assert_eq!(v1, Vector::new(-200, 151));
    assert_ne!(v1, next[1].vel);
}

#[test]
fn coincident_bodies_are_refused() {
    let u = vec![body(5, (1, 1), (0, 0)), body(9, (4, 4), (1, 0)), body(7, (1, 1), (2, 2))];
    assert_eq!(step(&u, &LAB, 1), Err(SimError::DegenerateConfiguration));
}

#[test]
fn every_other_body_pulls() {
    let probe = body(1000, (0, 0), (0, 0));
    let one = step(&vec![probe, body(1000, (0, 100), (0, 0))], &LAB, 1).unwrap();
    assert_eq!(one[0].vel, Vector::new(0, 5000));
    let two = step(&vec![probe, body(1000, (0, 100), (0, 0)), body(1000, (100, 0), (0, 0))], &LAB, 1)
        .unwrap();
    assert_eq!(two[0].vel, Vector::new(5000, 5000));
    assert_eq!(two[1].vel, Vector::new(1773, -6773));
    assert_eq!(two[2].vel, Vector::new(-6773, 1773));
}

#[test]
fn non_positive_mass_is_refused() {
    let p = Vector::zero();
    assert_eq!(Planet::new(GREY, 0, 1, p, p, 0), Err(SimError::InvalidBody));
    assert_eq!(Planet::new(GREY, -5, 1, p, p, 0), Err(SimError::InvalidBody));
    let ok = Planet::new(GREY, 1, 2, Vector::new(3, 4), Vector::new(5, 6), 7).unwrap();
    assert_eq!(ok.mass, 1);
    assert_eq!(ok.radius, 2);
    assert_eq!(ok.tiny, 7);
}

#[test]
fn step_refuses_a_massless_body() {
    let mut u = trio();
    u[1].mass = 0;
    assert_eq!(step(&u, &LAB, 1), Err(SimError::InvalidBody));
}

#[test]
fn step_refuses_a_zero_denominator() {
    let g = Gravity { num: 1, den: 0 };
    assert_eq!(step(&trio(), &g, 1), Err(SimError::InvalidConstant));
}

#[test]
fn step_reports_leaving_the_range() {
    let u = vec![body(1, (2_000_000_000, 0), (200_000_000, 0))];
    assert_eq!(step(&u, &LAB, 1), Err(SimError::OutOfRange));
    let close = vec![body(i32::MAX, (0, 0), (0, 0)), body(i32::MAX, (1, 0), (0, 0))];
    let strong = Gravity { num: u32::MAX, den: 1 };
    assert_eq!(step(&close, &strong, i32::MAX), Err(SimError::OutOfRange));
}

#[test]
fn empty_universe_steps_to_empty() {
    assert_eq!(step(&Vec::new(), &LAB, 1), Ok(Vec::new()));
}

#[test]
fn vector_arithmetic() {
    let a = Vector::new(3, -4);
    assert_eq!(a.add(&Vector::new(10, 20)), Some(Vector::new(13, 16)));
    assert_eq!(a.mul(-3), Some(Vector::new(-9, 12)));
    assert_eq!(Vector::zero(), Vector::new(0, 0));
    assert_eq!(Vector::new(i32::MAX, 0).add(&Vector::new(1, 0)), None);
    assert_eq!(Vector::new(0, i32::MIN).mul(2), None);
}

#[test]
fn integer_square_root() {
    assert_eq!(isqrt_u128(0), 0);
    assert_eq!(isqrt_u128(15), 3);
    assert_eq!(isqrt_u128(16), 4);
    assert_eq!(isqrt_u128(23_134_410_000_000_000), 152_100_000);
    assert_eq!(isqrt_u128(1 << 66), 1 << 33);
}

#[test]
fn division_rounds_toward_zero() {
    assert_eq!(trunc_div_i128(7, 2), 3);
    assert_eq!(trunc_div_i128(-7, 2), -3);
    assert_eq!(trunc_div_i128(-3425, 597), -5);
}

#[test]
fn reordering_keeps_the_outcome() {
    let u = vec![body(5, (1, 1), (0, 0)), body(9, (4, 4), (1, 0)), body(7, (1, 1), (2, 2))];
    let v = vec![u[1], u[2], u[0]];
    assert_eq!(step(&v, &LAB, 1), step(&u, &LAB, 1));
    let far = vec![body(1, (2_000_000_000, 0), (200_000_000, 0)), body(1, (0, 0), (0, 0))];
    let far_swapped = vec![far[1], far[0]];
    assert_eq!(step(&far_swapped, &LAB, 1), Err(SimError::OutOfRange));
    assert_eq!(step(&far, &LAB, 1), Err(SimError::OutOfRange));
}
