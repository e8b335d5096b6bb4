//! Laws that the force law and the step obey.
use vstd::multiset::Multiset;
use vstd::prelude::*;
use crate::arith::{abs, isqrt, lemma_isqrt, trunc_div};
use crate::planet::{
    movable, next_pos, next_vel, others, pair_force, pull, total_force, Gravity, Planet,
};
use crate::universe::{all_massive, all_movable, degenerate, stepped};

verus! {

broadcast use vstd::seq_lib::group_to_multiset_ensures;

/// A body alone in its universe feels no force: its velocity is kept, and its
/// position moves by its velocity times `dt`.
pub proof fn law_isolated_body(u: Seq<Planet>, g: Gravity, dt: int)
    requires
        u.len() == 1,
        u[0].mass > 0,
    ensures
        total_force(u[0], others(u, 0), g) == (0int, 0int),
        next_vel(u[0], others(u, 0), g, dt) == (u[0].vel.x as int, u[0].vel.y as int),
        next_pos(u[0], dt) == (u[0].pos.x + u[0].vel.x * dt, u[0].pos.y + u[0].vel.y * dt),
{
    assert(others(u, 0) =~= Seq::<Planet>::empty());
    assert(trunc_div(0, u[0].mass as int) == 0);
    assert(0 * dt == 0);
}

proof fn lemma_pull_odd(k: int, d: int, n: int, r: int, den: int)
    requires
        n * r > 0,
        den > 0,
    ensures
        pull(k, -d, n, r, den) == -pull(k, d, n, r, den),
{
    assert(abs(-d) == abs(d));
    if d == 0 {
        assert(k * abs(d) == 0) by (nonlinear_arith)
            requires
                d == 0,
        ;
        assert(0int / (n * r) == 0);
    }
}

/// The force that `a` exerts on `b` is the opposite of the one that `b`
/// exerts on `a`, wherever the two stand apart.
pub proof fn law_pair_antisymmetric(a: Planet, b: Planet, g: Gravity)
    requires
        a.pos != b.pos,
        g.den > 0,
    ensures
        pair_force(a, b, g).0 == -pair_force(b, a, g).0,
        pair_force(a, b, g).1 == -pair_force(b, a, g).1,
{
    let dx = a.pos.x - b.pos.x;
    let dy = a.pos.y - b.pos.y;
    assert((-dx) * (-dx) == dx * dx && (-dy) * (-dy) == dy * dy) by (nonlinear_arith);
    assert(g.num * a.mass * b.mass == g.num * b.mass * a.mass) by (nonlinear_arith);
    let n = dx * dx + dy * dy;
    let r = isqrt(n as nat) as int;
    let k = g.num * a.mass * b.mass;
    lemma_isqrt(n as nat);
    assert(n * r > 0) by (nonlinear_arith)
        requires
            n == dx * dx + dy * dy,
            dx != 0 || dy != 0,
            r >= 0,
            n < (r + 1) * (r + 1),
    ;
    lemma_pull_odd(k, dx, n, r, g.den as int);
    lemma_pull_odd(k, dy, n, r, g.den as int);
}

/// In a universe of two bodies that stand apart, the net forces on the two
/// are opposite.
pub proof fn law_third_law(u: Seq<Planet>, g: Gravity)
    requires
        u.len() == 2,
        u[0].pos != u[1].pos,
        g.den > 0,
    ensures
        total_force(u[0], others(u, 0), g).0 == -total_force(u[1], others(u, 1), g).0,
        total_force(u[0], others(u, 0), g).1 == -total_force(u[1], others(u, 1), g).1,
{
    assert(others(u, 0) =~= seq![u[1]]);
    assert(others(u, 1) =~= seq![u[0]]);
    assert(seq![u[1]].drop_last() =~= Seq::<Planet>::empty());
    assert(seq![u[0]].drop_last() =~= Seq::<Planet>::empty());
    assert(total_force(u[0], Seq::<Planet>::empty(), g) == (0int, 0int));
    assert(total_force(u[1], Seq::<Planet>::empty(), g) == (0int, 0int));
    assert(total_force(u[0], seq![u[1]], g) == pair_force(u[0], u[1], g));
    assert(total_force(u[1], seq![u[0]], g) == pair_force(u[1], u[0], g));
    law_pair_antisymmetric(u[0], u[1], g);
}

/// Taking out the source at `j` takes its pull out of the total.
proof fn lemma_total_remove(b: Planet, s: Seq<Planet>, j: int, g: Gravity)
    requires
        0 <= j < s.len(),
    ensures
        total_force(b, s, g).0 == total_force(b, s.remove(j), g).0 + pair_force(b, s[j], g).0,
        total_force(b, s, g).1 == total_force(b, s.remove(j), g).1 + pair_force(b, s[j], g).1,
    decreases s.len(),
{
    if j == s.len() - 1 {
        assert(s.remove(j) =~= s.drop_last());
    } else {
        let t = s.drop_last();
        lemma_total_remove(b, t, j, g);
        assert(s.remove(j).drop_last() =~= t.remove(j));
        assert(s.remove(j).last() == s.last());
    }
}

/// The total force does not depend on the order of the sources.
proof fn lemma_total_permutation(b: Planet, s1: Seq<Planet>, s2: Seq<Planet>, g: Gravity)
    requires
        s1.to_multiset() == s2.to_multiset(),
    ensures
        total_force(b, s1, g) == total_force(b, s2, g),
    decreases s1.len(),
{
    if s1.len() == 0 {
        assert(s2.to_multiset().len() == 0);
        assert(s2 =~= Seq::<Planet>::empty());
    } else {
        let x = s1.last();
        let t = s1.drop_last();
        assert(t.push(x) =~= s1);
        assert(s1.to_multiset().count(x) > 0);
        assert(s2.contains(x));
        let j = choose|j: int| 0 <= j < s2.len() && s2[j] == x;
        lemma_total_remove(b, s2, j, g);
        assert(s2.remove(j).to_multiset() =~= t.to_multiset());
        lemma_total_permutation(b, t, s2.remove(j), g);
    }
}

/// Reordering the bodies of a universe does not change what happens to any of
/// them: where `v` holds the bodies of `u` in another order and `v[k]` is
/// `u[i]`, that body feels the same force and reaches the same state.
pub proof fn law_order_independence(
    u: Seq<Planet>,
    v: Seq<Planet>,
    i: int,
    k: int,
    g: Gravity,
    dt: int,
)
    requires
        v.to_multiset() == u.to_multiset(),
        0 <= i < u.len(),
        0 <= k < v.len(),
        v[k] == u[i],
    ensures
        total_force(v[k], others(v, k), g) == total_force(u[i], others(u, i), g),
        next_pos(v[k], dt) == next_pos(u[i], dt),
        next_vel(v[k], others(v, k), g, dt) == next_vel(u[i], others(u, i), g, dt),
        movable(v[k], others(v, k), g, dt) == movable(u[i], others(u, i), g, dt),
{
    assert(others(v, k).to_multiset() =~= others(u, i).to_multiset());
    lemma_total_permutation(u[i], others(v, k), others(u, i), g);
}

/// The step of a reordered universe is the step of the universe, reordered.
pub proof fn law_step_order_independence(
    u: Seq<Planet>,
    v: Seq<Planet>,
    x: Seq<Planet>,
    y: Seq<Planet>,
    i: int,
    k: int,
    g: Gravity,
    dt: int,
)
    requires
        v.to_multiset() == u.to_multiset(),
        0 <= i < u.len(),
        0 <= k < v.len(),
        v[k] == u[i],
        stepped(x, u, g, dt),
        stepped(y, v, g, dt),
    ensures
        y[k] == x[i],
{
    law_order_independence(u, v, i, k, g, dt);
    assert(y[k].color == v[k].color);
    assert(x[i].color == u[i].color);
}

/// A value that occurs in `s` stands at some index of it.
proof fn lemma_index_of(s: Seq<Planet>, x: Planet) -> (k: int)
    requires
        s.to_multiset().count(x) > 0,
    ensures
        0 <= k < s.len(),
        s[k] == x,
{
    assert(s.contains(x));
    choose|k: int| 0 <= k < s.len() && s[k] == x
}

/// A value that stands at two indices of `s` occurs at least twice in it.
proof fn lemma_count_two(s: Seq<Planet>, i: int, j: int)
    requires
        0 <= i < s.len(),
        0 <= j < s.len(),
        i != j,
        s[i] == s[j],
    ensures
        s.to_multiset().count(s[i]) >= 2,
{
    let t = s.remove(i);
    let jj = if j < i {
        j
    } else {
        j - 1
    };
    broadcast use vstd::multiset::group_multiset_axioms;

    assert(t[jj] == s[j]);
    assert(t.contains(s[i]));
    assert(s.contains(s[i]));
    assert(t.to_multiset() =~= s.to_multiset().remove(s[i]));
    assert(Multiset::singleton(s[i]).count(s[i]) == 1);
    assert(t.to_multiset().count(s[i]) > 0);
}

/// A value that occurs twice in `s` stands at two distinct indices of it.
proof fn lemma_two_indices(s: Seq<Planet>, x: Planet) -> (r: (int, int))
    requires
        s.to_multiset().count(x) >= 2,
    ensures
        0 <= r.0 < s.len(),
        0 <= r.1 < s.len(),
        r.0 != r.1,
        s[r.0] == x,
        s[r.1] == x,
{
    let k = lemma_index_of(s, x);
    let t = s.remove(k);
    broadcast use vstd::multiset::group_multiset_axioms;

    assert(t.to_multiset() =~= s.to_multiset().remove(x));
    assert(Multiset::singleton(x).count(x) == 1);
    assert(t.to_multiset().count(x) > 0);
    let kk = lemma_index_of(t, x);
    let l = if kk < k {
        kk
    } else {
        kk + 1
    };
    assert(s[l] == t[kk]);
    (k, l)
}

proof fn lemma_degenerate_carries(u: Seq<Planet>, v: Seq<Planet>)
    requires
        v.to_multiset() == u.to_multiset(),
        degenerate(u),
    ensures
        degenerate(v),
{
    let (i, j) = choose|i: int, j: int|
        0 <= i < u.len() && 0 <= j < u.len() && i != j && #[trigger] u[i].pos
            == #[trigger] u[j].pos;
    if u[i] == u[j] {
        lemma_count_two(u, i, j);
        let (k, l) = lemma_two_indices(v, u[i]);
        assert(v[k].pos == v[l].pos);
    } else {
        assert(u.contains(u[i]) && u.contains(u[j]));
        let k = lemma_index_of(v, u[i]);
        let l = lemma_index_of(v, u[j]);
        assert(v[k].pos == v[l].pos);
    }
}

/// Reordering the bodies of a universe does not change whether a step
/// succeeds, nor which error it meets: the masses, the coincidences and the
/// ranges that decide it are the same.
pub proof fn law_outcome_order_independence(u: Seq<Planet>, v: Seq<Planet>, g: Gravity, dt: int)
    requires
        v.to_multiset() == u.to_multiset(),
    ensures
        all_massive(v) == all_massive(u),
        degenerate(v) == degenerate(u),
        all_movable(v, g, dt) == all_movable(u, g, dt),
{
    if degenerate(u) {
        lemma_degenerate_carries(u, v);
    }
    if degenerate(v) {
        lemma_degenerate_carries(v, u);
    }
    assert forall|k: int| 0 <= k < v.len() implies (#[trigger] v[k]).mass > 0 || !all_massive(u) by {
        if all_massive(u) {
            assert(v.contains(v[k]));
            let i = lemma_index_of(u, v[k]);
        }
    }
    assert forall|i: int| 0 <= i < u.len() implies (#[trigger] u[i]).mass > 0 || !all_massive(v) by {
        if all_massive(v) {
            assert(u.contains(u[i]));
            let k = lemma_index_of(v, u[i]);
        }
    }
    assert forall|k: int| 0 <= k < v.len() implies movable(#[trigger] v[k], others(v, k), g, dt)
        || !all_movable(u, g, dt) by {
        if all_movable(u, g, dt) {
            assert(v.contains(v[k]));
            let i = lemma_index_of(u, v[k]);
            law_order_independence(u, v, i, k, g, dt);
        }
    }
    assert forall|i: int| 0 <= i < u.len() implies movable(#[trigger] u[i], others(u, i), g, dt)
        || !all_movable(v, g, dt) by {
        if all_movable(v, g, dt) {
            assert(u.contains(u[i]));
            let k = lemma_index_of(v, u[i]);
            law_order_independence(v, u, k, i, g, dt);
        }
    }
}

} // verus!
