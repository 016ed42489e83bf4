//! Mathematical model of the simulation: a grid of `width * height` alive
//! flags in row-major order, the live-neighbour count of a position, the
//! birth/survival/death rule, the change notifications of one generation,
//! and the random seeding procedure. The executable board in [`crate::world`]
//! is specified against these functions.

use vstd::prelude::*;
use vstd::arithmetic::div_mod::lemma_fundamental_div_mod;
use vstd::arithmetic::div_mod::lemma_fundamental_div_mod_converse;
use vstd::arithmetic::div_mod::lemma_mod_bound;
use vstd::arithmetic::mul::lemma_mul_inequality;
use vstd::arithmetic::mul::lemma_mul_is_commutative;

verus! {

/// Whether `(i, j)` lies on a `w`-wide, `h`-high grid.
pub open spec fn in_bounds(w: int, h: int, i: int, j: int) -> bool {
    0 <= i < h && 0 <= j < w
}

/// 1 if `(i, j)` is on the grid and alive, else 0. Out-of-bounds positions
/// count as dead: the grid does not wrap around.
pub open spec fn live_at(g: Seq<bool>, w: int, h: int, i: int, j: int) -> int {
    if in_bounds(w, h, i, j) && g[i * w + j] {
        1
    } else {
        0
    }
}

/// How many of the up-to-8 grid-adjacent positions of `(i, j)` are alive.
pub open spec fn live_neighbours(g: Seq<bool>, w: int, h: int, i: int, j: int) -> int {
    live_at(g, w, h, i - 1, j - 1) + live_at(g, w, h, i - 1, j) + live_at(g, w, h, i - 1, j + 1)
        + live_at(g, w, h, i, j - 1) + live_at(g, w, h, i, j + 1) + live_at(g, w, h, i + 1, j - 1)
        + live_at(g, w, h, i + 1, j) + live_at(g, w, h, i + 1, j + 1)
}

/// Whether two positions are distinct and touch, orthogonally or diagonally.
pub open spec fn adjacent(i1: int, j1: int, i2: int, j2: int) -> bool {
    !(i1 == i2 && j1 == j2) && -1 <= i1 - i2 <= 1 && -1 <= j1 - j2 <= 1
}

/// The classic birth/survival rule: a live cell survives with 2 or 3 live
/// neighbours, a dead cell is born with exactly 3.
pub open spec fn next_state(alive: bool, n: int) -> bool {
    if alive {
        n == 2 || n == 3
    } else {
        n == 3
    }
}

/// One full generation: every position moves to its next state, all of them
/// judged on the same input grid.
pub open spec fn step(g: Seq<bool>, w: int, h: int) -> Seq<bool> {
    Seq::new(g.len(), |k: int| next_state(g[k], live_neighbours(g, w, h, k / w, k % w)))
}

/// `n` generations, applied in order.
pub open spec fn steps(g: Seq<bool>, w: int, h: int, n: nat) -> Seq<bool>
    decreases n,
{
    if n == 0 {
        g
    } else {
        step(steps(g, w, h, (n - 1) as nat), w, h)
    }
}

/// The change notifications produced while scanning the first `k` positions
/// of a generation in row-major order: `off` where a cell dies, `on` where
/// one is born, nothing where it keeps its state.
pub open spec fn draws_upto<C>(g: Seq<bool>, w: int, h: int, on: C, off: C, k: int) -> Seq<
    (usize, usize, C),
>
    decreases k,
{
    if k <= 0 {
        Seq::empty()
    } else {
        let p = k - 1;
        let i = p / w;
        let j = p % w;
        let prev = draws_upto(g, w, h, on, off, p);
        let n = live_neighbours(g, w, h, i, j);
        if g[p] && !(n == 2 || n == 3) {
            prev.push((i as usize, j as usize, off))
        } else if !g[p] && n == 3 {
            prev.push((i as usize, j as usize, on))
        } else {
            prev
        }
    }
}

/// All change notifications of one generation, in row-major scan order.
pub open spec fn draws<C>(g: Seq<bool>, w: int, h: int, on: C, off: C) -> Seq<(usize, usize, C)> {
    draws_upto(g, w, h, on, off, g.len() as int)
}

/// How many cells of the grid are alive.
pub open spec fn live_count(g: Seq<bool>) -> int
    decreases g.len(),
{
    if g.len() == 0 {
        0
    } else {
        live_count(g.drop_last()) + (if g.last() {
            1int
        } else {
            0int
        })
    }
}

/// One random point-sample: sets `(i, j)` alive only if it is currently
/// dead; a sample that hits a live cell is absorbed without effect.
pub open spec fn seed_one(g: Seq<bool>, w: int, i: int, j: int) -> Seq<bool> {
    if g[i * w + j] {
        g
    } else {
        g.update(i * w + j, true)
    }
}

/// The whole seeding pass: the samples applied in order.
pub open spec fn seed_all(g: Seq<bool>, w: int, s: Seq<(int, int)>) -> Seq<bool>
    decreases s.len(),
{
    if s.len() == 0 {
        g
    } else {
        seed_one(seed_all(g, w, s.drop_last()), w, s.last().0, s.last().1)
    }
}

/// Every sample lies on the grid.
pub open spec fn samples_in(s: Seq<(int, int)>, w: int, h: int) -> bool {
    forall|k: int| #![trigger s[k]] 0 <= k < s.len() ==> in_bounds(w, h, s[k].0, s[k].1)
}

/// Row-major index arithmetic: an on-grid position indexes into the grid,
/// and the index decomposes back into the position.
pub proof fn lemma_idx_in_range(w: int, h: int, i: int, j: int)
    requires
        in_bounds(w, h, i, j),
    ensures
        0 <= i * w + j < w * h,
        (i * w + j) / w == i,
        (i * w + j) % w == j,
{
    assert(0 <= i * w + j < w * h) by (nonlinear_arith)
        requires
            0 <= i < h,
            0 <= j < w,
    ;
    lemma_fundamental_div_mod_converse(i * w + j, w, i, j);
}

/// A row-major index decomposes into the on-grid position it came from.
pub proof fn lemma_idx_decompose(w: int, h: int, k: int)
    requires
        w > 0,
        0 <= k < w * h,
    ensures
        in_bounds(w, h, k / w, k % w),
        (k / w) * w + k % w == k,
{
    lemma_fundamental_div_mod(k, w);
    lemma_mod_bound(k, w);
    lemma_mul_is_commutative(w, k / w);
    if k / w < 0 {
        lemma_mul_inequality(k / w, -1, w);
        assert(false);
    }
    if k / w >= h {
        lemma_mul_inequality(h, k / w, w);
        lemma_mul_is_commutative(w, h);
        assert(false);
    }
}

/// Row-major indexing is injective on on-grid positions.
pub proof fn lemma_idx_injective(w: int, i1: int, j1: int, i2: int, j2: int)
    requires
        0 <= j1 < w,
        0 <= j2 < w,
        i1 * w + j1 == i2 * w + j2,
    ensures
        i1 == i2,
        j1 == j2,
{
    assert(i1 == i2 && j1 == j2) by (nonlinear_arith)
        requires
            0 <= j1 < w,
            0 <= j2 < w,
            i1 * w + j1 == i2 * w + j2,
    ;
}

/// Distinct on-grid positions get distinct row-major indexes.
pub proof fn lemma_idx_distinct(w: int, i1: int, j1: int, i2: int, j2: int)
    requires
        0 <= j1 < w,
        0 <= j2 < w,
        !(i1 == i2 && j1 == j2),
    ensures
        i1 * w + j1 != i2 * w + j2,
{
    if i1 * w + j1 == i2 * w + j2 {
        lemma_idx_injective(w, i1, j1, i2, j2);
    }
}

/// Flipping one cell changes `live_at` only at that cell's own position.
pub proof fn lemma_live_at_update(
    g: Seq<bool>,
    w: int,
    h: int,
    ci: int,
    cj: int,
    v: bool,
    i: int,
    j: int,
)
    requires
        g.len() == w * h,
        in_bounds(w, h, ci, cj),
    ensures
        live_at(g.update(ci * w + cj, v), w, h, i, j) == (if i == ci && j == cj {
            if v {
                1int
            } else {
                0int
            }
        } else {
            live_at(g, w, h, i, j)
        }),
{
    lemma_idx_in_range(w, h, ci, cj);
    if in_bounds(w, h, i, j) {
        lemma_idx_in_range(w, h, i, j);
        if !(i == ci && j == cj) && i * w + j == ci * w + cj {
            lemma_idx_injective(w, i, j, ci, cj);
        }
    }
}

/// Flipping one cell moves the neighbour count of every adjacent position
/// by exactly one, in the direction of the flip, and leaves every other
/// position's count alone. The flipped cell's own count never moves.
pub proof fn lemma_live_neighbours_update(
    g: Seq<bool>,
    w: int,
    h: int,
    ci: int,
    cj: int,
    v: bool,
    i: int,
    j: int,
)
    requires
        g.len() == w * h,
        in_bounds(w, h, ci, cj),
        g[ci * w + cj] != v,
    ensures
        live_neighbours(g.update(ci * w + cj, v), w, h, i, j) == live_neighbours(g, w, h, i, j) + (
        if adjacent(ci, cj, i, j) {
            if v {
                1int
            } else {
                -1int
            }
        } else {
            0int
        }),
{
    lemma_idx_in_range(w, h, ci, cj);
    lemma_live_at_update(g, w, h, ci, cj, v, i - 1, j - 1);
    lemma_live_at_update(g, w, h, ci, cj, v, i - 1, j);
    lemma_live_at_update(g, w, h, ci, cj, v, i - 1, j + 1);
    lemma_live_at_update(g, w, h, ci, cj, v, i, j - 1);
    lemma_live_at_update(g, w, h, ci, cj, v, i, j + 1);
    lemma_live_at_update(g, w, h, ci, cj, v, i + 1, j - 1);
    lemma_live_at_update(g, w, h, ci, cj, v, i + 1, j);
    lemma_live_at_update(g, w, h, ci, cj, v, i + 1, j + 1);
}

/// On an all-dead grid every neighbour count is zero.
pub proof fn lemma_live_neighbours_all_dead(g: Seq<bool>, w: int, h: int, i: int, j: int)
    requires
        g.len() == w * h,
        forall|k: int| 0 <= k < g.len() ==> !g[k],
    ensures
        live_neighbours(g, w, h, i, j) == 0,
{
    assert forall|a: int, b: int| live_at(g, w, h, a, b) == 0 by {
        if in_bounds(w, h, a, b) {
            lemma_idx_in_range(w, h, a, b);
        }
    }
}

/// A neighbour count is always between 0 and 8.
pub proof fn lemma_live_neighbours_bounds(g: Seq<bool>, w: int, h: int, i: int, j: int)
    ensures
        0 <= live_neighbours(g, w, h, i, j) <= 8,
{
}

/// Rule correctness, position by position: a live cell survives exactly
/// with 2 or 3 live neighbours and dies otherwise; a dead cell is born
/// exactly with 3 and stays dead otherwise.
pub proof fn lemma_rule_correctness(g: Seq<bool>, w: int, h: int, i: int, j: int)
    requires
        g.len() == w * h,
        in_bounds(w, h, i, j),
    ensures
        g[i * w + j] && (live_neighbours(g, w, h, i, j) == 2 || live_neighbours(g, w, h, i, j)
            == 3) ==> step(g, w, h)[i * w + j],
        g[i * w + j] && !(live_neighbours(g, w, h, i, j) == 2 || live_neighbours(g, w, h, i, j)
            == 3) ==> !step(g, w, h)[i * w + j],
        !g[i * w + j] && live_neighbours(g, w, h, i, j) == 3 ==> step(g, w, h)[i * w + j],
        !g[i * w + j] && live_neighbours(g, w, h, i, j) != 3 ==> !step(g, w, h)[i * w + j],
{
    lemma_idx_in_range(w, h, i, j);
}

/// Skipping an empty cell is sound: dead with no live neighbours, it
/// cannot change this generation. Since the stepped grid is a function of
/// the input grid alone, an engine that drops the skip computes the same
/// grid and the same notifications.
pub proof fn lemma_skip_empty_sound(g: Seq<bool>, w: int, h: int, i: int, j: int)
    requires
        g.len() == w * h,
        in_bounds(w, h, i, j),
        !g[i * w + j],
        live_neighbours(g, w, h, i, j) == 0,
    ensures
        step(g, w, h)[i * w + j] == g[i * w + j],
{
    lemma_idx_in_range(w, h, i, j);
}

/// Determinism: equal grids step to equal grids for any number of
/// generations, and emit equal notification sequences, in order and
/// content.
pub proof fn lemma_determinism<C>(
    g1: Seq<bool>,
    g2: Seq<bool>,
    w: int,
    h: int,
    on: C,
    off: C,
    n: nat,
)
    requires
        g1 == g2,
    ensures
        steps(g1, w, h, n) == steps(g2, w, h, n),
        draws(g1, w, h, on, off) == draws(g2, w, h, on, off),
{
}

/// Boundary correctness at a corner: `(0, 0)` has at most three on-grid
/// neighbours, so its count never exceeds 3, whatever the grid holds.
pub proof fn lemma_corner_bound(g: Seq<bool>, w: int, h: int)
    requires
        w >= 1,
        h >= 1,
    ensures
        live_neighbours(g, w, h, 0, 0) <= 3,
{
}

/// Boundary correctness on an edge: a non-corner cell of the top row has
/// at most five on-grid neighbours, so its count never exceeds 5.
pub proof fn lemma_edge_bound(g: Seq<bool>, w: int, h: int, j: int)
    requires
        h >= 1,
        1 <= j < w - 1,
    ensures
        live_neighbours(g, w, h, 0, j) <= 5,
{
}

/// Flipping one cell moves the live population by exactly that cell's own
/// change.
pub proof fn lemma_live_count_update(g: Seq<bool>, k: int, v: bool)
    requires
        0 <= k < g.len(),
    ensures
        live_count(g.update(k, v)) == live_count(g) - (if g[k] {
            1int
        } else {
            0int
        }) + (if v {
            1int
        } else {
            0int
        }),
    decreases g.len(),
{
    let g2 = g.update(k, v);
    if k == g.len() - 1 {
        assert(g2.drop_last() =~= g.drop_last());
    } else {
        assert(g2.drop_last() =~= g.drop_last().update(k, v));
        lemma_live_count_update(g.drop_last(), k, v);
    }
}

/// Seeding never resizes the grid.
pub proof fn lemma_seed_all_len(g: Seq<bool>, w: int, h: int, s: Seq<(int, int)>)
    requires
        g.len() == w * h,
        samples_in(s, w, h),
    ensures
        seed_all(g, w, s).len() == g.len(),
    decreases s.len(),
{
    if s.len() > 0 {
        let s0 = s.drop_last();
        assert(samples_in(s0, w, h));
        lemma_seed_all_len(g, w, h, s0);
        lemma_idx_in_range(w, h, s.last().0, s.last().1);
        assert(seed_all(g, w, s) == seed_one(seed_all(g, w, s0), w, s.last().0, s.last().1));
    }
}

/// A seeding pass enlivens exactly the sampled positions: afterwards a
/// cell is alive iff it was alive before or some sample named it.
pub proof fn lemma_seed_all_effect(g: Seq<bool>, w: int, h: int, s: Seq<(int, int)>, p: int)
    requires
        g.len() == w * h,
        samples_in(s, w, h),
        0 <= p < g.len(),
    ensures
        seed_all(g, w, s)[p] == (g[p] || exists|k: int|
            0 <= k < s.len() && (#[trigger] s[k]).0 * w + s[k].1 == p),
    decreases s.len(),
{
    if s.len() == 0 {
    } else {
        let s0 = s.drop_last();
        assert(samples_in(s0, w, h));
        lemma_seed_all_effect(g, w, h, s0, p);
        lemma_seed_all_len(g, w, h, s0);
        let gm = seed_all(g, w, s0);
        let q = s.last();
        lemma_idx_in_range(w, h, q.0, q.1);
        assert(s[s.len() - 1] == q);
        if q.0 * w + q.1 == p {
            assert(seed_all(g, w, s)[p]);
            assert((#[trigger] s[s.len() - 1]).0 * w + s[s.len() - 1].1 == p);
        } else {
            assert(seed_all(g, w, s)[p] == gm[p]);
            if gm[p] {
                assert(g[p] || exists|k: int|
                    0 <= k < s0.len() && (#[trigger] s0[k]).0 * w + s0[k].1 == p);
                if !g[p] {
                    let k = choose|k: int|
                        0 <= k < s0.len() && (#[trigger] s0[k]).0 * w + s0[k].1 == p;
                    assert(s[k] == s0[k]);
                    assert((#[trigger] s[k]).0 * w + s[k].1 == p);
                }
            } else {
                if exists|k: int| 0 <= k < s.len() && (#[trigger] s[k]).0 * w + s[k].1 == p {
                    let k = choose|k: int|
                        0 <= k < s.len() && (#[trigger] s[k]).0 * w + s[k].1 == p;
                    assert(k < s0.len());
                    assert((#[trigger] s0[k]).0 * w + s0[k].1 == p);
                }
            }
        }
    }
}

/// An all-dead grid has no live cells.
pub proof fn lemma_live_count_all_dead(g: Seq<bool>)
    requires
        forall|k: int| 0 <= k < g.len() ==> !g[k],
    ensures
        live_count(g) == 0,
    decreases g.len(),
{
    if g.len() > 0 {
        lemma_live_count_all_dead(g.drop_last());
    }
}

/// Seeding under-fill: a pass of point-samples grows the live population
/// by at most one cell per sample.
pub proof fn lemma_seed_under_fill(g: Seq<bool>, w: int, h: int, s: Seq<(int, int)>)
    requires
        g.len() == w * h,
        samples_in(s, w, h),
    ensures
        live_count(seed_all(g, w, s)) <= live_count(g) + s.len(),
    decreases s.len(),
{
    if s.len() > 0 {
        let s0 = s.drop_last();
        assert(samples_in(s0, w, h));
        lemma_seed_under_fill(g, w, h, s0);
        lemma_seed_all_len(g, w, h, s0);
        let gm = seed_all(g, w, s0);
        let q = s.last();
        lemma_idx_in_range(w, h, q.0, q.1);
        if !gm[q.0 * w + q.1] {
            lemma_live_count_update(gm, q.0 * w + q.1, true);
        }
    }
}

/// Seeding exactness: when no two samples coincide and every sampled cell
/// starts dead, every sample enlivens a fresh cell, one per sample.
pub proof fn lemma_seed_exact_when_fresh(g: Seq<bool>, w: int, h: int, s: Seq<(int, int)>)
    requires
        g.len() == w * h,
        samples_in(s, w, h),
        forall|k1: int, k2: int| 0 <= k1 < k2 < s.len() ==> s[k1] != s[k2],
        forall|k: int| 0 <= k < s.len() ==> !g[(#[trigger] s[k]).0 * w + s[k].1],
    ensures
        live_count(seed_all(g, w, s)) == live_count(g) + s.len(),
    decreases s.len(),
{
    if s.len() > 0 {
        let s0 = s.drop_last();
        assert(samples_in(s0, w, h));
        assert forall|k: int| 0 <= k < s0.len() implies !g[(#[trigger] s0[k]).0 * w + s0[k].1] by {
            assert(s0[k] == s[k]);
        }
        lemma_seed_exact_when_fresh(g, w, h, s0);
        lemma_seed_all_len(g, w, h, s0);
        let gm = seed_all(g, w, s0);
        let q = s.last();
        lemma_idx_in_range(w, h, q.0, q.1);
        lemma_seed_all_effect(g, w, h, s0, q.0 * w + q.1);
        if gm[q.0 * w + q.1] {
            assert(!g[(#[trigger] s[s.len() - 1]).0 * w + s[s.len() - 1].1]);
            let k = choose|k: int|
                0 <= k < s0.len() && (#[trigger] s0[k]).0 * w + s0[k].1 == q.0 * w + q.1;
            lemma_idx_injective(w, s0[k].0, s0[k].1, q.0, q.1);
            assert(s[k] == s[s.len() - 1]);
            assert(false);
        }
        lemma_live_count_update(gm, q.0 * w + q.1, true);
    }
}

/// Duplicate samples are wasted: with at least one duplicated sample the
/// seeded population stays strictly below one new cell per sample.
pub proof fn lemma_seed_duplicate_wastes(
    g: Seq<bool>,
    w: int,
    h: int,
    s: Seq<(int, int)>,
    k1: int,
    k2: int,
)
    requires
        g.len() == w * h,
        samples_in(s, w, h),
        0 <= k1 < k2 < s.len(),
        s[k1] == s[k2],
    ensures
        live_count(seed_all(g, w, s)) < live_count(g) + s.len(),
    decreases s.len(),
{
    let s0 = s.drop_last();
    assert(samples_in(s0, w, h));
    lemma_seed_all_len(g, w, h, s0);
    let gm = seed_all(g, w, s0);
    let q = s.last();
    lemma_idx_in_range(w, h, q.0, q.1);
    if k2 == s.len() - 1 {
        lemma_seed_under_fill(g, w, h, s0);
        lemma_seed_all_effect(g, w, h, s0, q.0 * w + q.1);
        assert(s0[k1] == s[k1]);
        assert((#[trigger] s0[k1]).0 * w + s0[k1].1 == q.0 * w + q.1);
        assert(gm[q.0 * w + q.1]);
        assert(seed_all(g, w, s) == gm);
    } else {
        lemma_seed_duplicate_wastes(g, w, h, s0, k1, k2);
        if !gm[q.0 * w + q.1] {
            lemma_live_count_update(gm, q.0 * w + q.1, true);
        }
    }
}

/// Seen from an adjacent position, one cell pins the count from both sides:
/// the count is at least that cell's own contribution, and at most 7 more.
pub proof fn lemma_live_neighbours_one_cell(
    g: Seq<bool>,
    w: int,
    h: int,
    i: int,
    j: int,
    ci: int,
    cj: int,
)
    requires
        adjacent(ci, cj, i, j),
    ensures
        live_at(g, w, h, ci, cj) <= live_neighbours(g, w, h, i, j) <= 7 + live_at(g, w, h, ci, cj),
{
}

} // verus!
