//! The board: a grid of cells with cached neighbour counts, a scratch
//! snapshot buffer, and the generation-advance algorithm that repairs the
//! counts incrementally instead of rescanning the whole grid.

use vstd::prelude::*;
use vstd::pervasive::VecAdditionalExecFns;
use vstd::arithmetic::mul::lemma_mul_inequality;
use vstd::arithmetic::mul::lemma_mul_is_commutative;
use rand::rngs::StdRng;
use rand::Rng;
use crate::cell::Cell;
use crate::canvas::Canvas;
use crate::canvas::ProductSingletonCandidate;
use crate::grid::draws;
use crate::grid::draws_upto;
use crate::grid::seed_all;
use crate::grid::seed_one;
use crate::grid::samples_in;
use crate::grid::live_count;
use crate::grid::lemma_live_count_all_dead;
use crate::grid::lemma_seed_under_fill;
use crate::grid::next_state;
use crate::grid::step;
use crate::grid::in_bounds;
use crate::grid::live_neighbours;
use crate::grid::lemma_idx_in_range;
use crate::grid::lemma_idx_decompose;
use crate::grid::lemma_idx_distinct;
use crate::grid::lemma_live_neighbours_all_dead;
use crate::grid::lemma_live_neighbours_bounds;
use crate::grid::lemma_live_neighbours_one_cell;
use crate::grid::lemma_live_neighbours_update;
use crate::grid::adjacent;

verus! {

/// How the cached counts may change while the neighbourhood of `(i, j)` is
/// being walked: among the first `upto` of the nine offsets, every
/// processed adjacent on-grid position has its count moved by `delta`, and
/// every other position's count is untouched. Offset number `4` is the
/// centre, which `adjacent` already rules out.
spec fn counts_shifted(
    c0: Seq<Cell>,
    c1: Seq<Cell>,
    w: int,
    h: int,
    i: int,
    j: int,
    delta: int,
    upto: int,
) -> bool {
    forall|a: int, b: int| #![trigger adjacent(i, j, a, b)]
        in_bounds(w, h, a, b) ==> c1[a * w + b].spec_count() as int == c0[a * w
            + b].spec_count() as int + (if adjacent(i, j, a, b) && (a - i + 1) * 3 + (b - j + 1)
            < upto {
            delta
        } else {
            0int
        })
}

/// Relies on rand's `StdRng` only as an opaque source of randomness; the
/// library never looks inside it.
#[verifier::external_type_specification]
#[verifier::external_body]
pub struct ExStdRng(StdRng);

/// Relies on rand's `Rng::gen_range` over `0..bound`: it panics on an empty
/// range and otherwise returns a uniformly drawn value of the range, so the
/// result is below `bound`. Nothing more is assumed of which value comes.
#[verifier::external_body]
fn draw_below(rng: &mut StdRng, bound: usize) -> (r: usize)
    requires
        bound > 0,
    ensures
        r < bound,
{
    rng.gen_range(0..bound)
}

/// One step of the neighbourhood walk: processing offset number `d` (the
/// position `(ti, tj)`) extends a walk of the first `d` offsets to one of
/// the first `d + 1`.
proof fn lemma_counts_shift_step(
    c0: Seq<Cell>,
    cp: Seq<Cell>,
    c1: Seq<Cell>,
    w: int,
    h: int,
    i: int,
    j: int,
    delta: int,
    d: int,
    ti: int,
    tj: int,
)
    requires
        0 <= d < 9,
        d != 4,
        ti == i + d / 3 - 1,
        tj == j + d % 3 - 1,
        counts_shifted(c0, cp, w, h, i, j, delta, d),
        c0.len() == w * h,
        cp.len() == c0.len(),
        c1.len() == c0.len(),
        in_bounds(w, h, ti, tj) ==> {
            &&& forall|q: int| 0 <= q < c1.len() && q != ti * w + tj ==> c1[q] == cp[q]
            &&& c1[ti * w + tj].spec_count() as int == cp[ti * w + tj].spec_count() as int + delta
        },
        !in_bounds(w, h, ti, tj) ==> c1 == cp,
    ensures
        counts_shifted(c0, c1, w, h, i, j, delta, d + 1),
{
    assert forall|a: int, b: int| in_bounds(w, h, a, b) implies c1[a * w
        + b].spec_count() as int == c0[a * w + b].spec_count() as int + (if adjacent(i, j, a, b)
        && (a - i + 1) * 3 + (b - j + 1) < d + 1 {
        delta
    } else {
        0int
    }) by {
        lemma_idx_in_range(w, h, a, b);
        assert(cp[a * w + b].spec_count() as int == c0[a * w + b].spec_count() as int + (
        if adjacent(i, j, a, b) && (a - i + 1) * 3 + (b - j + 1) < d {
            delta
        } else {
            0int
        }));
        if in_bounds(w, h, ti, tj) {
            lemma_idx_in_range(w, h, ti, tj);
            if !(a == ti && b == tj) {
                lemma_idx_distinct(w, a, b, ti, tj);
            }
        }
    }
}

/// The whole simulated grid: the authoritative cells for the current
/// generation, a scratch copy used while advancing, and the dimensions.
pub struct World {
    cells: Vec<Cell>,
    temp_cells: Vec<Cell>,
    width: usize,
    height: usize,
}

impl World {
    pub closed spec fn spec_width(self) -> usize {
        self.width
    }

    pub closed spec fn spec_height(self) -> usize {
        self.height
    }

    /// The authoritative cells, row-major.
    pub closed spec fn spec_cells(self) -> Seq<Cell> {
        self.cells@
    }

    /// The scratch snapshot buffer.
    pub closed spec fn snapshot(self) -> Seq<Cell> {
        self.temp_cells@
    }

    /// The authoritative alive flags, row-major: the abstract grid that
    /// [`crate::grid`] speaks about.
    pub open spec fn alive_map(self) -> Seq<bool> {
        self.spec_cells().map(|k: int, c: Cell| c.spec_alive())
    }

    /// The alive flag at `(i, j)`.
    pub open spec fn spec_alive_at(self, i: int, j: int) -> bool {
        self.alive_map()[i * self.spec_width() as int + j]
    }

    /// Shape invariant: both buffers span the whole grid, which fits the
    /// machine's index range.
    pub open spec fn dims_ok(self) -> bool {
        &&& self.spec_cells().len() == self.spec_width() * self.spec_height()
        &&& self.snapshot().len() == self.spec_cells().len()
        &&& self.spec_width() * self.spec_height() <= isize::MAX
    }

    /// Every cached neighbour count is the exact number of live cells among
    /// the up-to-8 grid-adjacent positions of the authoritative grid.
    pub open spec fn counts_ok(self) -> bool {
        forall|i: int, j: int|
            in_bounds(self.spec_width() as int, self.spec_height() as int, i, j)
                ==> self.spec_cells()[i * self.spec_width() as int + j].spec_count()
                == #[trigger] live_neighbours(
                self.alive_map(),
                self.spec_width() as int,
                self.spec_height() as int,
                i,
                j,
            )
    }

    /// The board invariant, re-established after every mutating operation:
    /// well-shaped buffers, well-formed cells, and accurate cached counts.
    pub open spec fn wf(self) -> bool {
        &&& self.dims_ok()
        &&& forall|k: int|
            0 <= k < self.spec_cells().len() ==> (#[trigger] self.spec_cells()[k]).wf()
        &&& self.counts_ok()
    }

    /// A board with every cell dead and every count zero. A zero width or
    /// height is accepted and gives a board with no cells, over which every
    /// generation is trivially a no-op.
    pub fn new(width: usize, height: usize) -> (w: World)
        requires
            width * height <= isize::MAX,
        ensures
            w.wf(),
            w.spec_width() == width,
            w.spec_height() == height,
            w.alive_map() == Seq::new((width * height) as nat, |k: int| false),
    {
        let cell_count = width * height;
        let mut cells: Vec<Cell> = Vec::new();
        let mut temp_cells: Vec<Cell> = Vec::new();
        let mut k: usize = 0;
        while k < cell_count
            invariant
                k <= cell_count,
                cells@.len() == k,
                temp_cells@.len() == k,
                forall|m: int|
                    0 <= m < k ==> !(#[trigger] cells@[m]).spec_alive() && cells@[m].spec_count()
                        == 0,
            decreases cell_count - k,
        {
            cells.push(Cell::default());
            temp_cells.push(Cell::default());
            k += 1;
        }
        let w = World { cells, temp_cells, width, height };
        proof {
            assert(w.alive_map() =~= Seq::new((width * height) as nat, |k: int| false));
            assert forall|i: int, j: int|
                in_bounds(width as int, height as int, i, j) implies w.spec_cells()[i * width as int
                + j].spec_count() == #[trigger] live_neighbours(
                w.alive_map(),
                width as int,
                height as int,
                i,
                j,
            ) by {
                lemma_idx_in_range(width as int, height as int, i, j);
                lemma_live_neighbours_all_dead(w.alive_map(), width as int, height as int, i, j);
            }
        }
        w
    }

    /// A board seeded by `⌊width·height/2⌋` random point-samples: each
    /// sample draws a row and a column uniformly and sets that cell alive
    /// only if its raw alive flag is still clear, so duplicate draws are
    /// silently absorbed and the final population is at most half the grid.
    pub fn random(width: usize, height: usize, rng: &mut StdRng) -> (w: World)
        requires
            width * height <= isize::MAX,
        ensures
            w.wf(),
            w.spec_width() == width,
            w.spec_height() == height,
            live_count(w.alive_map()) <= (width * height) / 2,
            exists|s: Seq<(int, int)>|
                {
                    &&& s.len() == (width * height) / 2
                    &&& #[trigger] samples_in(s, width as int, height as int)
                    &&& w.alive_map() == seed_all(
                        Seq::new((width * height) as nat, |k: int| false),
                        width as int,
                        s,
                    )
                },
    {
        let mut world = World::new(width, height);
        let ghost base = world.alive_map();
        proof {
            assert(height * width == width * height) by (nonlinear_arith);
        }
        let init_length = (height * width) / 2;
        let ghost mut samples: Seq<(int, int)> = Seq::empty();
        let mut c: usize = 0;
        while c < init_length
            invariant
                c <= init_length,
                init_length == (width * height) / 2,
                width * height <= isize::MAX,
                world.wf(),
                world.spec_width() == width,
                world.spec_height() == height,
                samples.len() == c as int,
                samples_in(samples, width as int, height as int),
                world.alive_map() == seed_all(base, width as int, samples),
                base == Seq::new((width * height) as nat, |k: int| false),
            decreases init_length - c,
        {
            proof {
                if height == 0 || width == 0 {
                    assert((width * height) as int == 0);
                    assert(false);
                }
            }
            let i = draw_below(rng, height);
            let j = draw_below(rng, width);
            let ghost before = world.alive_map();
            proof {
                lemma_idx_in_range(width as int, height as int, i as int, j as int);
            }
            let state = world.cell_state(i, j);
            if state == 0 {
                world.set_cell(i, j);
            }
            proof {
                let old_samples = samples;
                samples = samples.push((i as int, j as int));
                assert(samples.drop_last() =~= old_samples);
                assert(world.alive_map() == seed_one(before, width as int, i as int, j as int));
                assert(world.alive_map() == seed_all(base, width as int, samples));
            }
            c += 1;
        }
        proof {
            lemma_live_count_all_dead(base);
            lemma_seed_under_fill(base, width as int, height as int, samples);
        }
        world
    }

    /// 1 if the authoritative cell at `(i, j)` is alive, else 0; the raw
    /// flag the seeding pass checks before spending a sample.
    pub fn cell_state(&self, i: usize, j: usize) -> (r: u8)
        requires
            self.wf(),
            i < self.spec_height(),
            j < self.spec_width(),
        ensures
            r == if self.spec_alive_at(i as int, j as int) {
                1u8
            } else {
                0u8
            },
    {
        proof {
            lemma_idx_in_range(self.spec_width() as int, self.spec_height() as int, i as int, j as int);
        }
        if self.cells[i * self.width + j].is_alive() {
            1
        } else {
            0
        }
    }

    /// Moves the cached count at offset `(ni, nj)` one step up (a birth next
    /// door) or down (a death next door) when the offset lies on the grid;
    /// an off-grid offset is skipped, not wrapped.
    fn bump(&mut self, ni: isize, nj: isize, up: bool)
        requires
            old(self).dims_ok(),
            in_bounds(
                old(self).spec_width() as int,
                old(self).spec_height() as int,
                ni as int,
                nj as int,
            ) ==> (if up {
                old(self).spec_cells()[ni as int * old(self).spec_width() as int + nj as int].spec_count()
                    < 8
            } else {
                old(self).spec_cells()[ni as int * old(self).spec_width() as int + nj as int].spec_count()
                    > 0
            }),
        ensures
            final(self).spec_width() == old(self).spec_width(),
            final(self).spec_height() == old(self).spec_height(),
            final(self).snapshot() == old(self).snapshot(),
            final(self).spec_cells().len() == old(self).spec_cells().len(),
            final(self).alive_map() == old(self).alive_map(),
            in_bounds(
                old(self).spec_width() as int,
                old(self).spec_height() as int,
                ni as int,
                nj as int,
            ) ==> {
                let m = ni as int * old(self).spec_width() as int + nj as int;
                &&& final(self).spec_cells()[m].spec_alive() == old(self).spec_cells()[m].spec_alive()
                &&& final(self).spec_cells()[m].spec_count() as int == old(self).spec_cells()[m].spec_count()
                    as int + (if up {
                    1int
                } else {
                    -1int
                })
                &&& forall|q: int|
                    0 <= q < old(self).spec_cells().len() && q != m
                        ==> final(self).spec_cells()[q] == old(self).spec_cells()[q]
            },
            !in_bounds(
                old(self).spec_width() as int,
                old(self).spec_height() as int,
                ni as int,
                nj as int,
            ) ==> final(self).spec_cells() == old(self).spec_cells(),
    {
        if let Some((i2, j2)) = self.is_valid_position(ni, nj) {
            proof {
                lemma_idx_in_range(
                    self.spec_width() as int,
                    self.spec_height() as int,
                    i2 as int,
                    j2 as int,
                );
            }
            let idx = i2 * self.width + j2;
            let mut c = self.cells[idx];
            if up {
                c.try_increment();
            } else {
                c.try_decrement();
            }
            self.cells.set(idx, c);
            proof {
                assert(self.alive_map() =~= old(self).alive_map());
            }
        }
    }

    /// Walks the nine offsets around `(i, j)` and moves every on-grid
    /// neighbour's cached count one step in the given direction, skipping
    /// the centre and everything off the board.
    fn bump_neighbours(&mut self, i: usize, j: usize, up: bool)
        requires
            old(self).dims_ok(),
            i < old(self).spec_height(),
            j < old(self).spec_width(),
            forall|a: int, b: int| #![trigger adjacent(i as int, j as int, a, b)]
                in_bounds(old(self).spec_width() as int, old(self).spec_height() as int, a, b)
                    && adjacent(i as int, j as int, a, b) ==> (if up {
                    old(self).spec_cells()[a * old(self).spec_width() as int + b].spec_count() < 8
                } else {
                    old(self).spec_cells()[a * old(self).spec_width() as int + b].spec_count() > 0
                }),
        ensures
            final(self).spec_width() == old(self).spec_width(),
            final(self).spec_height() == old(self).spec_height(),
            final(self).snapshot() == old(self).snapshot(),
            final(self).spec_cells().len() == old(self).spec_cells().len(),
            final(self).alive_map() == old(self).alive_map(),
            counts_shifted(
                old(self).spec_cells(),
                final(self).spec_cells(),
                old(self).spec_width() as int,
                old(self).spec_height() as int,
                i as int,
                j as int,
                if up {
                    1int
                } else {
                    -1int
                },
                9,
            ),
    {
        let ghost w_ = self.spec_width() as int;
        let ghost h_ = self.spec_height() as int;
        let ghost cells0 = self.spec_cells();
        let ghost snap0 = self.snapshot();
        let ghost am0 = self.alive_map();
        let ghost delta: int = if up {
            1
        } else {
            -1
        };
        proof {
            lemma_mul_inequality(1, w_, h_);
            lemma_mul_is_commutative(w_, h_);
            lemma_mul_inequality(1, h_, w_);
            lemma_mul_is_commutative(h_, w_);
        }
        let mut d: usize = 0;
        while d < 9
            invariant
                d <= 9,
                delta == (if up {
                    1int
                } else {
                    -1int
                }),
                self.spec_width() as int == w_,
                self.spec_height() as int == h_,
                (i as int) < h_,
                (j as int) < w_,
                w_ <= isize::MAX,
                h_ <= isize::MAX,
                w_ * h_ <= isize::MAX,
                cells0.len() == w_ * h_,
                self.spec_cells().len() == cells0.len(),
                self.snapshot().len() == self.spec_cells().len(),
                self.snapshot() == snap0,
                self.alive_map() == am0,
                forall|a: int, b: int| #![trigger adjacent(i as int, j as int, a, b)]
                    in_bounds(w_, h_, a, b) && adjacent(i as int, j as int, a, b) ==> (if up {
                        cells0[a * w_ + b].spec_count() < 8
                    } else {
                        cells0[a * w_ + b].spec_count() > 0
                    }),
                counts_shifted(
                    cells0,
                    self.spec_cells(),
                    w_,
                    h_,
                    i as int,
                    j as int,
                    delta,
                    d as int,
                ),
            decreases 9 - d,
        {
            if d != 4 {
                let di = (d / 3) as isize - 1;
                let dj = (d % 3) as isize - 1;
                let ghost ti = i as int + di as int;
                let ghost tj = j as int + dj as int;
                proof {
                    assert((ti - i as int + 1) * 3 + (tj - j as int + 1) == d as int);
                    if in_bounds(w_, h_, ti, tj) {
                        assert(adjacent(i as int, j as int, ti, tj));
                    }
                }
                let ni = i as isize + di;
                let nj = j as isize + dj;
                proof {
                    assert(ni as int == ti && nj as int == tj);
                }
                let ghost prev = self.spec_cells();
                self.bump(ni, nj, up);
                proof {
                    if in_bounds(w_, h_, ti, tj) {
                        lemma_idx_in_range(w_, h_, ti, tj);
                        assert(self.spec_cells()[ti * w_ + tj].spec_count() as int == prev[ti * w_
                            + tj].spec_count() as int + delta);
                        assert(forall|q: int|
                            0 <= q < self.spec_cells().len() && q != ti * w_ + tj
                                ==> self.spec_cells()[q] == prev[q]);
                    }
                    lemma_counts_shift_step(
                        cells0,
                        prev,
                        self.spec_cells(),
                        w_,
                        h_,
                        i as int,
                        j as int,
                        delta,
                        d as int,
                        ti,
                        tj,
                    );
                }
            } else {
                proof {
                    assert(counts_shifted(
                        cells0,
                        self.spec_cells(),
                        w_,
                        h_,
                        i as int,
                        j as int,
                        delta,
                        d as int + 1,
                    ));
                }
            }
            d += 1;
        }
    }

    /// Marks `(i, j)` alive in the authoritative grid and repairs the
    /// cached counts of its on-grid neighbours, so the board invariant
    /// holds again afterwards. The cell must currently be dead: that is
    /// what guarantees no neighbour's count can overshoot the ceiling of 8.
    pub fn set_cell(&mut self, i: usize, j: usize)
        requires
            old(self).wf(),
            i < old(self).spec_height(),
            j < old(self).spec_width(),
            !old(self).spec_alive_at(i as int, j as int),
        ensures
            final(self).wf(),
            final(self).spec_width() == old(self).spec_width(),
            final(self).spec_height() == old(self).spec_height(),
            final(self).snapshot() == old(self).snapshot(),
            final(self).alive_map() == old(self).alive_map().update(
                i as int * old(self).spec_width() as int + j as int,
                true,
            ),
    {
        let ghost w_ = self.spec_width() as int;
        let ghost h_ = self.spec_height() as int;
        let ghost am0 = self.alive_map();
        let ghost cells0 = self.spec_cells();
        proof {
            lemma_idx_in_range(w_, h_, i as int, j as int);
        }
        let cell_ptr = i * self.width + j;
        let mut c = self.cells[cell_ptr];
        c.set_alive();
        self.cells.set(cell_ptr, c);
        let ghost am1 = self.alive_map();
        let ghost cells1 = self.spec_cells();
        proof {
            assert(am1 =~= am0.update(i as int * w_ + j as int, true));
            assert forall|a: int, b: int|
                in_bounds(w_, h_, a, b) && adjacent(i as int, j as int, a, b) implies cells1[a * w_
                + b].spec_count() < 8 by {
                lemma_idx_in_range(w_, h_, a, b);
                lemma_idx_distinct(w_, a, b, i as int, j as int);
                lemma_live_neighbours_one_cell(am0, w_, h_, a, b, i as int, j as int);
                assert(cells0[a * w_ + b].spec_count() == live_neighbours(am0, w_, h_, a, b));
            }
        }
        self.bump_neighbours(i, j, true);
        proof {
            assert(self.alive_map() == am1);
            assert forall|a: int, b: int| in_bounds(w_, h_, a, b) implies self.spec_cells()[a * w_
                + b].spec_count() == #[trigger] live_neighbours(self.alive_map(), w_, h_, a, b) by {
                lemma_idx_in_range(w_, h_, a, b);
                if !(a == i as int && b == j as int) {
                    lemma_idx_distinct(w_, a, b, i as int, j as int);
                }
                lemma_live_neighbours_update(am0, w_, h_, i as int, j as int, true, a, b);
                assert(cells0[a * w_ + b].spec_count() == live_neighbours(am0, w_, h_, a, b));
            }
            assert forall|k: int| 0 <= k < self.spec_cells().len() implies (
            #[trigger] self.spec_cells()[k]).wf() by {
                lemma_idx_decompose(w_, h_, k);
                lemma_live_neighbours_bounds(self.alive_map(), w_, h_, k / w_, k % w_);
                assert(self.spec_cells()[(k / w_) * w_ + k % w_].spec_count() == live_neighbours(
                    self.alive_map(),
                    w_,
                    h_,
                    k / w_,
                    k % w_,
                ));
            }
        }
    }

    /// Marks `(i, j)` dead in the authoritative grid and repairs the cached
    /// counts of its on-grid neighbours. The cell must currently be alive:
    /// every neighbour then counts it, so no count can undershoot zero.
    pub fn clear_cell(&mut self, i: usize, j: usize)
        requires
            old(self).wf(),
            i < old(self).spec_height(),
            j < old(self).spec_width(),
            old(self).spec_alive_at(i as int, j as int),
        ensures
            final(self).wf(),
            final(self).spec_width() == old(self).spec_width(),
            final(self).spec_height() == old(self).spec_height(),
            final(self).snapshot() == old(self).snapshot(),
            final(self).alive_map() == old(self).alive_map().update(
                i as int * old(self).spec_width() as int + j as int,
                false,
            ),
    {
        let ghost w_ = self.spec_width() as int;
        let ghost h_ = self.spec_height() as int;
        let ghost am0 = self.alive_map();
        let ghost cells0 = self.spec_cells();
        proof {
            lemma_idx_in_range(w_, h_, i as int, j as int);
        }
        let cell_ptr = i * self.width + j;
        let mut c = self.cells[cell_ptr];
        c.set_dead();
        self.cells.set(cell_ptr, c);
        let ghost am1 = self.alive_map();
        let ghost cells1 = self.spec_cells();
        proof {
            assert(am1 =~= am0.update(i as int * w_ + j as int, false));
            assert forall|a: int, b: int|
                in_bounds(w_, h_, a, b) && adjacent(i as int, j as int, a, b) implies cells1[a * w_
                + b].spec_count() > 0 by {
                lemma_idx_in_range(w_, h_, a, b);
                lemma_idx_distinct(w_, a, b, i as int, j as int);
                lemma_live_neighbours_one_cell(am0, w_, h_, a, b, i as int, j as int);
                assert(cells0[a * w_ + b].spec_count() == live_neighbours(am0, w_, h_, a, b));
            }
        }
        self.bump_neighbours(i, j, false);
        proof {
            assert(self.alive_map() == am1);
            assert forall|a: int, b: int| in_bounds(w_, h_, a, b) implies self.spec_cells()[a * w_
                + b].spec_count() == #[trigger] live_neighbours(self.alive_map(), w_, h_, a, b) by {
                lemma_idx_in_range(w_, h_, a, b);
                if !(a == i as int && b == j as int) {
                    lemma_idx_distinct(w_, a, b, i as int, j as int);
                }
                lemma_live_neighbours_update(am0, w_, h_, i as int, j as int, false, a, b);
                assert(cells0[a * w_ + b].spec_count() == live_neighbours(am0, w_, h_, a, b));
            }
            assert forall|k: int| 0 <= k < self.spec_cells().len() implies (
            #[trigger] self.spec_cells()[k]).wf() by {
                lemma_idx_decompose(w_, h_, k);
                lemma_live_neighbours_bounds(self.alive_map(), w_, h_, k / w_, k % w_);
                assert(self.spec_cells()[(k / w_) * w_ + k % w_].spec_count() == live_neighbours(
                    self.alive_map(),
                    w_,
                    h_,
                    k / w_,
                    k % w_,
                ));
            }
        }
    }

    /// Copies every authoritative cell into the scratch buffer, so the scan
    /// can read a consistent picture of the previous generation while the
    /// authoritative grid is being rewritten.
    fn take_snapshot(&mut self)
        requires
            old(self).dims_ok(),
        ensures
            final(self).spec_cells() == old(self).spec_cells(),
            final(self).spec_width() == old(self).spec_width(),
            final(self).spec_height() == old(self).spec_height(),
            final(self).snapshot() == old(self).spec_cells(),
    {
        let ghost cells0 = self.spec_cells();
        let ghost w0 = self.spec_width();
        let ghost h0 = self.spec_height();
        let n = self.cells.len();
        let mut k: usize = 0;
        while k < n
            invariant
                k <= n,
                self.spec_width() == w0,
                self.spec_height() == h0,
                self.spec_cells() == cells0,
                n == cells0.len(),
                self.snapshot().len() == n,
                forall|m: int| 0 <= m < k ==> self.snapshot()[m] == cells0[m],
            decreases n - k,
        {
            let c = self.cells[k];
            self.temp_cells.set(k, c);
            k += 1;
        }
        proof {
            assert(self.snapshot() =~= cells0);
        }
    }

    /// Advances the board one generation. Every cell is judged on the
    /// snapshot of the previous generation: a live cell without 2 or 3
    /// live neighbours dies, a dead cell with exactly 3 is born, everything
    /// else keeps its state. Each change is written to the authoritative
    /// grid, its neighbours' cached counts are repaired, and the sink is
    /// told which pixel to redraw, in row-major scan order.
    pub fn next_generation<Co, Ca>(&mut self, canvas: &mut Ca) where
        Co: ProductSingletonCandidate<Co, Co>,
        Ca: Canvas<Colour = Co>,

        requires
            old(self).wf(),
        ensures
            final(self).wf(),
            final(self).spec_width() == old(self).spec_width(),
            final(self).spec_height() == old(self).spec_height(),
            final(self).alive_map() == step(
                old(self).alive_map(),
                old(self).spec_width() as int,
                old(self).spec_height() as int,
            ),
            final(canvas).pixels() == old(canvas).pixels() + draws(
                old(self).alive_map(),
                old(self).spec_width() as int,
                old(self).spec_height() as int,
                Co::FST,
                Co::SND,
            ),
    {
        self.take_snapshot();
        let ghost w_ = self.spec_width() as int;
        let ghost h_ = self.spec_height() as int;
        let ghost g0 = self.alive_map();
        let ghost snap0 = self.snapshot();
        let ghost pix0 = canvas.pixels();
        let ghost s1 = step(g0, w_, h_);
        let width = self.width;
        let height = self.height;
        proof {
            assert(self.spec_cells() == old(self).spec_cells());
            assert(self.alive_map() == old(self).alive_map());
            assert(self.dims_ok());
            assert(forall|k: int|
                0 <= k < self.spec_cells().len() ==> (#[trigger] self.spec_cells()[k]).wf());
            assert(self.counts_ok());
            assert(self.wf());
            assert(pix0 + draws_upto(g0, w_, h_, Co::FST, Co::SND, 0) =~= pix0);
            assert forall|a: int, b: int| in_bounds(w_, h_, a, b) implies snap0[a * w_
                + b].spec_count() as int == #[trigger] live_neighbours(g0, w_, h_, a, b) by {
                lemma_idx_in_range(w_, h_, a, b);
            }
        }
        let mut i: usize = 0;
        while i < height
            invariant
                i <= height,
                self.wf(),
                self.spec_width() == width,
                self.spec_height() == height,
                w_ == width as int,
                h_ == height as int,
                self.snapshot() == snap0,
                g0 == snap0.map(|k: int, c: Cell| c.spec_alive()),
                g0.len() == w_ * h_,
                s1 == step(g0, w_, h_),
                forall|a: int, b: int|
                    in_bounds(w_, h_, a, b) ==> snap0[a * w_ + b].spec_count() as int
                        == #[trigger] live_neighbours(g0, w_, h_, a, b),
                forall|q: int| 0 <= q < g0.len() ==> (#[trigger] snap0[q]).wf(),
                forall|k: int| 0 <= k < i as int * w_ ==> self.alive_map()[k] == s1[k],
                forall|k: int| i as int * w_ <= k < g0.len() ==> self.alive_map()[k] == g0[k],
                canvas.pixels() == pix0 + draws_upto(g0, w_, h_, Co::FST, Co::SND, i as int * w_),
            decreases height - i,
        {
            let mut j: usize = 0;
            while j < width
                invariant
                    i < height,
                    j <= width,
                    self.wf(),
                    self.spec_width() == width,
                    self.spec_height() == height,
                    w_ == width as int,
                    h_ == height as int,
                    self.snapshot() == snap0,
                    g0 == snap0.map(|k: int, c: Cell| c.spec_alive()),
                    g0.len() == w_ * h_,
                    s1 == step(g0, w_, h_),
                    forall|a: int, b: int|
                        in_bounds(w_, h_, a, b) ==> snap0[a * w_ + b].spec_count() as int
                            == #[trigger] live_neighbours(g0, w_, h_, a, b),
                    forall|q: int| 0 <= q < g0.len() ==> (#[trigger] snap0[q]).wf(),
                    forall|k: int|
                        0 <= k < i as int * w_ + j as int ==> self.alive_map()[k] == s1[k],
                    forall|k: int|
                        i as int * w_ + j as int <= k < g0.len() ==> self.alive_map()[k] == g0[k],
                    canvas.pixels() == pix0 + draws_upto(
                        g0,
                        w_,
                        h_,
                        Co::FST,
                        Co::SND,
                        i as int * w_ + j as int,
                    ),
                decreases width - j,
            {
                proof {
                    lemma_idx_in_range(w_, h_, i as int, j as int);
                }
                let idx = i * width + j;
                let curr_cell = self.temp_cells[idx];
                proof {
                    assert(curr_cell == snap0[idx as int]);
                    assert(curr_cell.spec_alive() == g0[idx as int]);
                    assert(s1[idx as int] == next_state(
                        g0[idx as int],
                        live_neighbours(g0, w_, h_, i as int, j as int),
                    ));
                }
                if curr_cell.is_empty() {
                    // Dead with no live neighbours: cannot be born this
                    // generation, so the scan may skip it outright.
                    proof {
                        assert(canvas.pixels() =~= pix0 + draws_upto(
                            g0,
                            w_,
                            h_,
                            Co::FST,
                            Co::SND,
                            idx as int + 1,
                        ));
                    }
                } else {
                    let count = curr_cell.neighbours().get();
                    proof {
                        assert(count as int == live_neighbours(g0, w_, h_, i as int, j as int));
                    }
                    if curr_cell.is_alive() {
                        if count != 2 && count != 3 {
                            self.clear_cell(i, j);
                            canvas.draw_pixel(i, j, Co::SND);
                            proof {
                                assert(canvas.pixels() =~= pix0 + draws_upto(
                                    g0,
                                    w_,
                                    h_,
                                    Co::FST,
                                    Co::SND,
                                    idx as int + 1,
                                ));
                            }
                        } else {
                            proof {
                                assert(canvas.pixels() =~= pix0 + draws_upto(
                                    g0,
                                    w_,
                                    h_,
                                    Co::FST,
                                    Co::SND,
                                    idx as int + 1,
                                ));
                            }
                        }
                    } else if count == 3 {
                        self.set_cell(i, j);
                        canvas.draw_pixel(i, j, Co::FST);
                        proof {
                            assert(canvas.pixels() =~= pix0 + draws_upto(
                                g0,
                                w_,
                                h_,
                                Co::FST,
                                Co::SND,
                                idx as int + 1,
                            ));
                        }
                    } else {
                        proof {
                            assert(canvas.pixels() =~= pix0 + draws_upto(
                                g0,
                                w_,
                                h_,
                                Co::FST,
                                Co::SND,
                                idx as int + 1,
                            ));
                        }
                    }
                }
                j += 1;
            }
            proof {
                assert((i as int + 1) * w_ == i as int * w_ + w_) by (nonlinear_arith);
            }
            i += 1;
        }
        proof {
            assert(h_ * w_ == w_ * h_) by (nonlinear_arith);
            assert(self.alive_map() =~= s1);
            assert(canvas.pixels() == pix0 + draws(g0, w_, h_, Co::FST, Co::SND));
        }
    }

    /// Maps a neighbour offset to its grid position: `Some` when it lies on
    /// the board, `None` when it falls off an edge. Off-board offsets are
    /// skipped by the count bookkeeping, never wrapped around.
    pub fn is_valid_position(&self, neighbour_i: isize, neighbour_j: isize) -> (r: Option<
        (usize, usize),
    >)
        ensures
            in_bounds(
                self.spec_width() as int,
                self.spec_height() as int,
                neighbour_i as int,
                neighbour_j as int,
            ) ==> r == Some((neighbour_i as usize, neighbour_j as usize)),
            !in_bounds(
                self.spec_width() as int,
                self.spec_height() as int,
                neighbour_i as int,
                neighbour_j as int,
            ) ==> r is None,
    {
        if neighbour_i < 0 || neighbour_j < 0 {
            None
        } else {
            let iu = neighbour_i as usize;
            let ju = neighbour_j as usize;
            if iu >= self.height || ju >= self.width {
                None
            } else {
                Some((iu, ju))
            }
        }
    }
}

} // verus!
