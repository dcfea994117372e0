//! The grid of independent per-pixel populations and the frames it
//! renders, one per generation.

use vstd::prelude::*;
use crate::chromosome::{chrom_err, decoded_rgb};
use crate::color::Rgb;
use crate::population::{best_index, pool_views, stepped_from, SimpleGA};
use crate::rng::RandomSource;
use crate::target::{lemma_row_major_bound, lemma_square_fits, TargetImage};
use vstd::arithmetic::div_mod::lemma_fundamental_div_mod_converse;

verus! {

/// One rendered generation: for every cell, the color of that cell's
/// best chromosome, row-major.
pub struct Frame {
    pub size: usize,
    pub pixels: Vec<Rgb>,
}

impl Frame {
    pub open spec fn wf(self) -> bool {
        &&& 1 <= self.size <= 0xFFFF
        &&& self.pixels@.len() == self.size * self.size
    }
}

/// The color of a population's best chromosome.
pub open spec fn best_color(g: SimpleGA, t: TargetImage) -> Rgb {
    decoded_rgb(pool_views(g.pool@)[best_index(pool_views(g.pool@), t)].gene)
}

/// The error of a population's best chromosome.
pub open spec fn cell_best_err(g: SimpleGA, t: TargetImage) -> int {
    chrom_err(pool_views(g.pool@)[best_index(pool_views(g.pool@), t)], t)
}

/// The frame a grid renders: every cell's best color, row-major.
pub open spec fn rendered(grid: Seq<SimpleGA>, t: TargetImage) -> Seq<Rgb> {
    Seq::new(grid.len(), |k: int| best_color(grid[k], t))
}

/// How many entries of an error sequence are zero — the cells whose
/// best chromosome decodes to exactly the target pixel.
pub open spec fn count_zeros(s: Seq<int>) -> int
    decreases s.len(),
{
    if s.len() == 0 {
        0
    } else {
        count_zeros(s.drop_last()) + (if s.last() == 0 {
            1int
        } else {
            0int
        })
    }
}

/// When every entry only falls — and none below zero — the zero count
/// never falls: an exact cell stays exact.
pub proof fn lemma_count_zeros_monotone(before: Seq<int>, after: Seq<int>)
    requires
        before.len() == after.len(),
        forall|k: int| 0 <= k < after.len() ==> 0 <= #[trigger] after[k] <= before[k],
    ensures
        count_zeros(after) >= count_zeros(before),
    decreases before.len(),
{
    if before.len() > 0 {
        lemma_count_zeros_monotone(before.drop_last(), after.drop_last());
        assert(after[before.len() - 1] == after.last());
        assert(before[before.len() - 1] == before.last());
    }
}

/// The best error of every cell of a grid, in cell order.
pub open spec fn best_err_seq(grid: Seq<SimpleGA>, t: TargetImage) -> Seq<int> {
    Seq::new(grid.len(), |k: int| cell_best_err(grid[k], t))
}

/// Every cell of `post` is the outcome of one generational step of the
/// matching cell of `pre` — and of nothing else: no cell reads another
/// cell's pool.
pub open spec fn grid_stepped(pre: Seq<SimpleGA>, post: Seq<SimpleGA>, t: TargetImage) -> bool {
    &&& post.len() == pre.len()
    &&& forall|k: int| 0 <= k < pre.len() ==> stepped_from(pre[k], #[trigger] post[k], t)
}

/// A best error is a sum of squared differences, so never negative.
proof fn lemma_cell_best_err_nonneg(g: SimpleGA, t: TargetImage)
    ensures
        cell_best_err(g, t) >= 0,
{
    let cv = pool_views(g.pool@)[best_index(pool_views(g.pool@), t)];
    crate::color::lemma_sq_err_bounds(
        decoded_rgb(cv.gene),
        t.spec_at(cv.pos.0 as int, cv.pos.1 as int),
    );
}

/// The engine that drives every pixel population through the
/// generations and collects one rendered frame per generation.
pub struct GridEngine {
    pub target: TargetImage,
    pub grid: Vec<SimpleGA>,
    pub frames: Vec<Frame>,
}

impl GridEngine {
    /// The grid holds one well-formed population per target pixel, in
    /// row-major order, each bound to its own coordinate; every frame
    /// rendered so far has the target's dimensions.
    pub open spec fn wf(self) -> bool {
        &&& self.target.wf()
        &&& self.grid@.len() == self.target.size * self.target.size
        &&& forall|k: int|
            0 <= k < self.grid@.len() ==> (#[trigger] self.grid@[k]).wf() && self.grid@[k].compat(
                self.target,
            ) && self.grid@[k].pos.0 == k / (self.target.size as int) && self.grid@[k].pos.1 == k
                % (self.target.size as int)
        &&& forall|f: int|
            0 <= f < self.frames@.len() ==> (#[trigger] self.frames@[f]).wf()
                && self.frames@[f].size == self.target.size
    }

    /// A fresh engine: every cell gets its own random population, and
    /// no frame has been rendered yet.
    pub fn new(target: TargetImage, rng: &mut RandomSource) -> (e: GridEngine)
        requires
            target.wf(),
        ensures
            e.wf(),
            e.target == target,
            e.frames@.len() == 0,
    {
        let size = target.size;
        proof {
            lemma_square_fits(size as int);
        }
        let mut grid: Vec<SimpleGA> = Vec::new();
        let mut i: usize = 0;
        while i < size
            invariant
                target.wf(),
                size == target.size,
                i <= size,
                grid@.len() == i * size,
                forall|k: int|
                    0 <= k < grid@.len() ==> (#[trigger] grid@[k]).wf() && grid@[k].compat(target)
                        && grid@[k].pos.0 == k / (size as int) && grid@[k].pos.1 == k % (
                    size as int),
            decreases size - i,
        {
            let mut j: usize = 0;
            while j < size
                invariant
                    target.wf(),
                    size == target.size,
                    i < size,
                    j <= size,
                    grid@.len() == i * size + j,
                    forall|k: int|
                        0 <= k < grid@.len() ==> (#[trigger] grid@[k]).wf() && grid@[k].compat(
                            target,
                        ) && grid@[k].pos.0 == k / (size as int) && grid@[k].pos.1 == k % (
                        size as int),
                decreases size - j,
            {
                proof {
                    lemma_square_fits(size as int);
                    lemma_row_major_bound(i as int, j as int, size as int);
                    lemma_fundamental_div_mod_converse(
                        i as int * size as int + j as int,
                        size as int,
                        i as int,
                        j as int,
                    );
                }
                grid.push(SimpleGA::new((i, j), rng));
                j = j + 1;
            }
            proof {
                assert(i * size + size == (i + 1) * size) by (nonlinear_arith);
            }
            i = i + 1;
        }
        GridEngine { target, grid, frames: Vec::new() }
    }

    /// Runs one generation: steps every population independently — no
    /// cell reads another cell's pool — then renders every cell's best
    /// color into a new frame appended to the sequence.
    pub fn step_generation(&mut self, rng: &mut RandomSource)
        requires
            old(self).wf(),
            old(self).frames@.len() < usize::MAX,
        ensures
            final(self).wf(),
            final(self).target == old(self).target,
            final(self).grid@.len() == old(self).grid@.len(),
            final(self).frames@.len() == old(self).frames@.len() + 1,
            forall|f: int|
                0 <= f < old(self).frames@.len() ==> final(self).frames@[f] == old(
                    self,
                ).frames@[f],
            final(self).frames@.last().pixels@ == rendered(final(self).grid@, old(self).target),
            grid_stepped(old(self).grid@, final(self).grid@, old(self).target),
            forall|k: int|
                0 <= k < final(self).grid@.len() ==> cell_best_err(
                    #[trigger] final(self).grid@[k],
                    old(self).target,
                ) <= cell_best_err(old(self).grid@[k], old(self).target),
            count_zeros(best_err_seq(final(self).grid@, old(self).target)) >= count_zeros(
                best_err_seq(old(self).grid@, old(self).target),
            ),
    {
        let ghost old_grid = self.grid@;
        step_all(&mut self.grid, &self.target, rng);
        let frame = render_frame(&self.grid, &self.target);
        self.frames.push(frame);
        proof {
            let t = self.target;
            let before = best_err_seq(old_grid, t);
            let after = best_err_seq(self.grid@, t);
            assert forall|k: int| 0 <= k < after.len() implies 0 <= #[trigger] after[k]
                <= before[k] by {
                lemma_cell_best_err_nonneg(self.grid@[k], t);
            }
            lemma_count_zeros_monotone(before, after);
        }
    }

    /// Runs a fixed number of generations to completion, appending one
    /// frame per generation: earlier frames are untouched, and there is
    /// a history of grid states — one generational step apart, cell by
    /// cell — whose renders are exactly the appended frames, ending in
    /// the final grid.
    pub fn run(&mut self, generations: usize, rng: &mut RandomSource)
        requires
            old(self).wf(),
            old(self).frames@.len() + generations <= usize::MAX,
        ensures
            final(self).wf(),
            final(self).target == old(self).target,
            final(self).frames@.len() == old(self).frames@.len() + generations,
            forall|f: int|
                0 <= f < old(self).frames@.len() ==> final(self).frames@[f] == old(
                    self,
                ).frames@[f],
            forall|k: int|
                0 <= k < final(self).grid@.len() ==> cell_best_err(
                    #[trigger] final(self).grid@[k],
                    old(self).target,
                ) <= cell_best_err(old(self).grid@[k], old(self).target),
            count_zeros(best_err_seq(final(self).grid@, old(self).target)) >= count_zeros(
                best_err_seq(old(self).grid@, old(self).target),
            ),
            exists|hist: Seq<Seq<SimpleGA>>|
                hist.len() == generations + 1 && hist[0] == old(self).grid@ && hist[
                    generations as int] == final(self).grid@ && (forall|i: int|
                    0 <= i < generations ==> grid_stepped(
                        hist[i],
                        #[trigger] hist[i + 1],
                        old(self).target,
                    )) && (forall|i: int|
                    0 <= i < generations ==> (#[trigger] final(self).frames@[old(
                        self,
                    ).frames@.len() + i]).pixels@ == rendered(hist[i + 1], old(self).target)),
    {
        let ghost base = old(self).frames@.len() as int;
        let ghost mut hist: Seq<Seq<SimpleGA>> = seq![old(self).grid@];
        let mut g: usize = 0;
        while g < generations
            invariant
                self.wf(),
                self.target == old(self).target,
                g <= generations,
                base == old(self).frames@.len() as int,
                self.frames@.len() == base + g,
                old(self).frames@.len() + generations <= usize::MAX,
                forall|f: int| 0 <= f < base ==> self.frames@[f] == old(self).frames@[f],
                forall|k: int|
                    0 <= k < self.grid@.len() ==> cell_best_err(
                        #[trigger] self.grid@[k],
                        old(self).target,
                    ) <= cell_best_err(old(self).grid@[k], old(self).target),
                count_zeros(best_err_seq(self.grid@, old(self).target)) >= count_zeros(
                    best_err_seq(old(self).grid@, old(self).target),
                ),
                hist.len() == g + 1,
                hist[0] == old(self).grid@,
                hist[g as int] == self.grid@,
                forall|i: int|
                    0 <= i < g ==> grid_stepped(hist[i], #[trigger] hist[i + 1], old(self).target),
                forall|i: int|
                    0 <= i < g ==> (#[trigger] self.frames@[base + i]).pixels@ == rendered(
                        hist[i + 1],
                        old(self).target,
                    ),
            decreases generations - g,
        {
            self.step_generation(rng);
            proof {
                hist = hist.push(self.grid@);
            }
            g = g + 1;
        }
    }

    /// The best error of every cell, row-major: entry `k` is zero
    /// exactly when cell `k`'s best chromosome decodes to the target
    /// pixel (a perfect match).
    pub fn best_errors(&self) -> (v: Vec<u32>)
        requires
            self.wf(),
        ensures
            v@.len() == self.grid@.len(),
            forall|k: int|
                0 <= k < v@.len() ==> (#[trigger] v@[k]) as int == best_err_seq(
                    self.grid@,
                    self.target,
                )[k],
    {
        let mut v: Vec<u32> = Vec::new();
        let mut k: usize = 0;
        while k < self.grid.len()
            invariant
                self.wf(),
                k <= self.grid@.len(),
                v@.len() == k,
                forall|i: int|
                    0 <= i < k ==> (#[trigger] v@[i]) as int == best_err_seq(
                        self.grid@,
                        self.target,
                    )[i],
            decreases self.grid@.len() - k,
        {
            let b = self.grid[k].get_best(&self.target);
            let e = self.grid[k].pool[b].sq_error(&self.target);
            proof {
                assert(pool_views(self.grid@[k as int].pool@)[b as int]
                    == self.grid@[k as int].pool@[b as int]@);
            }
            v.push(e);
            k = k + 1;
        }
        v
    }

    /// How many cells are perfect matches: their best chromosome
    /// decodes to exactly the target pixel, which is a best error of
    /// zero.
    pub fn count_perfect(&self) -> (n: usize)
        requires
            self.wf(),
        ensures
            n == count_zeros(best_err_seq(self.grid@, self.target)),
            n <= self.grid@.len(),
    {
        let ghost s = best_err_seq(self.grid@, self.target);
        let errors = self.best_errors();
        let mut n: usize = 0;
        let mut k: usize = 0;
        while k < errors.len()
            invariant
                s == best_err_seq(self.grid@, self.target),
                errors@.len() == self.grid@.len(),
                forall|i: int| 0 <= i < errors@.len() ==> (#[trigger] errors@[i]) as int == s[i],
                k <= errors@.len(),
                n <= k,
                n == count_zeros(s.take(k as int)),
            decreases errors@.len() - k,
        {
            proof {
                assert(s.take(k + 1).drop_last() =~= s.take(k as int));
            }
            if errors[k] == 0 {
                n = n + 1;
            }
            k = k + 1;
        }
        proof {
            assert(s.take(s.len() as int) =~= s);
        }
        n
    }
}

/// Steps every population of the grid once, independently.
fn step_all(grid: &mut Vec<SimpleGA>, target: &TargetImage, rng: &mut RandomSource)
    requires
        target.wf(),
        forall|k: int|
            0 <= k < old(grid)@.len() ==> (#[trigger] old(grid)@[k]).wf()
                && old(grid)@[k].compat(*target),
    ensures
        final(grid)@.len() == old(grid)@.len(),
        grid_stepped(old(grid)@, final(grid)@, *target),
        forall|k: int|
            0 <= k < final(grid)@.len() ==> (#[trigger] final(grid)@[k]).wf()
                && final(grid)@[k].compat(*target) && final(grid)@[k].pos == old(grid)@[k].pos,
        forall|k: int|
            0 <= k < final(grid)@.len() ==> cell_best_err(#[trigger] final(grid)@[k], *target)
                <= cell_best_err(old(grid)@[k], *target),
{
    let ghost orig = grid@;
    let mut k: usize = 0;
    while k < grid.len()
        invariant
            target.wf(),
            grid@.len() == orig.len(),
            k <= grid@.len(),
            forall|i: int|
                0 <= i < grid@.len() ==> (#[trigger] grid@[i]).wf() && grid@[i].compat(*target)
                    && grid@[i].pos == orig[i].pos,
            forall|i: int| 0 <= i < k ==> stepped_from(orig[i], #[trigger] grid@[i], *target),
            forall|i: int| k <= i < grid@.len() ==> #[trigger] grid@[i] == orig[i],
        decreases grid@.len() - k,
    {
        let cell = &mut grid[k];
        cell.step(target, rng);
        k = k + 1;
    }
}

/// Renders the grid's current state: every cell's best color, row-major.
fn render_frame(grid: &Vec<SimpleGA>, target: &TargetImage) -> (f: Frame)
    requires
        target.wf(),
        grid@.len() == target.size * target.size,
        forall|k: int|
            0 <= k < grid@.len() ==> (#[trigger] grid@[k]).wf() && grid@[k].compat(*target),
    ensures
        f.wf(),
        f.size == target.size,
        f.pixels@ == rendered(grid@, *target),
{
    let mut pixels: Vec<Rgb> = Vec::new();
    let mut k: usize = 0;
    while k < grid.len()
        invariant
            target.wf(),
            grid@.len() == target.size * target.size,
            forall|i: int|
                0 <= i < grid@.len() ==> (#[trigger] grid@[i]).wf() && grid@[i].compat(*target),
            k <= grid@.len(),
            pixels@.len() == k,
            forall|i: int| 0 <= i < k ==> (#[trigger] pixels@[i]) == rendered(grid@, *target)[i],
        decreases grid@.len() - k,
    {
        let b = grid[k].get_best(target);
        let c = grid[k].pool[b].get_val();
        proof {
            assert(pool_views(grid@[k as int].pool@)[b as int] == grid@[k as int].pool@[b as int]@);
        }
        pixels.push(c);
        k = k + 1;
    }
    let f = Frame { size: target.size, pixels };
    proof {
        assert(f.pixels@ =~= rendered(grid@, *target));
    }
    f
}

} // verus!
