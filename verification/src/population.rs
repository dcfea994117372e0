//! One pixel's population and its generational step.

use vstd::prelude::*;
use crate::chromosome::{chrom_err, in_image, Chromosome, ChromView};
use crate::params::{ELITE_SIZE, POPULATION_SIZE, TOURNAMENT_SIZE};
use crate::rng::RandomSource;
use crate::target::TargetImage;

verus! {

broadcast use vstd::seq_lib::group_to_multiset_ensures;

/// The mathematical images of a pool's chromosomes, in pool order.
pub open spec fn pool_views(pool: Seq<Chromosome>) -> Seq<ChromView> {
    pool.map_values(|c: Chromosome| c@)
}

/// Errors non-decreasing, which is fitness non-increasing: the fittest
/// chromosomes come first.
pub open spec fn sorted_by_err(s: Seq<ChromView>, t: TargetImage) -> bool {
    forall|i: int, j: int|
        0 <= i < j < s.len() ==> chrom_err(#[trigger] s[i], t) <= chrom_err(#[trigger] s[j], t)
}

/// The first index holding the smallest error of the sequence — the
/// best chromosome, ties resolved by first-encountered order.
pub open spec fn best_index(s: Seq<ChromView>, t: TargetImage) -> int
    recommends
        s.len() >= 1,
    decreases s.len(),
{
    if s.len() <= 1 {
        0
    } else {
        let b = best_index(s.drop_last(), t);
        if chrom_err(s.last(), t) < chrom_err(s[b], t) {
            s.len() - 1
        } else {
            b
        }
    }
}

/// `best_index` points at a minimum-error element and at the first one.
pub proof fn lemma_best_index(s: Seq<ChromView>, t: TargetImage)
    requires
        s.len() >= 1,
    ensures
        0 <= best_index(s, t) < s.len(),
        forall|j: int|
            0 <= j < s.len() ==> chrom_err(s[best_index(s, t)], t) <= chrom_err(
                #[trigger] s[j],
                t,
            ),
        forall|j: int|
            0 <= j < best_index(s, t) ==> chrom_err(#[trigger] s[j], t) > chrom_err(
                s[best_index(s, t)],
                t,
            ),
    decreases s.len(),
{
    if s.len() > 1 {
        let pre = s.drop_last();
        lemma_best_index(pre, t);
        let b = best_index(pre, t);
        let w = best_index(s, t);
        if chrom_err(s.last(), t) < chrom_err(s[b], t) {
            assert(w == s.len() - 1);
            assert forall|j: int| 0 <= j < s.len() implies chrom_err(s[w], t) <= chrom_err(
                #[trigger] s[j],
                t,
            ) by {
                if j < s.len() - 1 {
                    assert(s[j] == pre[j]);
                    assert(chrom_err(pre[b], t) <= chrom_err(pre[j], t));
                }
            }
            assert forall|j: int| 0 <= j < w implies chrom_err(#[trigger] s[j], t) > chrom_err(
                s[w],
                t,
            ) by {
                assert(s[j] == pre[j]);
                assert(chrom_err(pre[b], t) <= chrom_err(pre[j], t));
            }
        } else {
            assert(w == b);
            assert forall|j: int| 0 <= j < s.len() implies chrom_err(s[w], t) <= chrom_err(
                #[trigger] s[j],
                t,
            ) by {
                if j < s.len() - 1 {
                    assert(s[j] == pre[j]);
                    assert(chrom_err(pre[b], t) <= chrom_err(pre[j], t));
                } else {
                    assert(s[j] == s.last());
                }
            }
            assert forall|j: int| 0 <= j < w implies chrom_err(#[trigger] s[j], t) > chrom_err(
                s[w],
                t,
            ) by {
                assert(s[j] == pre[j]);
                assert(chrom_err(pre[j], t) > chrom_err(pre[b], t));
            }
        }
    }
}

/// The winner of a tournament after the given index draws: the fixed
/// baseline at index 0 to begin with, and each drawn candidate in
/// order replaces the winner so far only on strictly smaller error —
/// strictly higher fitness.
pub open spec fn winner_after(s: Seq<ChromView>, t: TargetImage, draws: Seq<usize>) -> int
    recommends
        s.len() >= 1,
        forall|i: int| 0 <= i < draws.len() ==> draws[i] < s.len(),
    decreases draws.len(),
{
    if draws.len() == 0 {
        0
    } else {
        let w = winner_after(s, t, draws.drop_last());
        let c = draws.last() as int;
        if chrom_err(s[c], t) < chrom_err(s[w], t) {
            c
        } else {
            w
        }
    }
}

/// The stable sort of a pool by error, fittest first: repeatedly the
/// first-encountered minimum-error element, so members of equal error
/// keep their pool order.
pub open spec fn stable_sorted(s: Seq<ChromView>, t: TargetImage) -> Seq<ChromView>
    decreases s.len(),
    via stable_sorted_decreases
{
    if s.len() == 0 {
        Seq::empty()
    } else {
        let b = best_index(s, t);
        seq![s[b]] + stable_sorted(s.remove(b), t)
    }
}

#[via_fn]
proof fn stable_sorted_decreases(s: Seq<ChromView>, t: TargetImage) {
    if s.len() > 0 {
        lemma_best_index(s, t);
    }
}

/// The stable sort is a sorted permutation.
#[verifier::rlimit(60)]
pub proof fn lemma_stable_sorted_props(s: Seq<ChromView>, t: TargetImage)
    ensures
        stable_sorted(s, t).len() == s.len(),
        sorted_by_err(stable_sorted(s, t), t),
        stable_sorted(s, t).to_multiset() == s.to_multiset(),
    decreases s.len(),
{
    if s.len() > 0 {
        let b = best_index(s, t);
        lemma_best_index(s, t);
        lemma_stable_sorted_props(s.remove(b), t);
        let rest = stable_sorted(s.remove(b), t);
        let out = stable_sorted(s, t);
        assert(out == seq![s[b]] + rest);
        assert(out.len() == s.len());
        assert(out.remove(0) =~= rest);
        assert(out[0] == s[b]);
        // A multiset is rebuilt by removing and re-inserting its head.
        assert(rest.to_multiset() =~= out.to_multiset().remove(s[b]));
        assert(out.contains(out[0]));
        assert(out.to_multiset() =~= rest.to_multiset().insert(s[b]));
        assert(s.remove(b).to_multiset() =~= s.to_multiset().remove(s[b]));
        assert(s.contains(s[b]));
        assert(s.to_multiset() =~= s.remove(b).to_multiset().insert(s[b]));
        assert(out.to_multiset() =~= s.to_multiset());
        // The head is no worse than anything that follows it.
        assert forall|j: int| 0 < j < out.len() implies chrom_err(out[0], t) <= chrom_err(
            #[trigger] out[j],
            t,
        ) by {
            assert(rest.contains(rest[j - 1]));
            assert(rest.to_multiset().count(rest[j - 1]) > 0);
            assert(s.remove(b).to_multiset().count(rest[j - 1]) > 0);
            assert(s.remove(b).contains(rest[j - 1]));
            let i = choose|i: int| 0 <= i < s.remove(b).len() && s.remove(b)[i] == rest[j - 1];
            assert(s.remove(b)[i] == (if i < b {
                s[i]
            } else {
                s[i + 1]
            }));
        }
        assert forall|i: int, j: int| 0 <= i < j < out.len() implies chrom_err(
            #[trigger] out[i],
            t,
        ) <= chrom_err(#[trigger] out[j], t) by {
            if i > 0 {
                assert(out[i] == rest[i - 1] && out[j] == rest[j - 1]);
            }
        }
    }
}

/// Elitism never loses ground. A generational step promises a sorted
/// permutation `s` of the old pool whose head leads the new pool; from
/// that alone, the new pool's best error is at most the old pool's best
/// error — so a cell that has reached the target exactly stays exact.
pub proof fn lemma_elitism_keeps_best(
    olds: Seq<ChromView>,
    news: Seq<ChromView>,
    s: Seq<ChromView>,
    t: TargetImage,
)
    requires
        s.to_multiset() == olds.to_multiset(),
        sorted_by_err(s, t),
        olds.len() >= 1,
        news.len() >= 1,
        news[0] == s[0],
    ensures
        chrom_err(news[best_index(news, t)], t) <= chrom_err(olds[best_index(olds, t)], t),
{
    lemma_best_index(news, t);
    lemma_best_index(olds, t);
    let bo = best_index(olds, t);
    assert(olds.contains(olds[bo]));
    assert(s.to_multiset().count(olds[bo]) > 0);
    assert(s.contains(olds[bo]));
    let i = choose|i: int| 0 <= i < s.len() && s[i] == olds[bo];
    assert(chrom_err(s[0], t) <= chrom_err(s[i], t));
    assert(chrom_err(news[best_index(news, t)], t) <= chrom_err(news[0], t));
}

/// What one generational step promises of a population: coordinate
/// kept, pool refilled to exactly its size, the elites — the head of
/// the stable sort of the old pool, so equal-error ties keep pool
/// order — standing bit for bit at the front of the new pool, and the
/// best error never worse than before.
pub open spec fn stepped_from(pre: SimpleGA, post: SimpleGA, t: TargetImage) -> bool {
    &&& post.wf()
    &&& post.pos == pre.pos
    &&& forall|i: int|
        0 <= i < ELITE_SIZE ==> #[trigger] pool_views(post.pool@)[i] == stable_sorted(
            pool_views(pre.pool@),
            t,
        )[i]
    &&& chrom_err(pool_views(post.pool@)[best_index(pool_views(post.pool@), t)], t) <= chrom_err(
        pool_views(pre.pool@)[best_index(pool_views(pre.pool@), t)],
        t,
    )
}

/// A population of candidate colors for one pixel of the target.
pub struct SimpleGA {
    /// The (row, column) coordinate every member is scored against.
    pub pos: (usize, usize),
    /// The current generation's chromosomes.
    pub pool: Vec<Chromosome>,
}

impl SimpleGA {
    /// The pool holds exactly `POPULATION_SIZE` well-formed chromosomes,
    /// all bound to this population's coordinate.
    pub open spec fn wf(self) -> bool {
        &&& self.pool@.len() == POPULATION_SIZE
        &&& forall|k: int|
            0 <= k < self.pool@.len() ==> (#[trigger] self.pool@[k]).wf() && self.pool@[k]@.pos
                == self.pos
    }

    /// The population's coordinate lies inside the target.
    pub open spec fn compat(self, t: TargetImage) -> bool {
        t.wf() && in_image(self.pos, t)
    }

    /// A fresh population of random chromosomes for one coordinate.
    pub fn new(pos: (usize, usize), rng: &mut RandomSource) -> (g: SimpleGA)
        ensures
            g.wf(),
            g.pos == pos,
    {
        let mut pool: Vec<Chromosome> = Vec::new();
        let mut k: usize = 0;
        while k < POPULATION_SIZE
            invariant
                k <= POPULATION_SIZE,
                pool@.len() == k,
                forall|i: int|
                    0 <= i < k ==> (#[trigger] pool@[i]).wf() && pool@[i]@.pos == pos,
            decreases POPULATION_SIZE - k,
        {
            pool.push(Chromosome::new(pos, rng));
            k = k + 1;
        }
        SimpleGA { pos, pool }
    }

    /// The squared error of every pool member against the target, in
    /// pool order; the float fitness of a member is a fixed decreasing
    /// function of its entry.
    pub fn pool_errors(&self, target: &TargetImage) -> (v: Vec<u32>)
        requires
            self.wf(),
            self.compat(*target),
        ensures
            v@.len() == self.pool@.len(),
            forall|k: int|
                0 <= k < v@.len() ==> (#[trigger] v@[k]) as int == chrom_err(
                    self.pool@[k]@,
                    *target,
                ),
    {
        let mut v: Vec<u32> = Vec::new();
        let mut k: usize = 0;
        while k < self.pool.len()
            invariant
                self.wf(),
                self.compat(*target),
                k <= self.pool@.len(),
                v@.len() == k,
                forall|i: int|
                    0 <= i < k ==> (#[trigger] v@[i]) as int == chrom_err(
                        self.pool@[i]@,
                        *target,
                    ),
            decreases self.pool@.len() - k,
        {
            v.push(self.pool[k].sq_error(target));
            k = k + 1;
        }
        v
    }

    /// The deterministic core of tournament selection, taking the drawn
    /// pool indices as arguments: starting from the fixed baseline at
    /// pool index 0, each drawn candidate in order replaces the current
    /// winner only on strictly higher fitness — strictly smaller error
    /// — so ties favor the earlier candidate and above all the baseline.
    pub fn tournament_winner(&self, target: &TargetImage, draws: &Vec<usize>) -> (k: usize)
        requires
            self.wf(),
            self.compat(*target),
            forall|i: int| 0 <= i < draws@.len() ==> #[trigger] draws@[i] < self.pool@.len(),
        ensures
            k < self.pool@.len(),
            k == winner_after(pool_views(self.pool@), *target, draws@),
            chrom_err(self.pool@[k as int]@, *target) <= chrom_err(self.pool@[0]@, *target),
    {
        let ghost s = pool_views(self.pool@);
        let mut best: usize = 0;
        let mut best_err = self.pool[0].sq_error(target);
        let mut t: usize = 0;
        while t < draws.len()
            invariant
                self.wf(),
                self.compat(*target),
                s == pool_views(self.pool@),
                forall|i: int| 0 <= i < draws@.len() ==> #[trigger] draws@[i] < self.pool@.len(),
                t <= draws@.len(),
                best < self.pool@.len(),
                best_err as int == chrom_err(self.pool@[best as int]@, *target),
                best == winner_after(s, *target, draws@.take(t as int)),
                chrom_err(self.pool@[best as int]@, *target) <= chrom_err(
                    self.pool@[0]@,
                    *target,
                ),
            decreases draws@.len() - t,
        {
            proof {
                assert(draws@.take(t + 1).drop_last() =~= draws@.take(t as int));
            }
            let c = draws[t];
            let e = self.pool[c].sq_error(target);
            if e < best_err {
                best = c;
                best_err = e;
            }
            t = t + 1;
        }
        proof {
            assert(draws@.take(draws@.len() as int) =~= draws@);
        }
        best
    }

    /// Tournament selection with the asymmetric baseline the algorithm
    /// is defined with: the candidate at pool index 0 always takes
    /// part, `TOURNAMENT_SIZE - 1` further members are drawn uniformly
    /// with replacement, and `tournament_winner` picks the winner over
    /// the baseline and those draws. Whatever the draws, the winner is
    /// never less fit than the baseline.
    pub fn tournament_selection(&self, target: &TargetImage, rng: &mut RandomSource) -> (k: usize)
        requires
            self.wf(),
            self.compat(*target),
        ensures
            k < self.pool@.len(),
            chrom_err(self.pool@[k as int]@, *target) <= chrom_err(self.pool@[0]@, *target),
            exists|draws: Seq<usize>|
                draws.len() == TOURNAMENT_SIZE - 1 && (forall|i: int|
                    0 <= i < draws.len() ==> #[trigger] draws[i] < self.pool@.len()) && k
                    == winner_after(pool_views(self.pool@), *target, draws),
    {
        let mut draws: Vec<usize> = Vec::new();
        let mut t: usize = 1;
        while t < TOURNAMENT_SIZE
            invariant
                self.wf(),
                1 <= t <= TOURNAMENT_SIZE,
                draws@.len() == t - 1,
                forall|i: int| 0 <= i < draws@.len() ==> #[trigger] draws@[i] < self.pool@.len(),
            decreases TOURNAMENT_SIZE - t,
        {
            draws.push(rng.below(self.pool.len() as u64) as usize);
            t = t + 1;
        }
        let k = self.tournament_winner(target, &draws);
        proof {
            let ds = draws@;
            assert(ds.len() == TOURNAMENT_SIZE - 1 && (forall|i: int|
                0 <= i < ds.len() ==> #[trigger] ds[i] < self.pool@.len()) && k == winner_after(
                pool_views(self.pool@),
                *target,
                ds,
            ));
        }
        k
    }

    /// The index of the pool's best member: minimal error — that is,
    /// maximal fitness — with ties resolved by first-encountered order.
    pub fn get_best(&self, target: &TargetImage) -> (k: usize)
        requires
            self.wf(),
            self.compat(*target),
        ensures
            k < self.pool@.len(),
            k == best_index(pool_views(self.pool@), *target),
            forall|j: int|
                0 <= j < self.pool@.len() ==> chrom_err(self.pool@[k as int]@, *target)
                    <= chrom_err(#[trigger] self.pool@[j]@, *target),
    {
        let s = Ghost(pool_views(self.pool@));
        let mut best: usize = 0;
        let mut best_err = self.pool[0].sq_error(target);
        let mut i: usize = 1;
        while i < self.pool.len()
            invariant
                self.wf(),
                self.compat(*target),
                s@ == pool_views(self.pool@),
                1 <= i <= self.pool@.len(),
                best < i,
                best_err as int == chrom_err(self.pool@[best as int]@, *target),
                best == best_index(s@.take(i as int), *target),
            decreases self.pool@.len() - i,
        {
            proof {
                assert(s@.take(i + 1).drop_last() =~= s@.take(i as int));
            }
            let e = self.pool[i].sq_error(target);
            if e < best_err {
                best = i;
                best_err = e;
            }
            i = i + 1;
        }
        proof {
            assert(s@.take(self.pool@.len() as int) =~= s@);
            lemma_best_index(s@, *target);
            assert forall|j: int| 0 <= j < self.pool@.len() implies chrom_err(
                self.pool@[best as int]@,
                *target,
            ) <= chrom_err(#[trigger] self.pool@[j]@, *target) by {
                assert(s@[j] == self.pool@[j]@);
                assert(s@[best as int] == self.pool@[best as int]@);
                assert(chrom_err(s@[best_index(s@, *target)], *target) <= chrom_err(
                    s@[j],
                    *target,
                ));
            }
        }
        best
    }

    /// A copy of the pool sorted by error, fittest first: a stable
    /// selection sort that repeatedly moves the first-encountered
    /// minimum over.
    fn sorted_pool(&self, target: &TargetImage) -> (s: Vec<Chromosome>)
        requires
            self.wf(),
            self.compat(*target),
        ensures
            s@.len() == POPULATION_SIZE,
            forall|k: int|
                0 <= k < s@.len() ==> (#[trigger] s@[k]).wf() && s@[k]@.pos == self.pos,
            pool_views(s@) == stable_sorted(pool_views(self.pool@), *target),
            sorted_by_err(pool_views(s@), *target),
            pool_views(s@).to_multiset() == pool_views(self.pool@).to_multiset(),
    {
        let mut rest: Vec<Chromosome> = Vec::new();
        let mut k: usize = 0;
        while k < self.pool.len()
            invariant
                self.wf(),
                k <= self.pool@.len(),
                rest@.len() == k,
                forall|i: int| 0 <= i < k ==> (#[trigger] rest@[i])@ == self.pool@[i]@,
            decreases self.pool@.len() - k,
        {
            rest.push(self.pool[k].duplicate());
            k = k + 1;
        }
        proof {
            assert(pool_views(rest@) =~= pool_views(self.pool@));
        }
        let ghost orig_views = pool_views(self.pool@);
        let mut out: Vec<Chromosome> = Vec::new();
        while rest.len() > 0
            invariant
                self.wf(),
                self.compat(*target),
                orig_views == pool_views(self.pool@),
                pool_views(out@) + stable_sorted(pool_views(rest@), *target) == stable_sorted(
                    orig_views,
                    *target,
                ),
                out@.len() + rest@.len() == POPULATION_SIZE,
                forall|i: int|
                    0 <= i < out@.len() ==> (#[trigger] out@[i]).wf() && out@[i]@.pos == self.pos,
                forall|i: int|
                    0 <= i < rest@.len() ==> (#[trigger] rest@[i]).wf() && rest@[i]@.pos
                        == self.pos,
            decreases rest@.len(),
        {
            let ghost rest_before = rest@;
            let ghost out_before = out@;
            let m = min_err_index(&rest, target);
            let c = rest.remove(m);
            out.push(c);
            proof {
                let rv = pool_views(rest_before);
                let v = rv[m as int];
                assert(pool_views(rest@) =~= rv.remove(m as int));
                assert(pool_views(out@) =~= pool_views(out_before).push(v));
                assert(stable_sorted(rv, *target) == seq![v] + stable_sorted(
                    rv.remove(m as int),
                    *target,
                ));
                assert(pool_views(out@) + stable_sorted(pool_views(rest@), *target)
                    =~= pool_views(out_before) + stable_sorted(rv, *target));
            }
        }
        proof {
            assert(stable_sorted(pool_views(rest@), *target) == Seq::<ChromView>::empty());
            assert(pool_views(out@) =~= pool_views(out@) + Seq::<ChromView>::empty());
            lemma_stable_sorted_props(orig_views, *target);
        }
        out
    }

    /// One generational step: sort by fitness, carry the `ELITE_SIZE`
    /// best over unchanged, and refill the pool with mutated crossover
    /// children of tournament-selected parents. Afterwards the pool
    /// holds exactly `POPULATION_SIZE` members again, and the elites of
    /// the stably sorted old pool stand, bit for bit, at the front of
    /// the new one.
    pub fn step(&mut self, target: &TargetImage, rng: &mut RandomSource)
        requires
            old(self).wf(),
            old(self).compat(*target),
        ensures
            final(self).wf(),
            final(self).pos == old(self).pos,
            final(self).pool@.len() == POPULATION_SIZE,
            stepped_from(*old(self), *final(self), *target),
    {
        let sorted = self.sorted_pool(target);
        let mut new_pool: Vec<Chromosome> = Vec::new();
        let mut k: usize = 0;
        while k < ELITE_SIZE
            invariant
                k <= ELITE_SIZE,
                sorted@.len() == POPULATION_SIZE,
                forall|i: int|
                    0 <= i < sorted@.len() ==> (#[trigger] sorted@[i]).wf() && sorted@[i]@.pos
                        == self.pos,
                new_pool@.len() == k,
                forall|i: int| 0 <= i < k ==> (#[trigger] new_pool@[i])@ == sorted@[i]@,
            decreases ELITE_SIZE - k,
        {
            new_pool.push(sorted[k].duplicate());
            k = k + 1;
        }
        while new_pool.len() < POPULATION_SIZE
            invariant
                self.wf(),
                self.compat(*target),
                ELITE_SIZE <= new_pool@.len() <= POPULATION_SIZE,
                forall|i: int|
                    0 <= i < new_pool@.len() ==> (#[trigger] new_pool@[i]).wf()
                        && new_pool@[i]@.pos == self.pos,
                sorted@.len() == POPULATION_SIZE,
                forall|i: int| 0 <= i < ELITE_SIZE ==> (#[trigger] new_pool@[i])@ == sorted@[i]@,
            decreases POPULATION_SIZE - new_pool@.len(),
        {
            let p1 = self.tournament_selection(target, rng);
            let p2 = self.tournament_selection(target, rng);
            let (mut c1, mut c2) = self.pool[p1].uniform_crossover(&self.pool[p2], rng);
            c1.mutate(rng);
            c2.mutate(rng);
            new_pool.push(c1);
            if new_pool.len() < POPULATION_SIZE {
                new_pool.push(c2);
            }
        }
        new_pool.truncate(POPULATION_SIZE);
        proof {
            assert(new_pool@ =~= new_pool@.subrange(0, POPULATION_SIZE as int));
        }
        let ghost sorted_views = pool_views(sorted@);
        let ghost old_views = pool_views(self.pool@);
        self.pool = new_pool;
        proof {
            assert(sorted_views == stable_sorted(old_views, *target));
            assert(forall|i: int|
                0 <= i < ELITE_SIZE ==> #[trigger] pool_views(self.pool@)[i] == sorted_views[i]);
            assert(pool_views(self.pool@)[0] == sorted_views[0]);
            lemma_stable_sorted_props(old_views, *target);
            lemma_elitism_keeps_best(old_views, pool_views(self.pool@), sorted_views, *target);
        }
    }
}

/// The index of the first-encountered minimum-error chromosome.
fn min_err_index(pool: &Vec<Chromosome>, target: &TargetImage) -> (k: usize)
    requires
        pool@.len() >= 1,
        target.wf(),
        forall|i: int|
            0 <= i < pool@.len() ==> (#[trigger] pool@[i]).wf() && in_image(
                pool@[i].pos,
                *target,
            ),
    ensures
        k < pool@.len(),
        k == best_index(pool_views(pool@), *target),
        forall|j: int|
            0 <= j < pool@.len() ==> chrom_err(pool@[k as int]@, *target) <= chrom_err(
                #[trigger] pool@[j]@,
                *target,
            ),
{
    let ghost s = pool_views(pool@);
    let mut best: usize = 0;
    let mut best_err = pool[0].sq_error(target);
    let mut i: usize = 1;
    while i < pool.len()
        invariant
            pool@.len() >= 1,
            target.wf(),
            forall|j: int|
                0 <= j < pool@.len() ==> (#[trigger] pool@[j]).wf() && in_image(
                    pool@[j].pos,
                    *target,
                ),
            s == pool_views(pool@),
            1 <= i <= pool@.len(),
            best < i,
            best_err as int == chrom_err(pool@[best as int]@, *target),
            best == best_index(s.take(i as int), *target),
        decreases pool@.len() - i,
    {
        proof {
            assert(s.take(i + 1).drop_last() =~= s.take(i as int));
        }
        let e = pool[i].sq_error(target);
        if e < best_err {
            best = i;
            best_err = e;
        }
        i = i + 1;
    }
    proof {
        assert(s.take(pool@.len() as int) =~= s);
        lemma_best_index(s, *target);
        assert forall|j: int| 0 <= j < pool@.len() implies chrom_err(pool@[best as int]@, *target)
            <= chrom_err(#[trigger] pool@[j]@, *target) by {
            assert(s[j] == pool@[j]@);
            assert(chrom_err(s[best_index(s, *target)], *target) <= chrom_err(s[j], *target));
        }
    }
    best
}

} // verus!
