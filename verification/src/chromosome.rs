//! Chromosomes: fixed-shape bit genomes and their operators.

use vstd::prelude::*;
use crate::color::{sq_err, sq_err_exec, Rgb};
use crate::params::{CROSSOVER_PERCENT, FORCE_FLIP_PERCENT, GENE_LENGTH, MUTATION_PERCENT,
    RGB_CHANNELS};
use crate::rng::RandomSource;
use crate::target::TargetImage;

verus! {

/// A candidate color for one pixel: per channel, `GENE_LENGTH` bits that
/// decode MSB-first to the channel value. The shape of the gene is fixed
/// at construction and never changes.
pub struct Chromosome {
    /// The (row, column) coordinate this candidate is scored against.
    pub pos: (usize, usize),
    /// `RGB_CHANNELS` rows of `GENE_LENGTH` bits each.
    pub gene: Vec<Vec<bool>>,
}

/// The mathematical image of a chromosome: coordinate and bit matrix.
pub ghost struct ChromView {
    pub pos: (usize, usize),
    pub gene: Seq<Seq<bool>>,
}

impl View for Chromosome {
    type V = ChromView;

    open spec fn view(&self) -> ChromView {
        ChromView { pos: self.pos, gene: self.gene.deep_view() }
    }
}

/// Exactly three channels of exactly eight bits.
pub open spec fn wf_gene(g: Seq<Seq<bool>>) -> bool {
    &&& g.len() == RGB_CHANNELS
    &&& forall|i: int| 0 <= i < g.len() ==> (#[trigger] g[i]).len() == GENE_LENGTH
}

/// MSB-first decoding: the first bit is the most significant.
pub open spec fn bits_value(s: Seq<bool>) -> int
    decreases s.len(),
{
    if s.len() == 0 {
        0
    } else {
        2 * bits_value(s.drop_last()) + (if s.last() {
            1int
        } else {
            0int
        })
    }
}

/// Powers of two, for bounding decoded values.
pub open spec fn two_pow(n: nat) -> int
    decreases n,
{
    if n == 0 {
        1
    } else {
        2 * two_pow((n - 1) as nat)
    }
}

pub proof fn lemma_bits_value_bound(s: Seq<bool>)
    ensures
        0 <= bits_value(s) < two_pow(s.len()),
    decreases s.len(),
{
    if s.len() > 0 {
        lemma_bits_value_bound(s.drop_last());
    }
}

/// A channel of eight bits decodes to a byte.
pub proof fn lemma_channel_value_fits(s: Seq<bool>)
    requires
        s.len() == GENE_LENGTH,
    ensures
        0 <= bits_value(s) < 256,
{
    lemma_bits_value_bound(s);
    assert(two_pow(8) == 256) by {
        reveal_with_fuel(two_pow, 10);
    }
}

/// The color a well-formed gene stands for.
pub open spec fn decoded_rgb(g: Seq<Seq<bool>>) -> Rgb
    recommends
        wf_gene(g),
{
    Rgb {
        r: bits_value(g[0]) as u8,
        g: bits_value(g[1]) as u8,
        b: bits_value(g[2]) as u8,
    }
}

/// The squared-error sum of a chromosome against its own pixel of the
/// target; ranking by this integer ranks by fitness, smaller is fitter.
pub open spec fn chrom_err(cv: ChromView, t: TargetImage) -> int {
    sq_err(decoded_rgb(cv.gene), t.spec_at(cv.pos.0 as int, cv.pos.1 as int))
}

/// The chromosome's coordinate lies inside the image.
pub open spec fn in_image(pos: (usize, usize), t: TargetImage) -> bool {
    pos.0 < t.size && pos.1 < t.size
}

/// A row of a gene vector, seen through `deep_view`, is the row's view.
pub proof fn lemma_gene_row(g: Vec<Vec<bool>>, i: int)
    requires
        0 <= i < g@.len(),
    ensures
        g.deep_view()[i] == g@[i]@,
{
    assert(g.deep_view()[i] =~= g@[i]@);
}

/// Decodes one channel row, MSB first.
pub fn decode_channel(bits: &Vec<bool>) -> (v: u8)
    requires
        bits@.len() == GENE_LENGTH,
    ensures
        v as int == bits_value(bits@),
{
    let mut val: u16 = 0;
    let mut i: usize = 0;
    while i < GENE_LENGTH
        invariant
            bits@.len() == GENE_LENGTH,
            i <= GENE_LENGTH,
            val as int == bits_value(bits@.take(i as int)),
            (val as int) < two_pow(i as nat),
        decreases GENE_LENGTH - i,
    {
        proof {
            assert(two_pow(8) == 256 && two_pow(7) == 128 && two_pow(6) == 64 && two_pow(5) == 32
                && two_pow(4) == 16 && two_pow(3) == 8 && two_pow(2) == 4 && two_pow(1) == 2) by {
                reveal_with_fuel(two_pow, 10);
            }
            lemma_two_pow_increases(i as nat, 7);
            assert(bits@.take(i + 1).drop_last() =~= bits@.take(i as int));
            assert(bits@.take(i + 1).last() == bits@[i as int]);
        }
        let b = bits[i];
        val = 2 * val + (if b {
            1
        } else {
            0
        });
        i = i + 1;
    }
    proof {
        assert(bits@.take(GENE_LENGTH as int) =~= bits@);
        lemma_channel_value_fits(bits@);
    }
    val as u8
}

proof fn lemma_two_pow_increases(a: nat, b: nat)
    requires
        a <= b,
    ensures
        two_pow(a) <= two_pow(b),
    decreases b,
{
    if a < b {
        lemma_two_pow_increases(a, (b - 1) as nat);
        lemma_bits_pos((b - 1) as nat);
    }
}

proof fn lemma_bits_pos(n: nat)
    ensures
        two_pow(n) >= 1,
    decreases n,
{
    if n > 0 {
        lemma_bits_pos((n - 1) as nat);
    }
}

/// The MSB-first bit row of a channel value.
pub open spec fn channel_bits(v: u8) -> Seq<bool> {
    Seq::new(GENE_LENGTH as nat, |j: int| ((v as u32) >> ((7 - j) as u32)) & 1 == 1)
}

/// Encodes a channel value as its eight MSB-first bits.
pub fn encode_channel(v: u8) -> (bits: Vec<bool>)
    ensures
        bits@ == channel_bits(v),
{
    let mut bits: Vec<bool> = Vec::new();
    let mut j: usize = 0;
    while j < GENE_LENGTH
        invariant
            j <= GENE_LENGTH,
            bits@.len() == j,
            forall|k: int| 0 <= k < j ==> bits@[k] == channel_bits(v)[k],
        decreases GENE_LENGTH - j,
    {
        let sh = (7 - j) as u32;
        bits.push((v as u32) >> sh & 1 == 1);
        j = j + 1;
    }
    proof {
        assert(bits@ =~= channel_bits(v));
    }
    bits
}

/// A prefix of the bit row decodes to the value shifted right by the
/// bits not yet read.
proof fn lemma_prefix_value(v: u8, k: int)
    requires
        0 <= k <= 8,
    ensures
        bits_value(channel_bits(v).take(k)) == ((v as u32) >> ((8 - k) as u32)) as int,
    decreases k,
{
    let x: u32 = v as u32;
    if k == 0 {
        assert(channel_bits(v).take(0).len() == 0);
        assert(x >> 8u32 == 0) by (bit_vector)
            requires
                x < 256,
        ;
    } else {
        lemma_prefix_value(v, k - 1);
        let s = channel_bits(v).take(k);
        assert(s.drop_last() =~= channel_bits(v).take(k - 1));
        let sh: u32 = (8 - k) as u32;
        assert(s.last() == ((x >> sh) & 1 == 1));
        assert(2 * ((x >> (sh + 1)) as int) + (if (x >> sh) & 1 == 1 {
            1int
        } else {
            0int
        }) == (x >> sh) as int) by (bit_vector)
            requires
                sh < 8,
                x < 256,
        ;
    }
}

/// Round trip: decoding the eight MSB-first bits of any byte gives the
/// byte back.
pub proof fn lemma_channel_round_trip(v: u8)
    ensures
        bits_value(channel_bits(v)) == v,
{
    lemma_prefix_value(v, 8);
    assert(channel_bits(v).take(8) =~= channel_bits(v));
    let x: u32 = v as u32;
    assert(x >> 0u32 == x) by (bit_vector);
}

/// Copies a bit row.
fn copy_bits(v: &Vec<bool>) -> (r: Vec<bool>)
    ensures
        r@ == v@,
{
    let mut r: Vec<bool> = Vec::new();
    let mut i: usize = 0;
    while i < v.len()
        invariant
            i <= v@.len(),
            r@ == v@.take(i as int),
        decreases v@.len() - i,
    {
        r.push(v[i]);
        proof {
            assert(r@ =~= v@.take(i + 1));
        }
        i = i + 1;
    }
    proof {
        assert(v@.take(v@.len() as int) =~= v@);
    }
    r
}

/// Copies a gene, preserving its mathematical value.
fn copy_gene(g: &Vec<Vec<bool>>) -> (r: Vec<Vec<bool>>)
    ensures
        r.deep_view() == g.deep_view(),
{
    let mut r: Vec<Vec<bool>> = Vec::new();
    let mut i: usize = 0;
    while i < g.len()
        invariant
            i <= g@.len(),
            r@.len() == i,
            forall|k: int| 0 <= k < i ==> (#[trigger] r@[k])@ == g@[k]@,
        decreases g@.len() - i,
    {
        r.push(copy_bits(&g[i]));
        i = i + 1;
    }
    proof {
        assert forall|k: int| 0 <= k < g@.len() implies r.deep_view()[k] == g.deep_view()[k] by {
            lemma_gene_row(r, k);
            lemma_gene_row(*g, k);
        }
        assert(r.deep_view() =~= g.deep_view());
    }
    r
}

/// Both children's genes of a uniform crossover: with no mixing, exact
/// clones of the parents; with mixing, the bit at each swapped position
/// is exchanged between the children and every other bit kept.
pub open spec fn crossed_genes(g1: Seq<Seq<bool>>, g2: Seq<Seq<bool>>, mix: bool, swaps: Seq<bool>)
    -> (Seq<Seq<bool>>, Seq<Seq<bool>>)
    recommends
        wf_gene(g1),
        wf_gene(g2),
        swaps.len() == RGB_CHANNELS * GENE_LENGTH,
{
    if !mix {
        (g1, g2)
    } else {
        (
            Seq::new(g1.len(), |i: int| Seq::new(g1[i].len(), |j: int|
                if swaps[i * GENE_LENGTH + j] {
                    g2[i][j]
                } else {
                    g1[i][j]
                }
            )),
            Seq::new(g2.len(), |i: int| Seq::new(g2[i].len(), |j: int|
                if swaps[i * GENE_LENGTH + j] {
                    g1[i][j]
                } else {
                    g2[i][j]
                }
            )),
        )
    }
}

/// Both children's genes of a single-point crossover: with no mixing,
/// exact clones; with mixing, within each channel the children exchange
/// every bit from that channel's splice point on.
pub open spec fn spliced_genes(g1: Seq<Seq<bool>>, g2: Seq<Seq<bool>>, mix: bool, points: Seq<
    usize,
>) -> (Seq<Seq<bool>>, Seq<Seq<bool>>)
    recommends
        wf_gene(g1),
        wf_gene(g2),
        points.len() == RGB_CHANNELS,
{
    if !mix {
        (g1, g2)
    } else {
        (
            Seq::new(g1.len(), |i: int| Seq::new(g1[i].len(), |j: int|
                if j >= points[i] {
                    g2[i][j]
                } else {
                    g1[i][j]
                }
            )),
            Seq::new(g2.len(), |i: int| Seq::new(g2[i].len(), |j: int|
                if j >= points[i] {
                    g1[i][j]
                } else {
                    g2[i][j]
                }
            )),
        )
    }
}

/// `b`, flipped when `f` holds.
pub open spec fn flip_if(b: bool, f: bool) -> bool {
    if f {
        !b
    } else {
        b
    }
}

/// The mutation draws as the contract speaks of them: the forced flip's
/// coordinate, if one was drawn.
pub open spec fn force_view(force: Option<(usize, usize)>) -> Option<(int, int)> {
    match force {
        Some(p) => Some((p.0 as int, p.1 as int)),
        None => None,
    }
}

/// The gene a mutation produces: every bit flipped where its entry of
/// the flattened flip mask holds, after which the forced flip — when
/// one was drawn — flips its single bit once more, so it can undo the
/// mask's flip there and restore the original bit.
pub open spec fn mutated_gene(g: Seq<Seq<bool>>, flips: Seq<bool>, force: Option<(int, int)>)
    -> Seq<Seq<bool>>
    recommends
        wf_gene(g),
        flips.len() == RGB_CHANNELS * GENE_LENGTH,
{
    Seq::new(g.len(), |i: int| Seq::new(g[i].len(), |j: int|
        flip_if(flip_if(g[i][j], flips[i * GENE_LENGTH + j]), force == Some((i, j)))
    ))
}

/// With the mixing draw refused — crossover chance effectively zero —
/// uniform crossover returns exact clones of both parents.
pub proof fn lemma_no_mix_returns_clones(g1: Seq<Seq<bool>>, g2: Seq<Seq<bool>>, swaps: Seq<bool>)
    ensures
        crossed_genes(g1, g2, false, swaps) == (g1, g2),
{
}

impl Chromosome {
    pub open spec fn wf(self) -> bool {
        wf_gene(self@.gene)
    }

    /// A chromosome for `pos` with every bit drawn at random (an even
    /// chance each way).
    pub fn new(pos: (usize, usize), rng: &mut RandomSource) -> (c: Chromosome)
        ensures
            c@.pos == pos,
            c.wf(),
    {
        let mut gene: Vec<Vec<bool>> = Vec::new();
        let mut i: usize = 0;
        while i < RGB_CHANNELS
            invariant
                i <= RGB_CHANNELS,
                gene@.len() == i,
                forall|k: int| 0 <= k < i ==> (#[trigger] gene@[k])@.len() == GENE_LENGTH,
            decreases RGB_CHANNELS - i,
        {
            let mut row: Vec<bool> = Vec::new();
            let mut j: usize = 0;
            while j < GENE_LENGTH
                invariant
                    j <= GENE_LENGTH,
                    row@.len() == j,
                decreases GENE_LENGTH - j,
            {
                row.push(rng.below(2) == 1);
                j = j + 1;
            }
            gene.push(row);
            i = i + 1;
        }
        let c = Chromosome { pos, gene };
        proof {
            lemma_wf_from_rows(c.gene);
        }
        c
    }

    /// A copy with the same coordinate and the same gene bits.
    pub fn duplicate(&self) -> (c: Chromosome)
        ensures
            c@ == self@,
    {
        Chromosome { pos: self.pos, gene: copy_gene(&self.gene) }
    }

    /// Decodes the gene to its color, channel by channel, MSB first.
    pub fn get_val(&self) -> (c: Rgb)
        requires
            self.wf(),
        ensures
            c == decoded_rgb(self@.gene),
    {
        proof {
            lemma_gene_row(self.gene, 0);
            lemma_gene_row(self.gene, 1);
            lemma_gene_row(self.gene, 2);
            lemma_channel_value_fits(self@.gene[0]);
            lemma_channel_value_fits(self@.gene[1]);
            lemma_channel_value_fits(self@.gene[2]);
        }
        let r = decode_channel(&self.gene[0]);
        let g = decode_channel(&self.gene[1]);
        let b = decode_channel(&self.gene[2]);
        Rgb { r, g, b }
    }

    /// Scores the chromosome against its own pixel of the target: the
    /// squared-error sum whose ordering is exactly the fitness ordering
    /// (smaller error, higher fitness).
    pub fn sq_error(&self, target: &TargetImage) -> (e: u32)
        requires
            self.wf(),
            target.wf(),
            in_image(self.pos, *target),
        ensures
            e as int == chrom_err(self@, *target),
    {
        let val = self.get_val();
        let t = target.at(self.pos.0, self.pos.1);
        sq_err_exec(val, t)
    }

    /// The deterministic core of uniform crossover, taking the random
    /// outcomes — whether to mix at all, and which positions to swap —
    /// as arguments.
    pub fn uniform_crossover_mix(&self, other: &Chromosome, mix: bool, swaps: &Vec<bool>) -> (c: (
        Chromosome,
        Chromosome,
    ))
        requires
            self.wf(),
            other.wf(),
            swaps@.len() == RGB_CHANNELS * GENE_LENGTH,
        ensures
            c.0.wf(),
            c.1.wf(),
            c.0@.pos == self@.pos,
            c.1@.pos == other@.pos,
            c.0@.gene == crossed_genes(self@.gene, other@.gene, mix, swaps@).0,
            c.1@.gene == crossed_genes(self@.gene, other@.gene, mix, swaps@).1,
    {
        if !mix {
            return (self.duplicate(), other.duplicate());
        }
        let mut gene1: Vec<Vec<bool>> = Vec::new();
        let mut gene2: Vec<Vec<bool>> = Vec::new();
        let mut i: usize = 0;
        while i < RGB_CHANNELS
            invariant
                self.wf(),
                other.wf(),
                swaps@.len() == RGB_CHANNELS * GENE_LENGTH,
                i <= RGB_CHANNELS,
                gene1@.len() == i,
                gene2@.len() == i,
                forall|k: int| 0 <= k < i ==> (#[trigger] gene1@[k])@.len() == GENE_LENGTH,
                forall|k: int| 0 <= k < i ==> (#[trigger] gene2@[k])@.len() == GENE_LENGTH,
                forall|k: int, j: int|
                    0 <= k < i && 0 <= j < GENE_LENGTH ==> (#[trigger] gene1@[k]@[j]) == (
                    if swaps@[k * GENE_LENGTH + j] {
                        other@.gene[k][j]
                    } else {
                        self@.gene[k][j]
                    }),
                forall|k: int, j: int|
                    0 <= k < i && 0 <= j < GENE_LENGTH ==> (#[trigger] gene2@[k]@[j]) == (
                    if swaps@[k * GENE_LENGTH + j] {
                        self@.gene[k][j]
                    } else {
                        other@.gene[k][j]
                    }),
            decreases RGB_CHANNELS - i,
        {
            proof {
                lemma_gene_row(self.gene, i as int);
                lemma_gene_row(other.gene, i as int);
            }
            let mut row1: Vec<bool> = Vec::new();
            let mut row2: Vec<bool> = Vec::new();
            let mut j: usize = 0;
            while j < GENE_LENGTH
                invariant
                    self.wf(),
                    other.wf(),
                    swaps@.len() == RGB_CHANNELS * GENE_LENGTH,
                    i < RGB_CHANNELS,
                    j <= GENE_LENGTH,
                    self.gene@[i as int]@ == self@.gene[i as int],
                    other.gene@[i as int]@ == other@.gene[i as int],
                    row1@.len() == j,
                    row2@.len() == j,
                    forall|l: int|
                        0 <= l < j ==> (#[trigger] row1@[l]) == (
                        if swaps@[i * GENE_LENGTH + l] {
                            other@.gene[i as int][l]
                        } else {
                            self@.gene[i as int][l]
                        }),
                    forall|l: int|
                        0 <= l < j ==> (#[trigger] row2@[l]) == (
                        if swaps@[i * GENE_LENGTH + l] {
                            self@.gene[i as int][l]
                        } else {
                            other@.gene[i as int][l]
                        }),
                decreases GENE_LENGTH - j,
            {
                let s = swaps[i * GENE_LENGTH + j];
                let b1 = self.gene[i][j];
                let b2 = other.gene[i][j];
                row1.push(if s {
                    b2
                } else {
                    b1
                });
                row2.push(if s {
                    b1
                } else {
                    b2
                });
                j = j + 1;
            }
            gene1.push(row1);
            gene2.push(row2);
            i = i + 1;
        }
        let c1 = Chromosome { pos: self.pos, gene: gene1 };
        let c2 = Chromosome { pos: other.pos, gene: gene2 };
        proof {
            lemma_wf_from_rows(c1.gene);
            lemma_wf_from_rows(c2.gene);
            let want = crossed_genes(self@.gene, other@.gene, true, swaps@);
            assert forall|k: int| 0 <= k < RGB_CHANNELS implies c1@.gene[k] == want.0[k] by {
                lemma_gene_row(c1.gene, k);
                assert(c1@.gene[k] =~= want.0[k]);
            }
            assert forall|k: int| 0 <= k < RGB_CHANNELS implies c2@.gene[k] == want.1[k] by {
                lemma_gene_row(c2.gene, k);
                assert(c2@.gene[k] =~= want.1[k]);
            }
            assert(c1@.gene =~= want.0);
            assert(c2@.gene =~= want.1);
        }
        (c1, c2)
    }

    /// Uniform crossover as the evolutionary loop uses it: with a given
    /// chance no mixing happens and both parents are cloned; otherwise
    /// every bit position is swapped between the children with an even
    /// chance. Whatever the draws, both children are built from the two
    /// parents' bits by `crossed_genes`.
    pub fn uniform_crossover(&self, other: &Chromosome, rng: &mut RandomSource) -> (c: (
        Chromosome,
        Chromosome,
    ))
        requires
            self.wf(),
            other.wf(),
        ensures
            c.0.wf(),
            c.1.wf(),
            c.0@.pos == self@.pos,
            c.1@.pos == other@.pos,
            exists|mix: bool, swaps: Seq<bool>|
                swaps.len() == RGB_CHANNELS * GENE_LENGTH && c.0@.gene == crossed_genes(
                    self@.gene,
                    other@.gene,
                    mix,
                    swaps,
                ).0 && c.1@.gene == crossed_genes(self@.gene, other@.gene, mix, swaps).1,
    {
        let draw = rng.below(100);
        let mix = draw < CROSSOVER_PERCENT;
        let mut swaps: Vec<bool> = Vec::new();
        let mut k: usize = 0;
        while k < RGB_CHANNELS * GENE_LENGTH
            invariant
                k <= RGB_CHANNELS * GENE_LENGTH,
                swaps@.len() == k,
            decreases RGB_CHANNELS * GENE_LENGTH - k,
        {
            swaps.push(rng.below(2) == 1);
            k = k + 1;
        }
        let c = self.uniform_crossover_mix(other, mix, &swaps);
        proof {
            let m = mix;
            let s = swaps@;
            assert(s.len() == RGB_CHANNELS * GENE_LENGTH && c.0@.gene == crossed_genes(
                self@.gene,
                other@.gene,
                m,
                s,
            ).0 && c.1@.gene == crossed_genes(self@.gene, other@.gene, m, s).1);
        }
        c
    }

    /// The deterministic core of single-point crossover: within each
    /// channel, the children exchange every bit from that channel's
    /// splice point on.
    pub fn crossover_at(&self, other: &Chromosome, mix: bool, points: &Vec<usize>) -> (c: (
        Chromosome,
        Chromosome,
    ))
        requires
            self.wf(),
            other.wf(),
            points@.len() == RGB_CHANNELS,
            forall|i: int| 0 <= i < RGB_CHANNELS ==> 1 <= #[trigger] points@[i] < GENE_LENGTH,
        ensures
            c.0.wf(),
            c.1.wf(),
            c.0@.pos == self@.pos,
            c.1@.pos == other@.pos,
            c.0@.gene == spliced_genes(self@.gene, other@.gene, mix, points@).0,
            c.1@.gene == spliced_genes(self@.gene, other@.gene, mix, points@).1,
    {
        if !mix {
            return (self.duplicate(), other.duplicate());
        }
        let mut swaps: Vec<bool> = Vec::new();
        let mut i: usize = 0;
        while i < RGB_CHANNELS
            invariant
                points@.len() == RGB_CHANNELS,
                i <= RGB_CHANNELS,
                swaps@.len() == i * GENE_LENGTH,
                forall|k: int, j: int|
                    0 <= k < i && 0 <= j < GENE_LENGTH ==> (#[trigger] swaps@[k * GENE_LENGTH + j])
                        == (j >= points@[k]),
            decreases RGB_CHANNELS - i,
        {
            let p = points[i];
            let mut j: usize = 0;
            while j < GENE_LENGTH
                invariant
                    points@.len() == RGB_CHANNELS,
                    i < RGB_CHANNELS,
                    p == points@[i as int],
                    j <= GENE_LENGTH,
                    swaps@.len() == i * GENE_LENGTH + j,
                    forall|k: int, l: int|
                        0 <= k < i && 0 <= l < GENE_LENGTH ==> (#[trigger] swaps@[k * GENE_LENGTH
                            + l]) == (l >= points@[k]),
                    forall|l: int|
                        0 <= l < j ==> (#[trigger] swaps@[i * GENE_LENGTH + l]) == (l
                            >= points@[i as int]),
                decreases GENE_LENGTH - j,
            {
                swaps.push(j >= p);
                proof {
                    assert forall|k: int, l: int|
                        0 <= k < i && 0 <= l < GENE_LENGTH implies (#[trigger] swaps@[k
                        * GENE_LENGTH + l]) == (l >= points@[k]) by {
                        crate::target::lemma_row_major_le(k, l, i as int, GENE_LENGTH as int);
                    }
                }
                j = j + 1;
            }
            i = i + 1;
        }
        let c = self.uniform_crossover_mix(other, true, &swaps);
        proof {
            let want = spliced_genes(self@.gene, other@.gene, true, points@);
            let got = crossed_genes(self@.gene, other@.gene, true, swaps@);
            assert forall|k: int| 0 <= k < RGB_CHANNELS implies got.0[k] == want.0[k] && got.1[k]
                == want.1[k] by {
                assert(got.0[k] =~= want.0[k]);
                assert(got.1[k] =~= want.1[k]);
            }
            assert(got.0 =~= want.0);
            assert(got.1 =~= want.1);
        }
        c
    }

    /// Single-point crossover: with a given chance no mixing happens and
    /// both parents are cloned; otherwise each channel draws one splice
    /// point and the children exchange the bits behind it.
    pub fn crossover(&self, other: &Chromosome, rng: &mut RandomSource) -> (c: (
        Chromosome,
        Chromosome,
    ))
        requires
            self.wf(),
            other.wf(),
        ensures
            c.0.wf(),
            c.1.wf(),
            c.0@.pos == self@.pos,
            c.1@.pos == other@.pos,
            exists|mix: bool, points: Seq<usize>|
                points.len() == RGB_CHANNELS && (forall|i: int|
                    0 <= i < RGB_CHANNELS ==> 1 <= #[trigger] points[i] < GENE_LENGTH) && c.0@.gene
                    == spliced_genes(self@.gene, other@.gene, mix, points).0 && c.1@.gene
                    == spliced_genes(self@.gene, other@.gene, mix, points).1,
    {
        let draw = rng.below(100);
        let mix = draw < CROSSOVER_PERCENT;
        let mut points: Vec<usize> = Vec::new();
        let mut i: usize = 0;
        while i < RGB_CHANNELS
            invariant
                i <= RGB_CHANNELS,
                points@.len() == i,
                forall|k: int| 0 <= k < i ==> 1 <= #[trigger] points@[k] < GENE_LENGTH,
            decreases RGB_CHANNELS - i,
        {
            points.push(rng.below(GENE_LENGTH as u64 - 1) as usize + 1);
            i = i + 1;
        }
        let c = self.crossover_at(other, mix, &points);
        proof {
            let m = mix;
            let s = points@;
            assert(s.len() == RGB_CHANNELS && (forall|k: int|
                0 <= k < RGB_CHANNELS ==> 1 <= #[trigger] s[k] < GENE_LENGTH) && c.0@.gene
                == spliced_genes(self@.gene, other@.gene, m, s).0 && c.1@.gene == spliced_genes(
                self@.gene,
                other@.gene,
                m,
                s,
            ).1);
        }
        c
    }

    /// The deterministic core of mutation, taking the random outcomes —
    /// the flattened per-bit flip mask and the coordinate of the forced
    /// flip, if one was drawn — as arguments.
    pub fn mutate_with(&self, flips: &Vec<bool>, force: Option<(usize, usize)>) -> (c: Chromosome)
        requires
            self.wf(),
            flips@.len() == RGB_CHANNELS * GENE_LENGTH,
            force matches Some(p) ==> p.0 < RGB_CHANNELS && p.1 < GENE_LENGTH,
        ensures
            c.wf(),
            c@.pos == self@.pos,
            c@.gene == mutated_gene(self@.gene, flips@, force_view(force)),
    {
        let mut gene: Vec<Vec<bool>> = Vec::new();
        let mut i: usize = 0;
        while i < RGB_CHANNELS
            invariant
                self.wf(),
                flips@.len() == RGB_CHANNELS * GENE_LENGTH,
                force matches Some(p) ==> p.0 < RGB_CHANNELS && p.1 < GENE_LENGTH,
                i <= RGB_CHANNELS,
                gene@.len() == i,
                forall|k: int| 0 <= k < i ==> (#[trigger] gene@[k])@.len() == GENE_LENGTH,
                forall|k: int, j: int|
                    0 <= k < i && 0 <= j < GENE_LENGTH ==> (#[trigger] gene@[k]@[j]) == flip_if(
                        flip_if(self@.gene[k][j], flips@[k * GENE_LENGTH + j]),
                        force_view(force) == Some((k, j)),
                    ),
            decreases RGB_CHANNELS - i,
        {
            proof {
                lemma_gene_row(self.gene, i as int);
            }
            let mut row: Vec<bool> = Vec::new();
            let mut j: usize = 0;
            while j < GENE_LENGTH
                invariant
                    self.wf(),
                    flips@.len() == RGB_CHANNELS * GENE_LENGTH,
                    force matches Some(p) ==> p.0 < RGB_CHANNELS && p.1 < GENE_LENGTH,
                    i < RGB_CHANNELS,
                    j <= GENE_LENGTH,
                    self.gene@[i as int]@ == self@.gene[i as int],
                    row@.len() == j,
                    forall|l: int|
                        0 <= l < j ==> (#[trigger] row@[l]) == flip_if(
                            flip_if(self@.gene[i as int][l], flips@[i * GENE_LENGTH + l]),
                            force_view(force) == Some((i as int, l)),
                        ),
                decreases GENE_LENGTH - j,
            {
                let b = self.gene[i][j];
                let masked = if flips[i * GENE_LENGTH + j] {
                    !b
                } else {
                    b
                };
                let forced = match force {
                    Some(p) => p.0 == i && p.1 == j,
                    None => false,
                };
                row.push(if forced {
                    !masked
                } else {
                    masked
                });
                j = j + 1;
            }
            gene.push(row);
            i = i + 1;
        }
        let c = Chromosome { pos: self.pos, gene };
        proof {
            lemma_wf_from_rows(c.gene);
            let want = mutated_gene(self@.gene, flips@, force_view(force));
            assert forall|k: int| 0 <= k < RGB_CHANNELS implies c@.gene[k] == want[k] by {
                lemma_gene_row(c.gene, k);
                assert(c@.gene[k] =~= want[k]);
            }
            assert(c@.gene =~= want);
        }
        c
    }

    /// Replaces the gene with a freshly mutated copy: every bit flips
    /// independently with a small chance, after which, with a further
    /// small chance, one uniformly chosen bit is flipped once more
    /// (possibly undoing the first pass's flip there). Whatever the
    /// draws, the result is `mutated_gene` of the old gene under some
    /// flip mask and optional forced coordinate.
    pub fn mutate(&mut self, rng: &mut RandomSource)
        requires
            old(self).wf(),
        ensures
            final(self).wf(),
            final(self)@.pos == old(self)@.pos,
            exists|flips: Seq<bool>, force: Option<(int, int)>|
                flips.len() == RGB_CHANNELS * GENE_LENGTH && (force matches Some(p) ==> 0 <= p.0
                    < RGB_CHANNELS && 0 <= p.1 < GENE_LENGTH) && final(self)@.gene == mutated_gene(
                    old(self)@.gene,
                    flips,
                    force,
                ),
    {
        let mut flips: Vec<bool> = Vec::new();
        let mut k: usize = 0;
        while k < RGB_CHANNELS * GENE_LENGTH
            invariant
                k <= RGB_CHANNELS * GENE_LENGTH,
                flips@.len() == k,
            decreases RGB_CHANNELS * GENE_LENGTH - k,
        {
            let d = rng.below(100);
            flips.push(d < MUTATION_PERCENT);
            k = k + 1;
        }
        let d = rng.below(100);
        let force: Option<(usize, usize)> = if d < FORCE_FLIP_PERCENT {
            let ci = rng.below(RGB_CHANNELS as u64) as usize;
            let bi = rng.below(GENE_LENGTH as u64) as usize;
            Some((ci, bi))
        } else {
            None
        };
        let c = self.mutate_with(&flips, force);
        let ghost fs = flips@;
        let ghost fv = force_view(force);
        self.gene = c.gene;
        proof {
            assert(fs.len() == RGB_CHANNELS * GENE_LENGTH && (fv matches Some(p) ==> 0 <= p.0
                < RGB_CHANNELS && 0 <= p.1 < GENE_LENGTH) && self@.gene == mutated_gene(
                old(self)@.gene,
                fs,
                fv,
            ));
        }
    }
}

/// A gene whose rows all have the channel count and bit length is well
/// formed in the mathematical view.
proof fn lemma_wf_from_rows(g: Vec<Vec<bool>>)
    requires
        g@.len() == RGB_CHANNELS,
        forall|k: int| 0 <= k < RGB_CHANNELS ==> (#[trigger] g@[k])@.len() == GENE_LENGTH,
    ensures
        wf_gene(g.deep_view()),
{
    assert forall|k: int| 0 <= k < g.deep_view().len() implies (#[trigger] g.deep_view()[k]).len()
        == GENE_LENGTH by {
        lemma_gene_row(g, k);
    }
}

} // verus!
