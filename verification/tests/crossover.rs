use pixel_evolve::chromosome::{encode_channel, Chromosome};
use pixel_evolve::rng::RandomSource;

fn parent_a() -> Chromosome {
    Chromosome {
        pos: (0, 0),
        gene: vec![encode_channel(0), encode_channel(0), encode_channel(0)],
    }
}

fn parent_b() -> Chromosome {
    Chromosome {
        pos: (0, 0),
        gene: vec![encode_channel(255), encode_channel(255), encode_channel(255)],
    }
}

#[test]
fn no_mix_draw_returns_exact_clones() {
    // The first scripted value answers the mixing draw: 99 of 100 is
    // above the crossover chance, so no mixing happens at all.
    let a = parent_a();
    let b = parent_b();
    let mut rng = RandomSource::scripted(vec![99]);
    let (c1, c2) = a.uniform_crossover(&b, &mut rng);
    assert_eq!(c1.gene, a.gene);
    assert_eq!(c2.gene, b.gene);
}

#[test]
fn swapped_positions_follow_the_bit_source() {
    // First value 0 forces mixing; the next 24 answer the per-position
    // coin as position index modulo 2, so exactly the odd positions of
    // the flattened gene swap.
    let a = parent_a();
    let b = parent_b();
    let mut script = vec![0u64];
    for k in 0..24u64 {
        script.push(k % 2);
    }
    let mut rng = RandomSource::scripted(script);
    let (c1, c2) = a.uniform_crossover(&b, &mut rng);
    for i in 0..3 {
        for j in 0..8 {
            let swapped = (i * 8 + j) % 2 == 1;
            if swapped {
                assert_eq!(c1.gene[i][j], b.gene[i][j]);
                assert_eq!(c2.gene[i][j], a.gene[i][j]);
            } else {
                assert_eq!(c1.gene[i][j], a.gene[i][j]);
                assert_eq!(c2.gene[i][j], b.gene[i][j]);
            }
        }
    }
}

#[test]
fn all_swaps_exchange_every_bit() {
    // Mixing forced and every coin answering one: the children are
    // full exchanges of each other.
    let a = parent_a();
    let b = parent_b();
    let mut script = vec![0u64];
    script.extend(std::iter::repeat(1u64).take(24));
    let mut rng = RandomSource::scripted(script);
    let (c1, c2) = a.uniform_crossover(&b, &mut rng);
    assert_eq!(c1.gene, b.gene);
    assert_eq!(c2.gene, a.gene);
}

#[test]
fn children_bits_always_come_from_parents() {
    let a = parent_a();
    let b = parent_b();
    let mut rng = RandomSource::seeded(1234);
    for _ in 0..20 {
        let (c1, c2) = a.uniform_crossover(&b, &mut rng);
        for i in 0..3 {
            for j in 0..8 {
                let pa = a.gene[i][j];
                let pb = b.gene[i][j];
                assert!(c1.gene[i][j] == pa || c1.gene[i][j] == pb);
                assert!(c2.gene[i][j] == pa || c2.gene[i][j] == pb);
                // The pair is complementary: where one child took the
                // other parent's bit, its sibling took this parent's.
                assert!(
                    (c1.gene[i][j] == pa && c2.gene[i][j] == pb)
                        || (c1.gene[i][j] == pb && c2.gene[i][j] == pa)
                );
            }
        }
    }
}

#[test]
fn single_point_crossover_splices_channel_tails() {
    // Mixing forced; each channel then draws its splice point from the
    // script: values 0, 3, 6 give points 1, 4, 7.
    let a = parent_a();
    let b = parent_b();
    let mut rng = RandomSource::scripted(vec![0, 0, 3, 6]);
    let (c1, c2) = a.crossover(&b, &mut rng);
    let points = [1usize, 4, 7];
    for i in 0..3 {
        for j in 0..8 {
            if j >= points[i] {
                assert_eq!(c1.gene[i][j], b.gene[i][j]);
                assert_eq!(c2.gene[i][j], a.gene[i][j]);
            } else {
                assert_eq!(c1.gene[i][j], a.gene[i][j]);
                assert_eq!(c2.gene[i][j], b.gene[i][j]);
            }
        }
    }
}

#[test]
fn mutation_core_applies_mask_and_forced_flip() {
    let a = parent_a(); // every bit false
    let mut flips = vec![false; 24];
    flips[5] = true; // bit (0, 5)
    let m = a.mutate_with(&flips, Some((2, 7)));
    assert_eq!(m.pos, a.pos);
    for i in 0..3 {
        for j in 0..8 {
            let expect = (i == 0 && j == 5) || (i == 2 && j == 7);
            assert_eq!(m.gene[i][j], expect, "bit ({}, {})", i, j);
        }
    }
    // The forced flip compounds with the mask: on the same bit it
    // undoes the mask's flip and restores the original value.
    let mut flips2 = vec![false; 24];
    flips2[2 * 8 + 7] = true; // bit (2, 7)
    let m2 = a.mutate_with(&flips2, Some((2, 7)));
    for i in 0..3 {
        for j in 0..8 {
            assert_eq!(m2.gene[i][j], false);
        }
    }
}

#[test]
fn scripted_mutation_is_deterministic() {
    // 24 per-bit draws (only position 3 of channel 0 under the flip
    // chance), then the force draw, then channel and bit index.
    let mut c = parent_a();
    let mut script = vec![50u64; 24];
    script[3] = 0;
    script.push(0); // force-flip taken
    script.push(1); // channel 1
    script.push(2); // bit 2
    let mut rng = RandomSource::scripted(script);
    c.mutate(&mut rng);
    for i in 0..3 {
        for j in 0..8 {
            let expect = (i == 0 && j == 3) || (i == 1 && j == 2);
            assert_eq!(c.gene[i][j], expect, "bit ({}, {})", i, j);
        }
    }
}

#[test]
fn mutation_keeps_shape_and_position() {
    let mut c = parent_a();
    let mut rng = RandomSource::seeded(77);
    for _ in 0..50 {
        c.mutate(&mut rng);
        assert_eq!(c.pos, (0, 0));
        assert_eq!(c.gene.len(), 3);
        for row in &c.gene {
            assert_eq!(row.len(), 8);
        }
    }
}

#[test]
fn scripted_source_replays_and_then_yields_zero() {
    let mut rng = RandomSource::scripted(vec![5, 7]);
    assert_eq!(rng.below(3), 2); // 5 % 3
    assert_eq!(rng.below(3), 1); // 7 % 3
    assert_eq!(rng.below(3), 0); // past the end
    let mut dev = RandomSource::seeded(1);
    for _ in 0..10 {
        assert_eq!(dev.below(1), 0);
        assert!(dev.below(6) < 6);
    }
}
