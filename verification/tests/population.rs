use pixel_evolve::chromosome::{encode_channel, Chromosome};
use pixel_evolve::color::Rgb;
use pixel_evolve::params::{ELITE_SIZE, POPULATION_SIZE};
use pixel_evolve::population::SimpleGA;
use pixel_evolve::rng::RandomSource;
use pixel_evolve::target::TargetImage;

fn uniform_target(size: usize, color: Rgb) -> TargetImage {
    TargetImage::new(size, vec![color; size * size]).unwrap()
}

#[test]
fn new_population_has_configured_size() {
    let mut rng = RandomSource::seeded(7);
    let ga = SimpleGA::new((0, 0), &mut rng);
    assert_eq!(ga.pool.len(), POPULATION_SIZE);
    for c in &ga.pool {
        assert_eq!(c.pos, (0, 0));
        assert_eq!(c.gene.len(), 3);
        for row in &c.gene {
            assert_eq!(row.len(), 8);
        }
    }
}

#[test]
fn pool_size_constant_across_steps() {
    let target = uniform_target(2, Rgb { r: 50, g: 150, b: 250 });
    let mut rng = RandomSource::seeded(11);
    let mut ga = SimpleGA::new((1, 1), &mut rng);
    for _ in 0..20 {
        ga.step(&target, &mut rng);
        assert_eq!(ga.pool.len(), POPULATION_SIZE);
    }
}

/// The indices of the two fittest pool members, in the order a stable
/// descending-fitness sort would put them: smaller error first, ties by
/// pool order.
fn top_two(ga: &SimpleGA, target: &TargetImage) -> (usize, usize) {
    let errs: Vec<u32> = ga.pool.iter().map(|c| c.sq_error(target)).collect();
    let mut first = 0;
    for (i, e) in errs.iter().enumerate() {
        if *e < errs[first] {
            first = i;
        }
    }
    let mut second = usize::MAX;
    for (i, e) in errs.iter().enumerate() {
        if i == first {
            continue;
        }
        if second == usize::MAX || *e < errs[second] {
            second = i;
        }
    }
    (first, second)
}

#[test]
fn elites_survive_unmutated() {
    assert_eq!(ELITE_SIZE, 2);
    let target = uniform_target(3, Rgb { r: 128, g: 64, b: 200 });
    let mut rng = RandomSource::seeded(42);
    let mut ga = SimpleGA::new((2, 0), &mut rng);
    for _ in 0..10 {
        let (first, second) = top_two(&ga, &target);
        let best_gene = ga.pool[first].gene.clone();
        let second_gene = ga.pool[second].gene.clone();
        ga.step(&target, &mut rng);
        assert_eq!(ga.pool[0].gene, best_gene);
        assert_eq!(ga.pool[1].gene, second_gene);
        assert_eq!(ga.pool[0].pos, (2, 0));
        assert_eq!(ga.pool[1].pos, (2, 0));
    }
}

#[test]
fn tournament_winner_at_least_as_fit_as_baseline() {
    let target = uniform_target(2, Rgb { r: 1, g: 2, b: 3 });
    let mut rng = RandomSource::seeded(5);
    let ga = SimpleGA::new((0, 1), &mut rng);
    let baseline_err = ga.pool[0].sq_error(&target);
    for _ in 0..50 {
        let k = ga.tournament_selection(&target, &mut rng);
        assert!(k < ga.pool.len());
        assert!(ga.pool[k].sq_error(&target) <= baseline_err);
    }
}

#[test]
fn tournament_core_prefers_earlier_on_ties() {
    // Pool values 2, 1, 0, 1, 2, 3 against a zero target: errors are
    // three times the squared value, so members 1 and 3 tie.
    let target = uniform_target(1, Rgb { r: 0, g: 0, b: 0 });
    let vals = [2u8, 1, 0, 1, 2, 3];
    let pool: Vec<Chromosome> = vals
        .iter()
        .map(|v| Chromosome {
            pos: (0, 0),
            gene: vec![encode_channel(*v), encode_channel(*v), encode_channel(*v)],
        })
        .collect();
    let ga = SimpleGA { pos: (0, 0), pool };
    // The baseline at index 0 loses only to a strictly fitter draw.
    assert_eq!(ga.tournament_winner(&target, &vec![1, 3]), 1);
    assert_eq!(ga.tournament_winner(&target, &vec![3, 1]), 3);
    assert_eq!(ga.tournament_winner(&target, &vec![4, 5]), 0);
    assert_eq!(ga.tournament_winner(&target, &vec![]), 0);
    assert_eq!(ga.tournament_winner(&target, &vec![5, 2]), 2);
}

#[test]
fn get_best_returns_first_minimum() {
    let target = uniform_target(2, Rgb { r: 10, g: 10, b: 10 });
    let mut rng = RandomSource::seeded(9);
    let ga = SimpleGA::new((0, 0), &mut rng);
    let errs: Vec<u32> = ga.pool.iter().map(|c| c.sq_error(&target)).collect();
    let k = ga.get_best(&target);
    for (j, e) in errs.iter().enumerate() {
        assert!(errs[k] <= *e);
        if j < k {
            assert!(*e > errs[k]);
        }
    }
}

#[test]
fn pool_errors_match_members() {
    let target = uniform_target(2, Rgb { r: 77, g: 88, b: 99 });
    let mut rng = RandomSource::seeded(3);
    let ga = SimpleGA::new((1, 0), &mut rng);
    let errs = ga.pool_errors(&target);
    assert_eq!(errs.len(), POPULATION_SIZE);
    for (i, c) in ga.pool.iter().enumerate() {
        assert_eq!(errs[i], c.sq_error(&target));
    }
}
