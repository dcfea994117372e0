use pixel_evolve::chromosome::{encode_channel, Chromosome};
use pixel_evolve::color::Rgb;
use pixel_evolve::target::TargetImage;

/// The float fitness the squared error stands for: exp(-RMSE / 50),
/// doubled when RMSE is strictly below 1.
fn fitness_of_error(e: u32) -> f64 {
    let rmse = (e as f64 / 3.0).sqrt();
    let f = (-rmse / 50.0).exp();
    if rmse < 1.0 {
        f * 2.0
    } else {
        f
    }
}

#[test]
fn fitness_non_increasing_in_error() {
    // Larger squared error means larger RMSE, and the fitness never
    // rises with it; the only discontinuity is the bonus region.
    let mut prev = fitness_of_error(0);
    for e in 1..=195075u32 {
        let f = fitness_of_error(e);
        assert!(f <= prev, "fitness rose from error {} to {}", e - 1, e);
        prev = f;
    }
}

#[test]
fn bonus_applies_strictly_below_rmse_one() {
    // RMSE < 1 exactly when the squared-error sum is below 3.
    for e in 0..3u32 {
        let rmse = (e as f64 / 3.0).sqrt();
        assert!(rmse < 1.0);
        assert_eq!(fitness_of_error(e), 2.0 * (-rmse / 50.0).exp());
    }
    // A sum of exactly 3 is RMSE exactly 1: no bonus.
    let rmse = (3.0f64 / 3.0).sqrt();
    assert_eq!(rmse, 1.0);
    assert_eq!(fitness_of_error(3), (-1.0f64 / 50.0).exp());
}

#[test]
fn error_ordering_is_fitness_ordering() {
    // Two candidates against one target pixel: the one with the
    // smaller squared error has the higher fitness.
    let target = TargetImage::new(1, vec![Rgb { r: 100, g: 100, b: 100 }]).unwrap();
    let close = Chromosome {
        pos: (0, 0),
        gene: vec![encode_channel(101), encode_channel(99), encode_channel(100)],
    };
    let far = Chromosome {
        pos: (0, 0),
        gene: vec![encode_channel(10), encode_channel(200), encode_channel(0)],
    };
    let e_close = close.sq_error(&target);
    let e_far = far.sq_error(&target);
    assert!(e_close < e_far);
    assert!(fitness_of_error(e_close) > fitness_of_error(e_far));
}
