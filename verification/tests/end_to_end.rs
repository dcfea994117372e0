use pixel_evolve::animation::encode_animation;
use pixel_evolve::color::Rgb;
use pixel_evolve::grid::GridEngine;
use pixel_evolve::rng::RandomSource;
use pixel_evolve::target::{create_sample_image, TargetImage};

fn fitness_of_error(e: u32) -> f64 {
    let rmse = (e as f64 / 3.0).sqrt();
    let f = (-rmse / 50.0).exp();
    if rmse < 1.0 {
        f * 2.0
    } else {
        f
    }
}

#[test]
fn uniform_target_converges() {
    let size = 8usize;
    let color = Rgb { r: 128, g: 64, b: 200 };
    let target = TargetImage::new(size, vec![color; size * size]).unwrap();
    let mut rng = RandomSource::seeded(2024);
    let mut engine = GridEngine::new(target, &mut rng);
    assert_eq!(engine.grid.len(), size * size);

    let generations = 50usize;
    let mut avg_fitness = Vec::new();
    let mut perfect = Vec::new();
    for _ in 0..generations {
        engine.step_generation(&mut rng);
        let errors = engine.best_errors();
        let avg: f64 =
            errors.iter().map(|e| fitness_of_error(*e)).sum::<f64>() / errors.len() as f64;
        avg_fitness.push(avg);
        perfect.push(engine.count_perfect());
    }
    assert_eq!(engine.frames.len(), generations);

    // The grid-wide average fitness at the last generation beats the
    // first generation's.
    assert!(
        avg_fitness[generations - 1] > avg_fitness[0],
        "no improvement: {} vs {}",
        avg_fitness[generations - 1],
        avg_fitness[0]
    );

    // The perfect-match fraction never falls at the recorded
    // checkpoints: elites keep each cell's best chromosome alive.
    let checkpoints = [0usize, 25, generations - 1];
    for w in checkpoints.windows(2) {
        assert!(
            perfect[w[1]] >= perfect[w[0]],
            "perfect matches fell from {} to {}",
            perfect[w[0]],
            perfect[w[1]]
        );
    }
}

#[test]
fn frames_have_target_dimensions() {
    let size = 4usize;
    let target = create_sample_image(size);
    let mut rng = RandomSource::seeded(1);
    let mut engine = GridEngine::new(target, &mut rng);
    engine.run(3, &mut rng);
    assert_eq!(engine.frames.len(), 3);
    for f in &engine.frames {
        assert_eq!(f.size, size);
        assert_eq!(f.pixels.len(), size * size);
    }
}

#[test]
fn sample_image_gradient_values() {
    let size = 4usize;
    let t = create_sample_image(size);
    assert_eq!(t.size, size);
    assert_eq!(t.pixels.len(), size * size);
    // Row-major; red from the column, green from the row, blue from
    // their sum: r = x*255/size, g = y*255/size, b = (x+y)*255/(2*size).
    assert_eq!(t.at(0, 0), Rgb { r: 0, g: 0, b: 0 });
    assert_eq!(t.at(0, 3), Rgb { r: 191, g: 0, b: 95 });
    assert_eq!(t.at(3, 0), Rgb { r: 0, g: 191, b: 95 });
    assert_eq!(t.at(2, 1), Rgb { r: 63, g: 127, b: 95 });
}

#[test]
fn animation_bytes_are_a_gif() {
    let size = 4usize;
    let target = create_sample_image(size);
    let mut rng = RandomSource::seeded(3);
    let mut engine = GridEngine::new(target, &mut rng);
    engine.run(5, &mut rng);
    let bytes = encode_animation(&engine.frames, size);
    // The serializer really ran: the buffer opens with the GIF header.
    assert!(bytes.len() > 6);
    assert_eq!(&bytes[0..6], b"GIF89a");
}
