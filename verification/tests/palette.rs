use pixel_evolve::animation::{build_palette, frame_indices, frame_stride, quantize_channel};
use pixel_evolve::color::Rgb;
use pixel_evolve::grid::Frame;

#[test]
fn palette_contract_holds_for_every_triple() {
    let p = build_palette();
    assert_eq!(p.len(), 768);
    for r in 0..6usize {
        for g in 0..6usize {
            for b in 0..6usize {
                let index = 36 * r + 6 * g + b;
                assert!(index <= 215);
                assert_eq!(p[3 * index], (51 * r) as u8);
                assert_eq!(p[3 * index + 1], (51 * g) as u8);
                assert_eq!(p[3 * index + 2], (51 * b) as u8);
            }
        }
    }
    for k in 648..768 {
        assert_eq!(p[k], 0);
    }
}

#[test]
fn quantization_rounds_to_nearest_level() {
    assert_eq!(quantize_channel(0), 0);
    assert_eq!(quantize_channel(25), 0);
    assert_eq!(quantize_channel(26), 1);
    assert_eq!(quantize_channel(51), 1);
    assert_eq!(quantize_channel(128), 3);
    assert_eq!(quantize_channel(204), 4);
    assert_eq!(quantize_channel(230), 5);
    assert_eq!(quantize_channel(255), 5);
    // Matches round(v / 51) clamped to 5, for every byte.
    for v in 0..=255u8 {
        let rounded = ((v as f32 / 51.0).round() as usize).min(5);
        assert_eq!(quantize_channel(v) as usize, rounded);
    }
}

#[test]
fn frame_indices_combine_channel_levels() {
    let frame = Frame {
        size: 2,
        pixels: vec![
            Rgb { r: 0, g: 0, b: 0 },
            Rgb { r: 255, g: 255, b: 255 },
            Rgb { r: 128, g: 64, b: 200 },
            Rgb { r: 51, g: 102, b: 153 },
        ],
    };
    let idx = frame_indices(&frame);
    assert_eq!(idx.len(), 4);
    assert_eq!(idx[0], 0);
    assert_eq!(idx[1], 215);
    // levels: round(128/51)=3, round(64/51)=1, round(200/51)=4
    assert_eq!(idx[2], (36 * 3 + 6 * 1 + 4) as u8);
    // levels: 1, 2, 3
    assert_eq!(idx[3], (36 * 1 + 6 * 2 + 3) as u8);
}

#[test]
fn stride_keeps_all_frames_up_to_the_cap() {
    assert_eq!(frame_stride(0), 1);
    assert_eq!(frame_stride(1), 1);
    assert_eq!(frame_stride(50), 1);
    assert_eq!(frame_stride(51), 1); // 51 / 50 truncates to 1
    assert_eq!(frame_stride(100), 2);
    assert_eq!(frame_stride(149), 2); // truncation, not rounding
    assert_eq!(frame_stride(500), 10);
}
