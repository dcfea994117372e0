use pixel_evolve::chromosome::{decode_channel, encode_channel};
use pixel_evolve::chromosome::Chromosome;
use pixel_evolve::color::Rgb;
use pixel_evolve::target::TargetImage;

#[test]
fn round_trip_all_bytes() {
    for v in 0..=255u8 {
        let bits = encode_channel(v);
        assert_eq!(bits.len(), 8);
        assert_eq!(decode_channel(&bits), v);
    }
}

#[test]
fn msb_first_decoding() {
    // 1000_0000 is 128: the first bit is the most significant.
    let mut bits = vec![false; 8];
    bits[0] = true;
    assert_eq!(decode_channel(&bits), 128);
    let bits = vec![false, false, false, false, false, false, false, true];
    assert_eq!(decode_channel(&bits), 1);
    let bits = vec![true; 8];
    assert_eq!(decode_channel(&bits), 255);
}

#[test]
fn encode_is_msb_first() {
    let bits = encode_channel(0b1010_0001);
    assert_eq!(
        bits,
        vec![true, false, true, false, false, false, false, true]
    );
}

#[test]
fn get_val_decodes_all_channels() {
    let c = Chromosome {
        pos: (0, 0),
        gene: vec![encode_channel(128), encode_channel(64), encode_channel(200)],
    };
    let val = c.get_val();
    assert_eq!((val.r, val.g, val.b), (128, 64, 200));
}

#[test]
fn sq_error_exact_value() {
    let target = TargetImage::new(1, vec![Rgb { r: 10, g: 20, b: 30 }]).unwrap();
    let c = Chromosome {
        pos: (0, 0),
        gene: vec![encode_channel(13), encode_channel(16), encode_channel(30)],
    };
    // (13-10)^2 + (16-20)^2 + (30-30)^2 = 9 + 16 + 0
    assert_eq!(c.sq_error(&target), 25);
}

#[test]
fn target_image_rejects_wrong_pixel_count() {
    assert!(TargetImage::new(2, vec![Rgb { r: 0, g: 0, b: 0 }; 3]).is_none());
    assert!(TargetImage::new(0, Vec::new()).is_none());
    assert!(TargetImage::new(2, vec![Rgb { r: 0, g: 0, b: 0 }; 4]).is_some());
}
