use databend::exposure::exposure_limit;
use databend::exposure::overexpose;
use databend::exposure::saturating_boost;
use databend::pixel::PixelBuffer;
use databend::pixel::PixelFormat;
use databend::random::RandomSource;

fn gradient(width: u32, height: u32) -> PixelBuffer {
    let len = (width * height * 4) as usize;
    let data: Vec<u8> = (0..len).map(|i| (i * 7 % 256) as u8).collect();
    PixelBuffer::from_raw(width, height, PixelFormat::Rgba, data).unwrap()
}

#[test]
fn the_limit_is_fifty_times_the_factor() {
    assert_eq!(exposure_limit(0), 0);
    assert_eq!(exposure_limit(19), 0);
    assert_eq!(exposure_limit(20), 1);
    assert_eq!(exposure_limit(100), 5);
    assert_eq!(exposure_limit(1000), 50);
    assert_eq!(exposure_limit(1500), 75);
    assert_eq!(exposure_limit(3000), 150);
    assert_eq!(exposure_limit(5099), 254);
    assert_eq!(exposure_limit(5100), 255);
}

#[test]
fn the_limit_stops_at_a_byte() {
    assert_eq!(exposure_limit(5120), 255);
    assert_eq!(exposure_limit(1_000_000), 255);
    assert_eq!(exposure_limit(u32::MAX), 255);
}

#[test]
fn boosts_stop_at_white() {
    assert_eq!(saturating_boost(0, 0), 0);
    assert_eq!(saturating_boost(10, 20), 30);
    assert_eq!(saturating_boost(200, 55), 255);
    assert_eq!(saturating_boost(200, 56), 255);
    assert_eq!(saturating_boost(255, 255), 255);
    assert_eq!(saturating_boost(255, 0), 255);
}

#[test]
fn a_boost_never_darkens_and_keeps_alpha() {
    let input = gradient(9, 7);
    let mut rng = RandomSource::from_seed(21);
    let out = overexpose(&input, 1500, &mut rng);
    assert_eq!(out.len(), input.len());
    for i in 0..input.len() {
        let before = input.byte(i);
        let after = out.byte(i);
        if i % 4 == 3 {
            assert_eq!(after, before);
        } else {
            assert!(after >= before);
            let brightest = (before as u32 + 74).min(255) as u8;
            assert!(after <= brightest);
        }
    }
}

#[test]
fn a_boost_keeps_the_shape() {
    let input = gradient(3, 5);
    let mut rng = RandomSource::from_seed(22);
    let out = overexpose(&input, 3000, &mut rng);
    assert_eq!(out.width(), 3);
    assert_eq!(out.height(), 5);
    assert_eq!(out.format(), PixelFormat::Rgba);
    assert_eq!(out.len(), 60);
}

#[test]
fn a_factor_of_zero_keeps_the_image() {
    let input = gradient(6, 6);
    let mut rng = RandomSource::from_seed(23);
    let out = overexpose(&input, 0, &mut rng);
    assert_eq!(out.data(), input.data());
}

#[test]
fn a_limit_of_one_keeps_the_image() {
    // Boosts are drawn under the limit, so under a limit of one all are zero.
    let input = gradient(6, 6);
    let mut rng = RandomSource::from_seed(24);
    let out = overexpose(&input, 20, &mut rng);
    assert_eq!(out.data(), input.data());
}

#[test]
fn a_strong_boost_brightens() {
    let input = PixelBuffer::from_raw(16, 16, PixelFormat::Rgba, vec![10u8; 1024]).unwrap();
    let mut rng = RandomSource::from_seed(25);
    let out = overexpose(&input, 3000, &mut rng);
    let brighter = (0..1024).filter(|&i| i % 4 != 3 && out.byte(i) > 10).count();
    assert!(brighter > 700);
    assert!((0..1024).all(|i| out.byte(i) <= 10 + 149));
}

#[test]
fn white_stays_white() {
    let input = PixelBuffer::from_raw(4, 4, PixelFormat::Rgba, vec![255u8; 64]).unwrap();
    let mut rng = RandomSource::from_seed(26);
    let out = overexpose(&input, 3000, &mut rng);
    assert_eq!(out.data(), &vec![255u8; 64]);
}

#[test]
fn a_boost_leaves_the_input_alone() {
    let input = gradient(4, 4);
    let before = input.data().clone();
    let mut rng = RandomSource::from_seed(27);
    let _ = overexpose(&input, 3000, &mut rng);
    assert_eq!(input.data(), &before);
}
