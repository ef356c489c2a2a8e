use databend::noise::corrupt_byte;
use databend::noise::inject_noise;
use databend::noise::noise_chances;
use databend::noise::NOISE_SCALE;
use databend::pixel::PixelBuffer;
use databend::pixel::PixelFormat;
use databend::random::RandomSource;

fn gradient(width: u32, height: u32) -> PixelBuffer {
    let len = (width * height * 4) as usize;
    let data: Vec<u8> = (0..len).map(|i| (i % 251) as u8).collect();
    PixelBuffer::from_raw(width, height, PixelFormat::Rgba, data).unwrap()
}

#[test]
fn chances_follow_the_sensitivity() {
    assert_eq!(NOISE_SCALE, 100_000);
    assert_eq!(noise_chances(0), 0);
    assert_eq!(noise_chances(1), 1);
    assert_eq!(noise_chances(800), 800);
    assert_eq!(noise_chances(6400), 6400);
    assert_eq!(noise_chances(99_999), 99_999);
}

#[test]
fn chances_are_held_between_never_and_always() {
    assert_eq!(noise_chances(-1), 0);
    assert_eq!(noise_chances(i32::MIN), 0);
    assert_eq!(noise_chances(100_000), 100_000);
    assert_eq!(noise_chances(100_001), 100_000);
    assert_eq!(noise_chances(i32::MAX), 100_000);
}

#[test]
fn corrupt_byte_replaces_on_a_hit_only() {
    assert_eq!(corrupt_byte(10, false, 200), 10);
    assert_eq!(corrupt_byte(10, true, 200), 200);
    assert_eq!(corrupt_byte(0, true, 0), 0);
}

#[test]
fn no_sensitivity_keeps_every_byte() {
    let input = gradient(8, 8);
    let mut rng = RandomSource::from_seed(11);
    let out = inject_noise(&input, 0, &mut rng);
    assert_eq!(out.data(), input.data());
    assert_eq!(out.width(), 8);
    assert_eq!(out.height(), 8);
    assert_eq!(out.format(), PixelFormat::Rgba);
}

#[test]
fn negative_sensitivity_keeps_every_byte() {
    let input = gradient(5, 3);
    let mut rng = RandomSource::from_seed(12);
    let out = inject_noise(&input, -500, &mut rng);
    assert_eq!(out.data(), input.data());
}

#[test]
fn noise_keeps_the_shape() {
    let input = gradient(7, 5);
    let mut rng = RandomSource::from_seed(13);
    let out = inject_noise(&input, 6400, &mut rng);
    assert_eq!(out.len(), 7 * 5 * 4);
    assert_eq!(out.width(), 7);
    assert_eq!(out.height(), 5);
    assert_eq!(out.format(), PixelFormat::Rgba);
}

#[test]
fn full_sensitivity_changes_most_bytes() {
    let input = PixelBuffer::from_raw(16, 16, PixelFormat::Rgba, vec![7u8; 1024]).unwrap();
    let mut rng = RandomSource::from_seed(14);
    let out = inject_noise(&input, 100_000, &mut rng);
    let changed = out.data().iter().filter(|&&b| b != 7).count();
    assert!(changed > 900);
}

#[test]
fn some_sensitivity_changes_some_bytes() {
    let input = PixelBuffer::from_raw(64, 64, PixelFormat::Rgba, vec![7u8; 16384]).unwrap();
    let mut rng = RandomSource::from_seed(15);
    // one byte in ten
    let out = inject_noise(&input, 10_000, &mut rng);
    let changed = out.data().iter().filter(|&&b| b != 7).count();
    assert!(changed > 1000 && changed < 2300);
}

#[test]
fn noise_leaves_the_input_alone() {
    let input = gradient(4, 4);
    let before = input.data().clone();
    let mut rng = RandomSource::from_seed(16);
    let _ = inject_noise(&input, 50_000, &mut rng);
    assert_eq!(input.data(), &before);
}

#[test]
fn noise_on_nothing_gives_nothing() {
    let input = PixelBuffer::from_raw(0, 0, PixelFormat::Rgba, Vec::new()).unwrap();
    let mut rng = RandomSource::from_seed(17);
    let out = inject_noise(&input, 800, &mut rng);
    assert_eq!(out.len(), 0);
}
