use databend::pixel::PixelBuffer;
use databend::pixel::PixelFormat;
use databend::random::RandomSource;
use databend::synesthesia::apply_write;
use databend::synesthesia::chaos_of;
use databend::synesthesia::classify_key;
use databend::synesthesia::key_value;
use databend::synesthesia::KeyClass;
use databend::synesthesia::StateError;
use databend::synesthesia::SynesthesiaState;

fn uniform(width: u32, height: u32, value: u8) -> PixelBuffer {
    let len = (width * height * 4) as usize;
    PixelBuffer::from_raw(width, height, PixelFormat::Rgba, vec![value; len]).unwrap()
}

fn session(width: u32, height: u32, value: u8, seed: u64) -> SynesthesiaState {
    SynesthesiaState::new(uniform(width, height, value), RandomSource::from_seed(seed))
}

#[test]
fn the_value_of_a_key_is_its_code_point_cut_to_a_byte() {
    assert_eq!(key_value('a'), 97);
    assert_eq!(key_value('5'), 53);
    assert_eq!(key_value(' '), 32);
    assert_eq!(key_value('\u{0}'), 0);
    assert_eq!(key_value('\u{ff}'), 255);
    assert_eq!(key_value('\u{100}'), 0);
    assert_eq!(key_value('\u{1f3b5}'), 0xb5);
}

#[test]
fn keys_fall_into_four_classes() {
    assert_eq!(classify_key('a'), KeyClass::Lowercase);
    assert_eq!(classify_key('m'), KeyClass::Lowercase);
    assert_eq!(classify_key('z'), KeyClass::Lowercase);
    assert_eq!(classify_key('0'), KeyClass::Digit);
    assert_eq!(classify_key('9'), KeyClass::Digit);
    assert_eq!(classify_key(' '), KeyClass::Space);
    assert_eq!(classify_key('A'), KeyClass::Other);
    assert_eq!(classify_key('Z'), KeyClass::Other);
    assert_eq!(classify_key('!'), KeyClass::Other);
    assert_eq!(classify_key('`'), KeyClass::Other);
    assert_eq!(classify_key('{'), KeyClass::Other);
    assert_eq!(classify_key('/'), KeyClass::Other);
    assert_eq!(classify_key(':'), KeyClass::Other);
    assert_eq!(classify_key('\t'), KeyClass::Other);
    assert_eq!(classify_key('\u{e9}'), KeyClass::Other);
    // A character whose value, cut to a byte, is that of 'a'.
    assert_eq!(classify_key('\u{161}'), KeyClass::Other);
}

#[test]
fn the_chaos_amount_follows_the_value_of_the_key() {
    assert_eq!(chaos_of('a'), 311);
    assert_eq!(chaos_of('5'), 239);
    assert_eq!(chaos_of(' '), 466);
    assert_eq!(chaos_of('z'), 136);
    assert_eq!(chaos_of('\u{0}'), 50);
    assert_eq!(chaos_of('\u{ff}'), 365);
    // 38 * 13 = 494
    assert_eq!(chaos_of('&'), 544);
    // 77 * 13 = 1001
    assert_eq!(chaos_of('M'), 51);
}

#[test]
fn the_chaos_amount_lies_between_50_and_549() {
    for code in 0..=0x2ffu32 {
        let c = char::from_u32(code).unwrap();
        let amount = chaos_of(c);
        assert!(50 <= amount && amount <= 549);
        assert_eq!(amount, ((code % 256) as u64 * 13) % 500 + 50);
    }
}

#[test]
fn a_lowercase_key_adds_its_value_and_wraps_around() {
    let mut image = uniform(1, 1, 200);
    apply_write(&mut image, 'a', 2, 99);
    assert_eq!(image.data(), &vec![200, 200, 41, 200]);
    apply_write(&mut image, 'a', 2, 99);
    assert_eq!(image.data(), &vec![200, 200, 138, 200]);
    let mut image = uniform(1, 1, 0);
    apply_write(&mut image, 'z', 0, 99);
    assert_eq!(image.data(), &vec![122, 0, 0, 0]);
}

#[test]
fn a_digit_sets_seventeen_times_its_value() {
    let mut image = uniform(1, 1, 200);
    apply_write(&mut image, '5', 1, 99);
    assert_eq!(image.data(), &vec![200, 133, 200, 200]);
    apply_write(&mut image, '0', 3, 99);
    // 48 * 17 = 816 = 3 * 256 + 48
    assert_eq!(image.data(), &vec![200, 133, 200, 48]);
    apply_write(&mut image, '9', 0, 99);
    // 57 * 17 = 969 = 3 * 256 + 201
    assert_eq!(image.data(), &vec![201, 133, 200, 48]);
}

#[test]
fn the_space_bar_sets_zero() {
    let mut image = uniform(1, 1, 200);
    apply_write(&mut image, ' ', 3, 99);
    assert_eq!(image.data(), &vec![200, 200, 200, 0]);
}

#[test]
fn any_other_key_sets_the_byte_that_was_drawn() {
    let mut image = uniform(1, 1, 200);
    apply_write(&mut image, 'A', 0, 99);
    apply_write(&mut image, '#', 1, 0);
    apply_write(&mut image, '\u{161}', 2, 7);
    assert_eq!(image.data(), &vec![99, 0, 7, 200]);
}

#[test]
fn a_new_session_has_counted_nothing() {
    let state = session(3, 2, 9, 51);
    assert_eq!(state.modifications_count(), 0);
    assert!(state.is_active());
    assert_eq!(state.img_width(), 3);
    assert_eq!(state.img_height(), 2);
    assert_eq!(state.image().data(), &vec![9u8; 24]);
}

#[test]
fn a_key_counts_its_chaos_amount() {
    let mut state = session(8, 8, 0, 52);
    let text = state.process_key('a').unwrap();
    assert_eq!(state.modifications_count(), 311);
    assert_eq!(text, "🎵 Key 'a' pressed - 311 pixels databent! (Total: 311)");
    let text = state.process_key('5').unwrap();
    assert_eq!(state.modifications_count(), 550);
    assert_eq!(text, "🎵 Key '5' pressed - 239 pixels databent! (Total: 550)");
    let text = state.process_key(' ').unwrap();
    assert_eq!(state.modifications_count(), 1016);
    assert_eq!(text, "🎵 Key ' ' pressed - 466 pixels databent! (Total: 1016)");
}

#[test]
fn a_digit_leaves_its_mark() {
    let mut state = session(8, 8, 0, 53);
    state.process_key('5').unwrap();
    let data = state.image().data();
    assert_eq!(data.len(), 256);
    assert!(data.iter().all(|&b| b == 0 || b == 133));
    let marked = data.iter().filter(|&&b| b == 133).count();
    assert!(1 <= marked && marked <= 239);
}

#[test]
fn a_lowercase_key_adds_its_value_where_it_hits() {
    // Every byte is the value of the key, times the number of hits, wrapped.
    let mut state = session(4, 4, 0, 54);
    state.process_key('b').unwrap();
    let data = state.image().data();
    let mut hits: u64 = 0;
    for &byte in data.iter() {
        // 98 and 256 share the factor two only, so the number of hits below
        // 128 can be found again.
        let n = (0..128u64).find(|n| (n * 98 % 256) as u8 == byte).unwrap();
        hits += n;
    }
    // The bytes tell the number of hits up to multiples of 128 each.
    assert_eq!(hits % 128, chaos_of('b') % 128);
}

#[test]
fn the_space_bar_clears_bytes() {
    let mut state = session(16, 16, 77, 55);
    state.process_key(' ').unwrap();
    let data = state.image().data();
    assert!(data.iter().all(|&b| b == 0 || b == 77));
    let cleared = data.iter().filter(|&&b| b == 0).count();
    assert!(1 <= cleared && cleared <= 466);
}

#[test]
fn another_key_changes_no_more_bytes_than_its_chaos_amount() {
    let mut state = session(32, 32, 77, 56);
    state.process_key('!').unwrap();
    let changed = state.image().data().iter().filter(|&&b| b != 77).count();
    // 33 * 13 % 500 + 50
    assert_eq!(chaos_of('!'), 479);
    assert!(1 <= changed && changed <= 479);
}

#[test]
fn a_key_keeps_the_shape() {
    let mut state = session(5, 3, 1, 57);
    state.process_key('x').unwrap();
    assert_eq!(state.img_width(), 5);
    assert_eq!(state.img_height(), 3);
    assert_eq!(state.image().len(), 60);
    assert_eq!(state.image().format(), PixelFormat::Rgba);
}

#[test]
fn a_key_on_an_image_without_pixels_only_counts() {
    let mut state = session(0, 0, 0, 58);
    let text = state.process_key('a').unwrap();
    assert_eq!(state.modifications_count(), 311);
    assert_eq!(state.image().len(), 0);
    assert_eq!(text, "🎵 Key 'a' pressed - 311 pixels databent! (Total: 311)");
}

#[test]
fn saving_drops_alpha_and_ends_the_session() {
    let image = PixelBuffer::from_raw(2, 1, PixelFormat::Rgba, vec![1, 2, 3, 4, 5, 6, 7, 8]).unwrap();
    let mut state = SynesthesiaState::new(image, RandomSource::from_seed(59));
    let (saved, text) = state.save().unwrap();
    assert_eq!(saved.data(), &vec![1, 2, 3, 5, 6, 7]);
    assert_eq!(saved.width(), 2);
    assert_eq!(saved.height(), 1);
    assert_eq!(saved.format(), PixelFormat::Rgb);
    assert_eq!(text, "🎭 Synesthesia complete! 0 pixels modified total");
    assert!(!state.is_active());
    assert_eq!(state.modifications_count(), 0);
    assert_eq!(state.image().data(), &vec![1, 2, 3, 4, 5, 6, 7, 8]);
}

#[test]
fn saving_tells_the_count() {
    let mut state = session(4, 4, 0, 60);
    state.process_key('a').unwrap();
    state.process_key('a').unwrap();
    let (saved, text) = state.save().unwrap();
    assert_eq!(text, "🎭 Synesthesia complete! 622 pixels modified total");
    assert_eq!(saved.len(), 48);
    assert_eq!(saved.data(), state.image().flatten().data());
}

#[test]
fn a_key_after_saving_is_turned_down_and_changes_nothing() {
    let mut state = session(4, 4, 10, 61);
    state.process_key('q').unwrap();
    let count = state.modifications_count();
    let (saved, _) = state.save().unwrap();
    let kept = saved.data().clone();
    let inside = state.image().data().clone();
    assert_eq!(state.process_key('a').unwrap_err(), StateError::Finalized);
    assert_eq!(state.process_key(' ').unwrap_err(), StateError::Finalized);
    assert_eq!(saved.data(), &kept);
    assert_eq!(state.image().data(), &inside);
    assert_eq!(state.modifications_count(), count);
    assert!(!state.is_active());
}

#[test]
fn saving_twice_is_turned_down() {
    let mut state = session(2, 2, 10, 62);
    assert!(state.save().is_ok());
    assert_eq!(state.save().unwrap_err(), StateError::Finalized);
    assert_eq!(state.save().unwrap_err(), StateError::Finalized);
    assert!(!state.is_active());
}

#[test]
fn the_same_seed_bends_the_same_way() {
    let mut a = session(8, 8, 100, 63);
    let mut b = session(8, 8, 100, 63);
    for c in ['h', 'e', 'l', 'l', 'o', ' ', 'W', '4', '!'] {
        a.process_key(c).unwrap();
        b.process_key(c).unwrap();
    }
    assert_eq!(a.image().data(), b.image().data());
    assert_eq!(a.modifications_count(), b.modifications_count());
}

#[test]
fn a_session_is_taken_up_with_its_count() {
    let mut state = SynesthesiaState::resume(uniform(4, 4, 0), RandomSource::from_seed(64), 1000);
    assert_eq!(state.modifications_count(), 1000);
    assert!(state.is_active());
    let text = state.process_key('a').unwrap();
    assert_eq!(state.modifications_count(), 1311);
    assert_eq!(text, "🎵 Key 'a' pressed - 311 pixels databent! (Total: 1311)");
}

#[test]
fn a_key_that_the_counter_cannot_hold_is_turned_down_and_changes_nothing() {
    let start = u64::MAX - 310;
    let mut state = SynesthesiaState::resume(uniform(4, 4, 9), RandomSource::from_seed(65), start);
    assert_eq!(state.process_key('a').unwrap_err(), StateError::CounterExhausted);
    assert_eq!(state.modifications_count(), start);
    assert_eq!(state.image().data(), &vec![9u8; 64]);
    assert!(state.is_active());
    // 77 * 13 % 500 + 50 = 51 still fits
    let text = state.process_key('M').unwrap();
    assert_eq!(state.modifications_count(), u64::MAX - 259);
    assert_eq!(text, "🎵 Key 'M' pressed - 51 pixels databent! (Total: 18446744073709551356)");
}

#[test]
fn the_counter_can_be_filled_to_the_brim() {
    let start = u64::MAX - 311;
    let mut state = SynesthesiaState::resume(uniform(4, 4, 9), RandomSource::from_seed(66), start);
    assert!(state.process_key('a').is_ok());
    assert_eq!(state.modifications_count(), u64::MAX);
    assert_eq!(state.process_key('\u{0}').unwrap_err(), StateError::CounterExhausted);
    let (_, text) = state.save().unwrap();
    assert_eq!(text, "🎭 Synesthesia complete! 18446744073709551615 pixels modified total");
}
