use databend::text::append_char;
use databend::text::append_decimal;
use databend::text::append_str;
use databend::text::text_of;

fn decimal(n: u64) -> String {
    let mut text = String::new();
    append_decimal(&mut text, n);
    text
}

#[test]
fn numbers_are_written_in_decimal() {
    assert_eq!(decimal(0), "0");
    assert_eq!(decimal(7), "7");
    assert_eq!(decimal(9), "9");
    assert_eq!(decimal(10), "10");
    assert_eq!(decimal(311), "311");
    assert_eq!(decimal(1000), "1000");
    assert_eq!(decimal(1234567890), "1234567890");
    assert_eq!(decimal(u64::MAX), "18446744073709551615");
}

#[test]
fn numbers_agree_with_the_standard_library() {
    let mut n: u64 = 1;
    for _ in 0..200 {
        assert_eq!(decimal(n), n.to_string());
        assert_eq!(decimal(n.wrapping_sub(1)), n.wrapping_sub(1).to_string());
        n = n.wrapping_mul(3).wrapping_add(7);
    }
}

#[test]
fn pieces_are_appended_at_the_end() {
    let mut text = String::from("a");
    append_char(&mut text, 'b');
    append_str(&mut text, "cd");
    append_decimal(&mut text, 42);
    append_char(&mut text, '🎵');
    append_str(&mut text, "");
    assert_eq!(text, "abcd42🎵");
}

#[test]
fn characters_make_a_text() {
    assert_eq!(text_of(&vec!['1', '.', '5']), "1.5");
    assert_eq!(text_of(&Vec::new()), "");
    assert_eq!(text_of(&vec!['é', '/', '🎹']), "é/🎹");
}
