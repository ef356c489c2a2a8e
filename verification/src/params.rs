//! The parameters of the effects as the user types them: a number, read
//! leniently. Every number that the parameter can hold is taken as it is;
//! text that is no such number gives the default of the parameter.
//!
//! A sensitivity is a whole number with a sign or without. A patch size and
//! a number of layers are whole numbers without a minus sign. An exposure
//! factor is a decimal number, with a point and an exponent or without, or
//! one of the words `inf`, `infinity` and `nan`; it is read exactly, in
//! thousandths, and not in floating point.

use vstd::prelude::*;
use vstd::string::StrSliceExecFns;

verus! {

/// Sensitivity of the noise injection where none is given. It is typically
/// chosen from 0 to 6400.
pub const ISO_DEFAULT: i32 = 800;

/// Exposure factor where none is given, in thousandths. It is typically
/// chosen from 0.1 to 3.0.
pub const EXPOSURE_DEFAULT_MILLI: u32 = 1500;

/// Side of a patch in pixels where none is given. It is typically chosen
/// from 10 to 200.
pub const PATCH_SIZE_DEFAULT: u32 = 5;

/// Number of layers where none is given. It is typically chosen from 1 to 20.
pub const LAYERS_DEFAULT: u32 = 5;

/// Parameters are read exactly up to this value, the largest that one can
/// take.
pub const READ_CAP: u128 = 4_294_967_295;

/// Exponents are read exactly up to this value, two to the seventieth: more
/// than any text has digits.
pub const EXPONENT_CAP: u128 = 1_180_591_620_717_411_303_424;

/// Whether the character is a decimal digit.
pub open spec fn is_digit(c: char) -> bool {
    '0' <= c <= '9'
}

/// The value of a decimal digit.
pub open spec fn digit_value(c: char) -> int {
    c as u32 - '0' as u32
}

/// Whether the text holds decimal digits only.
pub open spec fn all_digits(s: Seq<char>) -> bool {
    forall|i: int| 0 <= i < s.len() ==> is_digit(#[trigger] s[i])
}

/// The number that a run of decimal digits stands for; zero for none.
pub open spec fn digits_value(s: Seq<char>) -> int
    decreases s.len(),
{
    if s.len() == 0 {
        0
    } else {
        digits_value(s.drop_last()) * 10 + digit_value(s.last())
    }
}

/// Whether a text starts with a sign.
pub open spec fn has_sign(s: Seq<char>) -> bool {
    s.len() > 0 && (s[0] == '+' || s[0] == '-')
}

/// Whether a text starts with a minus sign.
pub open spec fn has_minus(s: Seq<char>) -> bool {
    s.len() > 0 && s[0] == '-'
}

/// A text without its sign, if it has one.
pub open spec fn unsigned_body(s: Seq<char>) -> Seq<char> {
    if has_sign(s) {
        s.drop_first()
    } else {
        s
    }
}

/// The whole number that a text stands for: a sign or none, then one digit
/// or more.
pub open spec fn whole_value(s: Seq<char>) -> Option<int> {
    let digits = unsigned_body(s);
    if digits.len() > 0 && all_digits(digits) {
        Some(
            if has_minus(s) {
                -digits_value(digits)
            } else {
                digits_value(digits)
            },
        )
    } else {
        None
    }
}

/// The whole number that a text stands for where it has no minus sign.
pub open spec fn natural_value(s: Seq<char>) -> Option<int> {
    if has_minus(s) {
        None
    } else {
        whole_value(s)
    }
}

/// The number where there is one from `low` to `high`, else `fallback`.
pub open spec fn in_range_or(value: Option<int>, low: int, high: int, fallback: int) -> int {
    match value {
        Some(v) => if low <= v <= high {
            v
        } else {
            fallback
        },
        None => fallback,
    }
}

/// The sensitivity given as `s`: any whole number that thirty-two bits hold
/// with their sign.
pub open spec fn iso_or_default(s: Seq<char>) -> int {
    in_range_or(whole_value(s), i32::MIN as int, i32::MAX as int, ISO_DEFAULT as int)
}

/// The side of a patch given as `s`: any whole number from one on that
/// thirty-two bits hold. No patch has the side zero.
pub open spec fn patch_size_or_default(s: Seq<char>) -> int {
    in_range_or(natural_value(s), 1, u32::MAX as int, PATCH_SIZE_DEFAULT as int)
}

/// The number of layers given as `s`: any whole number from zero on that
/// thirty-two bits hold.
pub open spec fn layers_or_default(s: Seq<char>) -> int {
    in_range_or(natural_value(s), 0, u32::MAX as int, LAYERS_DEFAULT as int)
}

/// Where the first point of a text stands; the length of the text where it
/// has none.
pub open spec fn point_position(s: Seq<char>) -> int
    decreases s.len(),
{
    if s.len() == 0 || s[0] == '.' {
        0
    } else {
        1 + point_position(s.drop_first())
    }
}

/// The digits before the point of a text.
pub open spec fn whole_part(s: Seq<char>) -> Seq<char> {
    s.take(point_position(s))
}

/// The digits behind the point of a text.
pub open spec fn fraction_part(s: Seq<char>) -> Seq<char> {
    if point_position(s) < s.len() {
        s.skip(point_position(s) + 1)
    } else {
        Seq::empty()
    }
}

/// Whether the character marks the exponent of a number.
pub open spec fn is_exponent_mark(c: char) -> bool {
    c == 'e' || c == 'E'
}

/// Where the exponent mark of a text stands; the length of the text where
/// it has none.
pub open spec fn mark_position(s: Seq<char>) -> int
    decreases s.len(),
{
    if s.len() == 0 || is_exponent_mark(s[0]) {
        0
    } else {
        1 + mark_position(s.drop_first())
    }
}

/// What stands before the exponent mark of a number without its sign.
pub open spec fn mantissa(body: Seq<char>) -> Seq<char> {
    body.take(mark_position(body))
}

/// The digits of a number without its sign, its point and its exponent.
pub open spec fn mantissa_digits(body: Seq<char>) -> Seq<char> {
    whole_part(mantissa(body)) + fraction_part(mantissa(body))
}

/// The exponent of a number without its sign: the whole number behind the
/// mark, and zero where there is no mark.
pub open spec fn exponent(body: Seq<char>) -> Option<int> {
    if mark_position(body) < body.len() {
        whole_value(body.skip(mark_position(body) + 1))
    } else {
        Some(0)
    }
}

/// Whether a text without its sign is a decimal number: digits with at
/// most one point among them, and one digit at least; then an exponent or
/// none, which is the letter e and a whole number.
pub open spec fn is_decimal(body: Seq<char>) -> bool {
    &&& mantissa_digits(body).len() > 0
    &&& all_digits(mantissa_digits(body))
    &&& exponent(body) is Some
}

/// As many zeros as `count` says.
pub open spec fn zeros(count: int) -> Seq<char> {
    Seq::new(
        if count > 0 {
            count as nat
        } else {
            0
        },
        |i: int| '0',
    )
}

/// A run of digits with its point, which stands behind the last digit, moved
/// by `shift` places to the right, and what then stands behind the point left
/// out. To the left the point moves where `shift` is negative.
pub open spec fn moved(digits: Seq<char>, shift: int) -> Seq<char> {
    if shift >= 0 {
        digits + zeros(shift)
    } else if digits.len() + shift > 0 {
        digits.take(digits.len() + shift)
    } else {
        Seq::empty()
    }
}

/// How far the point behind the digits of a decimal number is to be moved to
/// read the number in thousandths.
pub open spec fn milli_shift(body: Seq<char>) -> int {
    exponent(body)->Some_0 + 3 - fraction_part(mantissa(body)).len()
}

/// The thousandths of the number that a decimal text without a sign stands
/// for, rounded down.
pub open spec fn milli_value(body: Seq<char>) -> int {
    digits_value(moved(mantissa_digits(body), milli_shift(body)))
}

/// Whether a text spells a word, in small or in capital letters or in both.
pub open spec fn spells(s: Seq<char>, small: Seq<char>, capital: Seq<char>) -> bool {
    &&& s.len() == small.len()
    &&& s.len() == capital.len()
    &&& forall|i: int| 0 <= i < s.len() ==> #[trigger] s[i] == small[i] || s[i] == capital[i]
}

/// Whether a text without its sign stands for a factor without bound.
pub open spec fn is_infinite(body: Seq<char>) -> bool {
    spells(body, "inf"@, "INF"@) || spells(body, "infinity"@, "INFINITY"@)
}

/// Whether a text without its sign says that it stands for no number.
pub open spec fn is_not_a_number(body: Seq<char>) -> bool {
    spells(body, "nan"@, "NAN"@)
}

/// A number held to what thirty-two bits hold.
pub open spec fn held(n: int) -> int {
    if n > u32::MAX {
        u32::MAX as int
    } else {
        n
    }
}

/// The exposure factor given as `s`, in thousandths. A factor below zero
/// counts as zero, and so does what is expressly no number; a factor beyond
/// what thirty-two bits hold, or without bound, counts as the largest that
/// they hold. None of this changes what the factor does to an image.
pub open spec fn exposure_or_default(s: Seq<char>) -> int {
    let body = unsigned_body(s);
    if is_not_a_number(body) {
        0
    } else if is_infinite(body) {
        if has_minus(s) {
            0
        } else {
            u32::MAX as int
        }
    } else if !is_decimal(body) {
        EXPOSURE_DEFAULT_MILLI as int
    } else if has_minus(s) {
        0
    } else {
        held(milli_value(body))
    }
}

/// A number as far as it is read: exactly up to the cap, and as one more
/// than the cap beyond.
pub open spec fn clipped(n: int, cap: int) -> int {
    if n > cap {
        cap + 1
    } else {
        n
    }
}

/// A run of digits stands for no negative number.
proof fn lemma_digits_value_bounds(s: Seq<char>)
    requires
        all_digits(s),
    ensures
        digits_value(s) >= 0,
    decreases s.len(),
{
    if s.len() > 0 {
        assert(all_digits(s.drop_last())) by {
            assert forall|i: int| 0 <= i < s.drop_last().len() implies is_digit(
                #[trigger] s.drop_last()[i],
            ) by {
                assert(s.drop_last()[i] == s[i]);
            }
        }
        lemma_digits_value_bounds(s.drop_last());
        assert(is_digit(s.last()));
    }
}

/// Whether the character is a decimal digit.
fn is_digit_char(c: char) -> (yes: bool)
    ensures
        yes == is_digit(c),
{
    '0' <= c && c <= '9'
}

/// The value of a decimal digit.
fn value_of_digit(c: char) -> (value: u128)
    requires
        is_digit(c),
    ensures
        value == digit_value(c),
        value <= 9,
{
    (c as u32 - '0' as u32) as u128
}

/// Reads the characters from `start` to `end` as one run of digits, exactly
/// up to `cap`.
fn read_digits(text: &str, start: usize, end: usize, cap: u128) -> (value: Option<u128>)
    requires
        start <= end <= text@.len(),
        cap <= EXPONENT_CAP,
    ensures
        value is Some <==> all_digits(text@.subrange(start as int, end as int)),
        value matches Some(v) ==> v == clipped(
            digits_value(text@.subrange(start as int, end as int)),
            cap as int,
        ),
{
    let ghost run: Seq<char> = text@.subrange(start as int, end as int);
    let mut value: u128 = 0;
    let mut i: usize = start;
    assert(run.take(0) =~= Seq::<char>::empty());
    while i < end
        invariant
            start <= i <= end <= text@.len(),
            cap <= EXPONENT_CAP,
            run == text@.subrange(start as int, end as int),
            all_digits(run.take(i - start)),
            value == clipped(digits_value(run.take(i - start)), cap as int),
            value <= cap + 1,
        decreases end - i,
    {
        let c: char = text.get_char(i);
        assert(c == run[i - start]);
        if !is_digit_char(c) {
            return None;
        }
        let digit: u128 = value_of_digit(c);
        proof {
            let shorter = run.take(i - start);
            let longer = run.take(i - start + 1);
            assert(longer.drop_last() =~= shorter);
            assert(longer.last() == c);
            lemma_digits_value_bounds(shorter);
            assert forall|j: int| 0 <= j < longer.len() implies is_digit(#[trigger] longer[j]) by {
                if j < shorter.len() {
                    assert(longer[j] == shorter[j]);
                }
            }
        }
        value = value * 10 + digit;
        if value > cap {
            value = cap + 1;
        }
        i = i + 1;
    }
    assert(run.take(end - start) =~= run);
    Some(value)
}

/// Reads the characters from `start` to `end` as a whole number: whether it
/// has a minus sign, and the number that follows the sign, exactly up to
/// `cap`.
fn read_signed(text: &str, start: usize, end: usize, cap: u128) -> (read: Option<(bool, u128)>)
    requires
        start <= end <= text@.len(),
        cap <= EXPONENT_CAP,
    ensures
        read is Some <==> whole_value(text@.subrange(start as int, end as int)) is Some,
        read matches Some((negative, size)) ==> {
            let number = text@.subrange(start as int, end as int);
            &&& negative == has_minus(number)
            &&& size == clipped(digits_value(unsigned_body(number)), cap as int)
            &&& digits_value(unsigned_body(number)) >= 0
        },
{
    let ghost number: Seq<char> = text@.subrange(start as int, end as int);
    if start == end {
        return None;
    }
    let first: char = text.get_char(start);
    assert(first == number[0]);
    let signed: bool = first == '+' || first == '-';
    let from: usize = if signed {
        start + 1
    } else {
        start
    };
    assert(text@.subrange(from as int, end as int) =~= unsigned_body(number));
    if from == end {
        return None;
    }
    match read_digits(text, from, end, cap) {
        None => None,
        Some(size) => {
            proof {
                lemma_digits_value_bounds(unsigned_body(number));
            }
            Some((first == '-', size))
        },
    }
}

/// The value of a parameter as the user typed it: the whole number without a
/// minus sign that the text stands for where it lies from `low` to `high`,
/// else `fallback`.
pub fn natural_parameter(text: &str, low: u32, high: u32, fallback: u32) -> (value: u32)
    ensures
        value == in_range_or(natural_value(text@), low as int, high as int, fallback as int),
{
    let len: usize = text.unicode_len();
    assert(text@.subrange(0, len as int) =~= text@);
    match read_signed(text, 0, len, READ_CAP) {
        None => fallback,
        Some((negative, size)) => {
            if !negative && low as u128 <= size && size <= high as u128 {
                size as u32
            } else {
                fallback
            }
        },
    }
}

/// The value of a parameter as the user typed it: the whole number that the
/// text stands for where thirty-two bits hold it with its sign, else
/// `fallback`.
pub fn integer_parameter(text: &str, fallback: i32) -> (value: i32)
    ensures
        value == in_range_or(
            whole_value(text@),
            i32::MIN as int,
            i32::MAX as int,
            fallback as int,
        ),
{
    let len: usize = text.unicode_len();
    assert(text@.subrange(0, len as int) =~= text@);
    match read_signed(text, 0, len, READ_CAP) {
        None => fallback,
        Some((negative, size)) => {
            if negative && size <= 2_147_483_648 {
                (0 - size as i64) as i32
            } else if !negative && size <= 2_147_483_647 {
                size as i32
            } else {
                fallback
            }
        },
    }
}

/// The first point lies where no point stands before and one stands there,
/// or the text ends.
proof fn lemma_point_position(s: Seq<char>, at: int)
    requires
        0 <= at <= s.len(),
        forall|j: int| 0 <= j < at ==> #[trigger] s[j] != '.',
        at == s.len() || s[at] == '.',
    ensures
        point_position(s) == at,
    decreases s.len(),
{
    if s.len() == 0 || s[0] == '.' {
        if at > 0 {
            assert(s[0] != '.');
        }
    } else {
        let rest = s.drop_first();
        assert forall|j: int| 0 <= j < at - 1 implies #[trigger] rest[j] != '.' by {
            assert(rest[j] == s[j + 1]);
        }
        lemma_point_position(rest, at - 1);
    }
}

/// The exponent mark lies where no mark stands before and one stands there,
/// or the text ends.
proof fn lemma_mark_position(s: Seq<char>, at: int)
    requires
        0 <= at <= s.len(),
        forall|j: int| 0 <= j < at ==> !is_exponent_mark(#[trigger] s[j]),
        at == s.len() || is_exponent_mark(s[at]),
    ensures
        mark_position(s) == at,
    decreases s.len(),
{
    if s.len() == 0 || is_exponent_mark(s[0]) {
        if at > 0 {
            assert(!is_exponent_mark(s[0]));
        }
    } else {
        let rest = s.drop_first();
        assert forall|j: int| 0 <= j < at - 1 implies !is_exponent_mark(#[trigger] rest[j]) by {
            assert(rest[j] == s[j + 1]);
        }
        lemma_mark_position(rest, at - 1);
    }
}

/// One zero more behind a run of digits makes the number ten times as large.
proof fn lemma_one_more_zero(digits: Seq<char>, count: int)
    requires
        count >= 0,
    ensures
        digits_value(digits + zeros(count + 1)) == 10 * digits_value(digits + zeros(count)),
{
    let longer = digits + zeros(count + 1);
    assert(longer.drop_last() =~= digits + zeros(count));
    assert(longer.last() == '0');
}

/// Moving the point by one place less to the right, or one more to the left,
/// leaves a tenth of the number, rounded down; and the point that is not
/// moved leaves the number that the digits stand for.
pub proof fn lemma_moving_the_point(digits: Seq<char>, shift: int)
    requires
        all_digits(digits),
    ensures
        digits_value(moved(digits, 0)) == digits_value(digits),
        digits_value(moved(digits, shift)) == digits_value(moved(digits, shift + 1)) / 10,
{
    assert(digits + zeros(0) =~= digits);
    if shift >= 0 {
        lemma_one_more_zero(digits, shift);
    } else {
        let longer = moved(digits, shift + 1);
        let shorter = moved(digits, shift);
        if longer.len() > 0 {
            assert(longer.drop_last() =~= shorter);
            assert(is_digit(longer.last())) by {
                assert(longer.last() == digits[longer.len() - 1]);
            }
        } else {
            assert(shorter =~= longer);
        }
    }
}

/// Zeros behind a run of digits leave nothing as nothing, and what is
/// something as something.
proof fn lemma_zeros_keep_sign(digits: Seq<char>, count: int)
    requires
        count >= 0,
        digits_value(digits) >= 0,
    ensures
        digits_value(digits) == 0 ==> digits_value(digits + zeros(count)) == 0,
        digits_value(digits) >= 1 ==> digits_value(digits + zeros(count)) >= 1,
    decreases count,
{
    if count == 0 {
        assert(digits + zeros(0) =~= digits);
    } else {
        lemma_zeros_keep_sign(digits, count - 1);
        lemma_one_more_zero(digits, count - 1);
    }
}

/// Ten zeros or more behind a run of digits that stands for something make
/// a number beyond what thirty-two bits hold.
proof fn lemma_ten_zeros(digits: Seq<char>, count: int)
    requires
        count >= 10,
        digits_value(digits) >= 1,
    ensures
        digits_value(digits + zeros(count)) >= 10_000_000_000,
{
    lemma_zeros_keep_sign(digits, count - 10);
    lemma_one_more_zero(digits, count - 10);
    lemma_one_more_zero(digits, count - 9);
    lemma_one_more_zero(digits, count - 8);
    lemma_one_more_zero(digits, count - 7);
    lemma_one_more_zero(digits, count - 6);
    lemma_one_more_zero(digits, count - 5);
    lemma_one_more_zero(digits, count - 4);
    lemma_one_more_zero(digits, count - 3);
    lemma_one_more_zero(digits, count - 2);
    lemma_one_more_zero(digits, count - 1);
}

/// Where the point moves ten places or more to the right, it does not
/// matter how far: the number is nothing or beyond what thirty-two bits hold.
proof fn lemma_far_to_the_right(digits: Seq<char>, first: int, second: int)
    requires
        first >= 10,
        second >= 10,
        digits_value(digits) >= 0,
    ensures
        held(digits_value(moved(digits, first))) == held(digits_value(moved(digits, second))),
{
    if digits_value(digits) == 0 {
        lemma_zeros_keep_sign(digits, first);
        lemma_zeros_keep_sign(digits, second);
    } else {
        lemma_ten_zeros(digits, first);
        lemma_ten_zeros(digits, second);
    }
}

/// Whether the characters from `start` to `end` spell the word, in small or
/// in capital letters or in both.
fn spells_word(text: &str, start: usize, end: usize, small: &str, capital: &str) -> (yes: bool)
    requires
        start <= end <= text@.len(),
    ensures
        yes == spells(text@.subrange(start as int, end as int), small@, capital@),
{
    let ghost word: Seq<char> = text@.subrange(start as int, end as int);
    let count: usize = end - start;
    if small.unicode_len() != count || capital.unicode_len() != count {
        return false;
    }
    let mut i: usize = 0;
    while i < count
        invariant
            i <= count,
            count == end - start,
            start <= end <= text@.len(),
            word == text@.subrange(start as int, end as int),
            small@.len() == count,
            capital@.len() == count,
            forall|j: int| 0 <= j < i ==> #[trigger] word[j] == small@[j] || word[j] == capital@[j],
        decreases count - i,
    {
        let c: char = text.get_char(start + i);
        assert(c == word[i as int]);
        if c != small.get_char(i) && c != capital.get_char(i) {
            return false;
        }
        i = i + 1;
    }
    true
}

/// How many of `seen` digits are read where `keep` are to be kept.
spec fn kept(seen: int, keep: int) -> int {
    if keep <= 0 {
        0
    } else if seen < keep {
        seen
    } else {
        keep
    }
}

/// An exponent as far as it is read: exactly up to the cap, and as one more
/// than the cap beyond, with its sign.
spec fn bounded(power: int) -> int {
    if power > EXPONENT_CAP {
        EXPONENT_CAP + 1
    } else if power < -EXPONENT_CAP {
        -EXPONENT_CAP - 1
    } else {
        power
    }
}

/// The digits of a mantissa that stands from `start` to `mark` and has its
/// point at `point`, or none where `point` is `mark`.
spec fn digits_between(s: Seq<char>, start: int, point: int, mark: int) -> Seq<char> {
    s.subrange(start, point) + if point < mark {
        s.subrange(point + 1, mark)
    } else {
        Seq::empty()
    }
}

/// Where the first exponent mark from `start` on stands; `end` where there is
/// none before.
fn find_mark(text: &str, start: usize, end: usize) -> (mark: usize)
    requires
        start <= end <= text@.len(),
    ensures
        start <= mark <= end,
        mark - start == mark_position(text@.subrange(start as int, end as int)),
{
    let ghost run: Seq<char> = text@.subrange(start as int, end as int);
    let mut mark: usize = start;
    while mark < end && !is_mark_char(text.get_char(mark))
        invariant
            start <= mark <= end <= text@.len(),
            run == text@.subrange(start as int, end as int),
            forall|j: int| 0 <= j < mark - start ==> !is_exponent_mark(#[trigger] run[j]),
        decreases end - mark,
    {
        mark = mark + 1;
    }
    proof {
        lemma_mark_position(run, mark - start);
    }
    mark
}

/// Where the first point from `start` on stands; `end` where there is none
/// before.
fn find_point(text: &str, start: usize, end: usize) -> (point: usize)
    requires
        start <= end <= text@.len(),
    ensures
        start <= point <= end,
        point - start == point_position(text@.subrange(start as int, end as int)),
{
    let ghost run: Seq<char> = text@.subrange(start as int, end as int);
    let mut point: usize = start;
    while point < end && text.get_char(point) != '.'
        invariant
            start <= point <= end <= text@.len(),
            run == text@.subrange(start as int, end as int),
            forall|j: int| 0 <= j < point - start ==> #[trigger] run[j] != '.',
        decreases end - point,
    {
        point = point + 1;
    }
    proof {
        lemma_point_position(run, point - start);
    }
    point
}

/// Reads the exponent that stands from `start` to `end`, as far as it
/// matters.
fn read_power(text: &str, start: usize, end: usize) -> (power: Option<i128>)
    requires
        start <= end <= text@.len(),
    ensures
        power is Some <==> whole_value(text@.subrange(start as int, end as int)) is Some,
        power matches Some(p) ==> p == bounded(
            whole_value(text@.subrange(start as int, end as int))->Some_0,
        ),
{
    match read_signed(text, start, end, EXPONENT_CAP) {
        None => None,
        Some((down, size)) => {
            if down {
                Some(0 - size as i128)
            } else {
                Some(size as i128)
            }
        },
    }
}

/// Reads the digits of a mantissa that stands from `start` to `mark` and has
/// its point at `point`; of the digits the first `keep` count.
fn read_kept(text: &str, start: usize, point: usize, mark: usize, keep: i128) -> (value: Option<
    u128,
>)
    requires
        start <= point <= mark <= text@.len(),
    ensures
        value is Some <==> all_digits(
            digits_between(text@, start as int, point as int, mark as int),
        ),
        value matches Some(v) ==> {
            let digits = digits_between(text@, start as int, point as int, mark as int);
            &&& v == clipped(
                digits_value(digits.take(kept(digits.len() as int, keep as int))),
                READ_CAP as int,
            )
            &&& v <= READ_CAP + 1
        },
{
    let ghost digits: Seq<char> = digits_between(text@, start as int, point as int, mark as int);
    let whole_len: usize = point - start;
    let ghost count: int = digits.len() as int;
    let mut value: u128 = 0;
    let mut seen: usize = 0;
    let mut i: usize = start;
    assert(digits.take(0) =~= Seq::<char>::empty());
    while i < mark
        invariant
            start <= i <= mark <= text@.len(),
            start <= point <= mark,
            whole_len == point - start,
            digits == digits_between(text@, start as int, point as int, mark as int),
            count == digits.len(),
            count == whole_len + (if point < mark {
                mark - point - 1
            } else {
                0
            }),
            seen == if i > point {
                i - start - 1
            } else {
                i - start
            },
            seen <= count,
            all_digits(digits.take(seen as int)),
            value == clipped(
                digits_value(digits.take(kept(seen as int, keep as int))),
                READ_CAP as int,
            ),
            value <= READ_CAP + 1,
        decreases mark - i,
    {
        if i != point {
            let c: char = text.get_char(i);
            assert(c == digits[seen as int]);
            if !is_digit_char(c) {
                assert(!is_digit(digits[seen as int]));
                return None;
            }
            let digit: u128 = value_of_digit(c);
            proof {
                let shorter = digits.take(seen as int);
                let longer = digits.take(seen + 1);
                assert(longer.drop_last() =~= shorter);
                assert(longer.last() == c);
                lemma_digits_value_bounds(shorter);
                assert forall|j: int| 0 <= j < longer.len() implies is_digit(
                    #[trigger] longer[j],
                ) by {
                    if j < shorter.len() {
                        assert(longer[j] == shorter[j]);
                    }
                }
            }
            if (seen as i128) < keep {
                value = value * 10 + digit;
                if value > READ_CAP {
                    value = READ_CAP + 1;
                }
            }
            seen = seen + 1;
        }
        i = i + 1;
    }
    assert(digits.take(count) =~= digits);
    Some(value)
}

/// Puts zeros behind the digits that were read, as many as are `missing` up
/// to the point; more than ten make no difference.
fn fill_zeros(read: u128, missing: i128, digits: Ghost<Seq<char>>) -> (value: u128)
    requires
        missing > 0,
        digits_value(digits@) >= 0,
        read == clipped(digits_value(digits@), READ_CAP as int),
    ensures
        held(value as int) == held(digits_value(moved(digits@, missing as int))),
        value <= READ_CAP + 1,
{
    let rounds: u32 = if missing >= 10 {
        10
    } else {
        missing as u32
    };
    let mut value: u128 = read;
    let mut filled: u32 = 0;
    assert(digits@ + zeros(0) =~= digits@);
    while filled < rounds
        invariant
            filled <= rounds <= 10,
            value == clipped(digits_value(digits@ + zeros(filled as int)), READ_CAP as int),
            value <= READ_CAP + 1,
            digits_value(digits@) >= 0,
        decreases rounds - filled,
    {
        proof {
            lemma_one_more_zero(digits@, filled as int);
            lemma_zeros_keep_sign(digits@, filled as int);
        }
        value = value * 10;
        if value > READ_CAP {
            value = READ_CAP + 1;
        }
        filled = filled + 1;
    }
    proof {
        if missing > 10 {
            lemma_far_to_the_right(digits@, 10, missing as int);
        }
    }
    value
}

/// An exponent beyond the cap moves the point as far as the cap does: out of
/// sight.
proof fn lemma_bounded_exponent(digits: Seq<char>, places: int, power: int)
    requires
        all_digits(digits),
        0 <= places <= digits.len() < 0x1_0000_0000_0000_0000,
    ensures
        held(digits_value(moved(digits, bounded(power) + 3 - places))) == held(
            digits_value(moved(digits, power + 3 - places)),
        ),
{
    lemma_digits_value_bounds(digits);
    if power > EXPONENT_CAP {
        lemma_far_to_the_right(digits, bounded(power) + 3 - places, power + 3 - places);
    } else if power < -EXPONENT_CAP {
        assert(moved(digits, bounded(power) + 3 - places) =~= moved(digits, power + 3 - places));
    }
}

/// Finds the parts of a number that stands from `start` to `end`: where its
/// exponent mark stands, and where its point.
fn find_parts(text: &str, start: usize, end: usize) -> (parts: (usize, usize))
    requires
        start <= end <= text@.len(),
    ensures
        ({
            let (mark, point) = parts;
            let body = text@.subrange(start as int, end as int);
            &&& start <= point <= mark <= end
            &&& mark - start == mark_position(body)
            &&& mantissa_digits(body) == digits_between(
                text@,
                start as int,
                point as int,
                mark as int,
            )
            &&& whole_part(mantissa(body)).len() == point - start
            &&& fraction_part(mantissa(body)).len() == if point < mark {
                mark - point - 1
            } else {
                0
            }
            &&& mark < end ==> body.skip(mark_position(body) + 1) == text@.subrange(
                mark + 1,
                end as int,
            )
        }),
{
    let mark: usize = find_mark(text, start, end);
    let point: usize = find_point(text, start, mark);
    proof {
        let body = text@.subrange(start as int, end as int);
        let front = mantissa(body);
        assert(front =~= text@.subrange(start as int, mark as int));
        assert(whole_part(front) =~= text@.subrange(start as int, point as int));
        if point < mark {
            assert(fraction_part(front) =~= text@.subrange(point + 1, mark as int));
        } else {
            assert(fraction_part(front) =~= Seq::<char>::empty());
        }
        assert(mantissa_digits(body) =~= digits_between(
            text@,
            start as int,
            point as int,
            mark as int,
        ));
        if mark < end {
            assert(body.skip(mark - start + 1) =~= text@.subrange(mark + 1, end as int));
        }
    }
    (mark, point)
}

/// What was read of the digits of a number is the number in thousandths,
/// once the zeros that are missing up to the point are filled in.
proof fn lemma_read_is_moved(digits: Seq<char>, places: int, power: int, keep: int)
    requires
        all_digits(digits),
        0 <= places <= digits.len() < 0x1_0000_0000_0000_0000,
        keep == digits.len() - places + 3 + bounded(power),
    ensures
        digits_value(digits) >= 0,
        keep <= digits.len() ==> digits.take(kept(digits.len() as int, keep)) == moved(
            digits,
            keep - digits.len(),
        ),
        keep > digits.len() ==> digits.take(kept(digits.len() as int, keep)) == digits,
        held(digits_value(moved(digits, keep - digits.len()))) == held(
            digits_value(moved(digits, power + 3 - places)),
        ),
{
    lemma_digits_value_bounds(digits);
    lemma_bounded_exponent(digits, places, power);
    if keep <= digits.len() {
        if keep == digits.len() {
            assert(digits + zeros(0) =~= digits);
        }
        assert(digits.take(kept(digits.len() as int, keep)) =~= moved(
            digits,
            keep - digits.len(),
        ));
    } else {
        assert(digits.take(kept(digits.len() as int, keep)) =~= digits);
    }
}

/// Reads the decimal number that stands from `start` to `end`, in
/// thousandths, as far as thirty-two bits hold it.
fn read_decimal(text: &str, start: usize, end: usize) -> (value: Option<u32>)
    requires
        start <= end <= text@.len(),
    ensures
        value is Some <==> is_decimal(text@.subrange(start as int, end as int)),
        value matches Some(v) ==> v == held(milli_value(text@.subrange(start as int, end as int))),
{
    let ghost body: Seq<char> = text@.subrange(start as int, end as int);
    let ghost digits: Seq<char> = mantissa_digits(body);
    let (mark, point) = find_parts(text, start, end);
    let whole_len: usize = point - start;
    let fraction_len: usize = if point < mark {
        mark - point - 1
    } else {
        0
    };
    let mut power: i128 = 0;
    if mark < end {
        match read_power(text, mark + 1, end) {
            None => {
                return None;
            },
            Some(p) => {
                power = p;
            },
        }
    }
    let keep: i128 = whole_len as i128 + 3 + power;
    let read: u128 = match read_kept(text, start, point, mark, keep) {
        None => {
            return None;
        },
        Some(v) => v,
    };
    if whole_len + fraction_len == 0 {
        return None;
    }
    let missing: i128 = keep - (whole_len + fraction_len) as i128;
    proof {
        lemma_read_is_moved(digits, fraction_len as int, exponent(body)->Some_0, keep as int);
    }
    let value: u128 = if missing > 0 {
        fill_zeros(read, missing, Ghost(digits))
    } else {
        read
    };
    if value > READ_CAP {
        Some(u32::MAX)
    } else {
        Some(value as u32)
    }
}

/// The exposure factor as the user typed it, in thousandths: the decimal
/// number that the text stands for, held between zero and the largest that
/// thirty-two bits hold; 1.5 where the text is no number.
pub fn exposure_parameter(text: &str) -> (factor_milli: u32)
    ensures
        factor_milli == exposure_or_default(text@),
{
    let len: usize = text.unicode_len();
    let mut start: usize = 0;
    let mut negative: bool = false;
    if len > 0 {
        let first: char = text.get_char(0);
        if first == '+' || first == '-' {
            start = 1;
            negative = first == '-';
        }
    }
    assert(unsigned_body(text@) =~= text@.subrange(start as int, len as int));
    if spells_word(text, start, len, "nan", "NAN") {
        return 0;
    }
    if spells_word(text, start, len, "inf", "INF") || spells_word(
        text,
        start,
        len,
        "infinity",
        "INFINITY",
    ) {
        return if negative {
            0
        } else {
            u32::MAX
        };
    }
    match read_decimal(text, start, len) {
        None => EXPOSURE_DEFAULT_MILLI,
        Some(value) => {
            if negative {
                0
            } else {
                value
            }
        },
    }
}

/// Whether the character marks the exponent of a number.
fn is_mark_char(c: char) -> (yes: bool)
    ensures
        yes == is_exponent_mark(c),
{
    c == 'e' || c == 'E'
}

/// The sensitivity of the noise injection as the user typed it.
pub fn iso_parameter(text: &str) -> (iso: i32)
    ensures
        iso == iso_or_default(text@),
{
    integer_parameter(text, ISO_DEFAULT)
}

/// The side of a patch as the user typed it.
pub fn patch_size_parameter(text: &str) -> (patch_size: u32)
    ensures
        patch_size == patch_size_or_default(text@),
{
    natural_parameter(text, 1, u32::MAX, PATCH_SIZE_DEFAULT)
}

/// The number of layers as the user typed it.
pub fn layers_parameter(text: &str) -> (layers: u32)
    ensures
        layers == layers_or_default(text@),
{
    natural_parameter(text, 0, u32::MAX, LAYERS_DEFAULT)
}

} // verus!
