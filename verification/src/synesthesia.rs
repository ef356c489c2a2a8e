//! Synesthesia: an image that is bent a little further with every key that
//! is pressed, until it is saved.

use crate::pixel::flattened;
use crate::pixel::PixelBuffer;
use crate::pixel::Raster;
use crate::random::RandomSource;
use crate::text::append_char;
use crate::text::append_decimal;
use crate::text::append_str;
use crate::text::decimal;
use vstd::prelude::*;

verus! {

/// How a key bends the bytes it hits.
#[derive(Clone, Copy, Debug, PartialEq, Eq, Structural)]
pub enum KeyClass {
    /// `a` to `z`: the byte grows by the value of the key and wraps around.
    Lowercase,
    /// `0` to `9`: the byte becomes seventeen times the value of the key,
    /// wrapped around.
    Digit,
    /// The space bar: the byte becomes zero.
    Space,
    /// Any other key: the byte becomes a random one.
    Other,
}

/// Why a call on the accumulator was turned down. The accumulator is left as
/// it was.
#[derive(Clone, Copy, Debug, PartialEq, Eq, Structural)]
pub enum StateError {
    /// The image was saved already; the accumulator takes no more calls.
    Finalized,
    /// The count of modifications would no longer fit its counter.
    CounterExhausted,
}

/// The value of a key: its code point, cut to one byte.
pub open spec fn byte_value(c: char) -> int {
    (c as u32 % 256) as int
}

/// How a key bends the bytes it hits.
pub open spec fn key_class(c: char) -> KeyClass {
    if 'a' <= c <= 'z' {
        KeyClass::Lowercase
    } else if '0' <= c <= '9' {
        KeyClass::Digit
    } else if c == ' ' {
        KeyClass::Space
    } else {
        KeyClass::Other
    }
}

/// The number of bytes that one press of the key bends: between 50 and 549.
pub open spec fn chaos_amount(c: char) -> int {
    (byte_value(c) * 13) % 500 + 50
}

/// What a byte holding `current` becomes when the key hits it; `fresh` is the
/// random byte drawn for the hit.
pub open spec fn written_byte(c: char, current: u8, fresh: u8) -> u8 {
    match key_class(c) {
        KeyClass::Lowercase => ((current + byte_value(c)) % 256) as u8,
        KeyClass::Digit => ((byte_value(c) * 17) % 256) as u8,
        KeyClass::Space => 0,
        KeyClass::Other => fresh,
    }
}

/// The bytes after the key has hit, one after the other, the positions that
/// `draws` names; each position comes with the random byte drawn for it.
pub open spec fn after_writes(data: Seq<u8>, c: char, draws: Seq<(int, u8)>) -> Seq<u8>
    decreases draws.len(),
{
    if draws.len() == 0 {
        data
    } else {
        let earlier = after_writes(data, c, draws.drop_last());
        let (at, fresh) = draws.last();
        earlier.update(at, written_byte(c, earlier[at], fresh))
    }
}

/// Everything that is certain of the bytes after one press of the key,
/// whatever was drawn: the key has hit as many positions inside the buffer as
/// its chaos amount says. In a buffer without bytes there is nothing to hit.
pub open spec fn keystroke_outcome(before: Seq<u8>, c: char, after: Seq<u8>) -> bool {
    if before.len() == 0 {
        after == before
    } else {
        exists|draws: Seq<(int, u8)>|
            {
                &&& draws.len() == chaos_amount(c)
                &&& forall|k: int|
                    0 <= k < draws.len() ==> 0 <= (#[trigger] draws[k]).0 < before.len()
                &&& after == after_writes(before, c, draws)
            }
    }
}

/// What the caller is told after a key was pressed.
pub open spec fn keystroke_message(c: char, amount: nat, total: nat) -> Seq<char> {
    "🎵 Key '"@ + seq![c] + "' pressed - "@ + decimal(amount) + " pixels databent! (Total: "@
        + decimal(total) + ")"@
}

/// What the caller is told when the image is saved.
pub open spec fn completion_message(total: nat) -> Seq<char> {
    "🎭 Synesthesia complete! "@ + decimal(total) + " pixels modified total"@
}

/// The value of a key: its code point, cut to one byte.
pub fn key_value(c: char) -> (value: u8)
    ensures
        value == byte_value(c),
{
    ((c as u32) % 256) as u8
}

/// How a key bends the bytes it hits.
pub fn classify_key(c: char) -> (class: KeyClass)
    ensures
        class == key_class(c),
{
    if 'a' <= c && c <= 'z' {
        KeyClass::Lowercase
    } else if '0' <= c && c <= '9' {
        KeyClass::Digit
    } else if c == ' ' {
        KeyClass::Space
    } else {
        KeyClass::Other
    }
}

/// The number of bytes that one press of the key bends.
pub fn chaos_of(c: char) -> (amount: u64)
    ensures
        amount == chaos_amount(c),
        50 <= amount <= 549,
{
    let value: u64 = key_value(c) as u64;
    (value * 13) % 500 + 50
}

/// Lets the key hit the byte at position `at`; `fresh` is the random byte
/// drawn for the hit.
pub fn apply_write(buffer: &mut PixelBuffer, c: char, at: usize, fresh: u8)
    requires
        at < old(buffer)@.bytes.len(),
    ensures
        final(buffer)@.same_shape(old(buffer)@),
        final(buffer)@.bytes == old(buffer)@.bytes.update(
            at as int,
            written_byte(c, old(buffer)@.bytes[at as int], fresh),
        ),
{
    let value: u8 = key_value(c);
    let current: u8 = buffer.byte(at);
    let written: u8 = match classify_key(c) {
        KeyClass::Lowercase => current.wrapping_add(value),
        KeyClass::Digit => value.wrapping_mul(17),
        KeyClass::Space => 0,
        KeyClass::Other => fresh,
    };
    buffer.put(at, written);
}

/// What lies in the buffer after the writes of a digit or of the space bar:
/// the bytes as they were, but for the one byte that such a key writes.
proof fn lemma_constant_writes(data: Seq<u8>, c: char, draws: Seq<(int, u8)>)
    requires
        key_class(c) == KeyClass::Digit || key_class(c) == KeyClass::Space,
        forall|k: int| 0 <= k < draws.len() ==> 0 <= (#[trigger] draws[k]).0 < data.len(),
    ensures
        after_writes(data, c, draws).len() == data.len(),
        forall|i: int|
            0 <= i < data.len() ==> (#[trigger] after_writes(data, c, draws)[i]) == data[i]
                || after_writes(data, c, draws)[i] == written_byte(c, 0, 0),
        draws.len() > 0 ==> after_writes(data, c, draws)[draws.last().0] == written_byte(c, 0, 0),
    decreases draws.len(),
{
    if draws.len() > 0 {
        let earlier = draws.drop_last();
        assert forall|k: int| 0 <= k < earlier.len() implies 0 <= (#[trigger] earlier[k]).0
            < data.len() by {
            assert(earlier[k] == draws[k]);
        }
        lemma_constant_writes(data, c, earlier);
        assert(0 <= draws.last().0 < data.len());
    }
}

/// A digit and the space bar leave their mark: after one press, every byte
/// is what it was or what the key writes, and one byte at least is what the
/// key writes.
pub proof fn lemma_key_leaves_its_mark(before: Seq<u8>, c: char, after: Seq<u8>)
    requires
        key_class(c) == KeyClass::Digit || key_class(c) == KeyClass::Space,
        before.len() > 0,
        keystroke_outcome(before, c, after),
    ensures
        after.len() == before.len(),
        forall|i: int|
            0 <= i < after.len() ==> (#[trigger] after[i]) == before[i] || after[i]
                == written_byte(c, 0, 0),
        exists|i: int| 0 <= i < after.len() && #[trigger] after[i] == written_byte(c, 0, 0),
{
    let draws = choose|draws: Seq<(int, u8)>|
        {
            &&& draws.len() == chaos_amount(c)
            &&& forall|k: int| 0 <= k < draws.len() ==> 0 <= (#[trigger] draws[k]).0 < before.len()
            &&& after == after_writes(before, c, draws)
        };
    lemma_constant_writes(before, c, draws);
    assert(0 <= draws.last().0 < before.len());
    assert(after[draws.last().0] == written_byte(c, 0, 0));
}

/// Mathematical model of the accumulator.
pub struct Session {
    /// The image as the keys have bent it so far.
    pub image: Raster,
    /// How many bytes the keys have bent so far, counted with repetition.
    pub modifications: nat,
    /// Whether the accumulator still takes keys.
    pub active: bool,
}

/// An image with the keys pressed on it, and the count of what they did.
pub struct SynesthesiaState {
    image: PixelBuffer,
    rng: RandomSource,
    modifications_count: u64,
    active: bool,
}

impl View for SynesthesiaState {
    type V = Session;

    closed spec fn view(&self) -> Session {
        Session {
            image: self.image@,
            modifications: self.modifications_count as nat,
            active: self.active,
        }
    }
}

impl SynesthesiaState {
    /// The invariant of the accumulator: it holds a four-channel image.
    pub open spec fn wf(&self) -> bool {
        &&& self@.image.wf()
        &&& self@.image.channels == 4
    }

    /// Takes over a decoded image; no key has been pressed yet.
    pub fn new(image: PixelBuffer, rng: RandomSource) -> (state: SynesthesiaState)
        requires
            image.wf(),
            image@.channels == 4,
        ensures
            state.wf(),
            state@ == (Session { image: image@, modifications: 0, active: true }),
    {
        SynesthesiaState { image, rng, modifications_count: 0, active: true }
    }

    /// Takes over an image that was bent before, with the count of what was
    /// done to it.
    pub fn resume(image: PixelBuffer, rng: RandomSource, modifications_count: u64) -> (state:
        SynesthesiaState)
        requires
            image.wf(),
            image@.channels == 4,
        ensures
            state.wf(),
            state@ == (Session {
                image: image@,
                modifications: modifications_count as nat,
                active: true,
            }),
    {
        SynesthesiaState { image, rng, modifications_count, active: true }
    }

    /// How many bytes the keys have bent so far, counted with repetition.
    pub fn modifications_count(&self) -> (count: u64)
        ensures
            count == self@.modifications,
    {
        self.modifications_count
    }

    /// Whether the accumulator still takes keys.
    pub fn is_active(&self) -> (active: bool)
        ensures
            active == self@.active,
    {
        self.active
    }

    /// The image as the keys have bent it so far.
    pub fn image(&self) -> (image: &PixelBuffer)
        ensures
            image@ == self@.image,
    {
        &self.image
    }

    /// Width of the image in pixels.
    pub fn img_width(&self) -> (width: u32)
        ensures
            width == self@.image.width,
    {
        self.image.width()
    }

    /// Height of the image in pixels.
    pub fn img_height(&self) -> (height: u32)
        ensures
            height == self@.image.height,
    {
        self.image.height()
    }

    /// Presses one key: as many bytes as the chaos amount of the key says,
    /// each at a position drawn at random, are bent in the way of the key.
    /// The count grows by the chaos amount, and the caller gets a line to
    /// display. A key pressed after the image was saved changes nothing.
    pub fn process_key(&mut self, c: char) -> (result: Result<String, StateError>)
        requires
            old(self).wf(),
        ensures
            final(self).wf(),
            match result {
                Ok(text) => {
                    &&& old(self)@.active
                    &&& old(self)@.modifications + chaos_amount(c) <= u64::MAX
                    &&& final(self)@.active
                    &&& final(self)@.modifications == old(self)@.modifications + chaos_amount(c)
                    &&& final(self)@.image.same_shape(old(self)@.image)
                    &&& keystroke_outcome(old(self)@.image.bytes, c, final(self)@.image.bytes)
                    &&& text@ == keystroke_message(
                        c,
                        chaos_amount(c) as nat,
                        final(self)@.modifications,
                    )
                },
                Err(StateError::Finalized) => !old(self)@.active && *final(self) == *old(self),
                Err(StateError::CounterExhausted) => {
                    &&& old(self)@.active
                    &&& old(self)@.modifications + chaos_amount(c) > u64::MAX
                    &&& *final(self) == *old(self)
                },
            },
    {
        if !self.active {
            return Err(StateError::Finalized);
        }
        let amount: u64 = chaos_of(c);
        if amount > u64::MAX - self.modifications_count {
            return Err(StateError::CounterExhausted);
        }
        let len: usize = self.image.len();
        if len > 0 {
            let other: bool = classify_key(c) == KeyClass::Other;
            let ghost before: Seq<u8> = self.image@.bytes;
            let ghost mut draws: Seq<(int, u8)> = Seq::empty();
            let mut done: u64 = 0;
            while done < amount
                invariant
                    done <= amount,
                    len == before.len(),
                    len > 0,
                    other == (key_class(c) == KeyClass::Other),
                    self.image@.same_shape(old(self)@.image),
                    self.image@.bytes.len() == len,
                    self.active == old(self).active,
                    self.modifications_count == old(self).modifications_count,
                    draws.len() == done,
                    forall|k: int| 0 <= k < draws.len() ==> 0 <= (#[trigger] draws[k]).0 < len,
                    self.image@.bytes == after_writes(before, c, draws),
                decreases amount - done,
            {
                let at: usize = self.rng.below(len);
                let mut fresh: u8 = 0;
                if other {
                    fresh = self.rng.byte();
                }
                proof {
                    assert(draws.push((at as int, fresh)).drop_last() =~= draws);
                    draws = draws.push((at as int, fresh));
                }
                apply_write(&mut self.image, c, at, fresh);
                done = done + 1;
            }
        }
        self.modifications_count = self.modifications_count + amount;
        let mut text: String = String::new();
        append_str(&mut text, "🎵 Key '");
        append_char(&mut text, c);
        append_str(&mut text, "' pressed - ");
        append_decimal(&mut text, amount);
        append_str(&mut text, " pixels databent! (Total: ");
        append_decimal(&mut text, self.modifications_count);
        append_str(&mut text, ")");
        assert(text@ =~= keystroke_message(
            c,
            chaos_amount(c) as nat,
            self.modifications_count as nat,
        ));
        Ok(text)
    }

    /// Ends the session: hands out the image as it is saved, three channels
    /// to the pixel, with a line to display. From then on the accumulator
    /// takes no more calls.
    pub fn save(&mut self) -> (result: Result<(PixelBuffer, String), StateError>)
        requires
            old(self).wf(),
        ensures
            final(self).wf(),
            match result {
                Ok((image, text)) => {
                    &&& old(self)@.active
                    &&& image.wf()
                    &&& image@ == flattened(old(self)@.image)
                    &&& text@ == completion_message(old(self)@.modifications)
                    &&& final(self)@ == (Session { active: false, ..old(self)@ })
                },
                Err(StateError::Finalized) => !old(self)@.active && *final(self) == *old(self),
                Err(StateError::CounterExhausted) => false,
            },
    {
        if !self.active {
            return Err(StateError::Finalized);
        }
        let image: PixelBuffer = self.image.flatten();
        self.active = false;
        let mut text: String = String::new();
        append_str(&mut text, "🎭 Synesthesia complete! ");
        append_decimal(&mut text, self.modifications_count);
        append_str(&mut text, " pixels modified total");
        assert(text@ =~= completion_message(self.modifications_count as nat));
        Ok((image, text))
    }
}

} // verus!
