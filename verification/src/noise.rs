//! Noise injection: every byte of the image is replaced by a random one with a
//! probability that grows with the sensitivity.

use crate::pixel::PixelBuffer;
use crate::pixel::Raster;
use crate::random::RandomSource;
use vstd::prelude::*;

verus! {

/// The probability of a hit is counted in chances out of this many.
pub const NOISE_SCALE: u32 = 100_000;

/// Chances in `NOISE_SCALE` that one byte is replaced at sensitivity `iso`:
/// the probability `0.01 * iso / 1000`, held between never and always.
pub open spec fn noise_odds(iso: int) -> int {
    if iso <= 0 {
        0
    } else if iso >= 100_000 {
        100_000
    } else {
        iso
    }
}

/// What one byte becomes, given whether it was hit and the byte drawn for it.
pub open spec fn noisy_byte(current: u8, hit: bool, fresh: u8) -> u8 {
    if hit {
        fresh
    } else {
        current
    }
}

/// Everything that is certain of the image after noise injection, whatever
/// was drawn: the shape is kept, and with no chance of a hit so is every byte.
pub open spec fn noise_outcome(input: Raster, iso: int, out: Raster) -> bool {
    &&& out.same_shape(input)
    &&& noise_odds(iso) == 0 ==> out.bytes == input.bytes
}

/// Chances in `NOISE_SCALE` that one byte is replaced at sensitivity `iso`.
pub fn noise_chances(iso: i32) -> (chances: u32)
    ensures
        chances == noise_odds(iso as int),
        chances <= NOISE_SCALE,
{
    if iso <= 0 {
        0
    } else if iso >= 100_000 {
        NOISE_SCALE
    } else {
        iso as u32
    }
}

/// What one byte becomes, given whether it was hit and the byte drawn for it.
pub fn corrupt_byte(current: u8, hit: bool, fresh: u8) -> (out: u8)
    ensures
        out == noisy_byte(current, hit, fresh),
{
    if hit {
        fresh
    } else {
        current
    }
}

/// Replaces each byte of the image, independently and with the probability
/// that `iso` stands for, by a random byte.
pub fn inject_noise(input: &PixelBuffer, iso: i32, rng: &mut RandomSource) -> (out: PixelBuffer)
    requires
        input.wf(),
    ensures
        out.wf(),
        noise_outcome(input@, iso as int, out@),
        noise_odds(iso as int) == 0 ==> out@ == input@,
{
    let chances: u32 = noise_chances(iso);
    let mut data: Vec<u8> = input.data().clone();
    assert(data@ =~= input@.bytes);
    let len: usize = data.len();
    let mut i: usize = 0;
    while i < len
        invariant
            len == data@.len(),
            data@.len() == input@.bytes.len(),
            i <= len,
            chances == noise_odds(iso as int),
            chances <= NOISE_SCALE,
            chances == 0 ==> data@ == input@.bytes,
        decreases len - i,
    {
        let hit: bool = rng.chance(chances, NOISE_SCALE);
        let mut fresh: u8 = 0;
        if hit {
            fresh = rng.byte();
        }
        let current: u8 = data[i];
        data.set(i, corrupt_byte(current, hit, fresh));
        i = i + 1;
    }
    let out: PixelBuffer = input.with_data(data);
    proof {
        if chances == 0 {
            assert(out@ =~= input@);
        }
    }
    out
}

} // verus!
