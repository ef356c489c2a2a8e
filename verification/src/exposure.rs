//! Exposure boost: the colour channels of every pixel are brightened by a
//! random amount and stop at white.

use crate::pixel::flattened;
use crate::pixel::PixelBuffer;
use crate::pixel::Raster;
use crate::random::RandomSource;
use vstd::prelude::*;

verus! {

/// The bound under which every boost is drawn: fifty times the exposure
/// factor, cut to a whole number and held to a byte. The factor is counted in
/// thousandths.
pub open spec fn boost_limit(factor_milli: int) -> int {
    let limit = 50 * factor_milli / 1000;
    if limit > 255 {
        255
    } else {
        limit
    }
}

/// A channel after a boost: the sum, stopped at 255.
pub open spec fn boosted(value: u8, boost: int) -> int {
    if value + boost > 255 {
        255
    } else {
        value + boost
    }
}

/// The largest value a channel can reach when boosts are drawn under `limit`.
pub open spec fn brightest(value: u8, limit: int) -> int {
    if limit > 0 {
        boosted(value, limit - 1)
    } else {
        value as int
    }
}

/// Everything that is certain of the image after an exposure boost with
/// boosts drawn under `limit`, whatever was drawn: the shape is kept, alpha is
/// kept, and every colour channel lies between its old value and the
/// brightest it can reach.
pub open spec fn exposure_outcome(input: Raster, limit: int, out: Raster) -> bool {
    &&& out.same_shape(input)
    &&& forall|i: int|
        0 <= i < input.bytes.len() ==> if i % 4 == 3 {
            #[trigger] out.bytes[i] == input.bytes[i]
        } else {
            input.bytes[i] <= out.bytes[i] <= brightest(input.bytes[i], limit)
        }
}

/// The bound under which every boost is drawn at exposure factor
/// `factor_milli` thousandths.
pub fn exposure_limit(factor_milli: u32) -> (limit: u8)
    ensures
        limit == boost_limit(factor_milli as int),
{
    let scaled: u32 = factor_milli / 20;
    assert(50 * factor_milli / 1000 == factor_milli / 20);
    if scaled > 255 {
        255
    } else {
        scaled as u8
    }
}

/// Adds `boost` to `value`, stopping at 255.
pub fn saturating_boost(value: u8, boost: u8) -> (out: u8)
    ensures
        out == boosted(value, boost as int),
{
    if boost > 255 - value {
        255
    } else {
        value + boost
    }
}

/// Brightens the red, green and blue channel of every pixel by a boost drawn
/// for each under the limit that `factor_milli` stands for. With a limit of
/// zero nothing is drawn and the image is kept.
pub fn overexpose(input: &PixelBuffer, factor_milli: u32, rng: &mut RandomSource) -> (out:
    PixelBuffer)
    requires
        input.wf(),
        input@.channels == 4,
    ensures
        out.wf(),
        exposure_outcome(input@, boost_limit(factor_milli as int), out@),
        boost_limit(factor_milli as int) == 0 ==> out@ == input@,
{
    let limit: u8 = exposure_limit(factor_milli);
    let mut data: Vec<u8> = input.data().clone();
    assert(data@ =~= input@.bytes);
    let len: usize = data.len();
    let mut i: usize = 0;
    while i < len
        invariant
            len == data@.len(),
            data@.len() == input@.bytes.len(),
            i <= len,
            forall|j: int|
                0 <= j < i ==> if j % 4 == 3 {
                    #[trigger] data@[j] == input@.bytes[j]
                } else {
                    input@.bytes[j] <= data@[j] <= brightest(input@.bytes[j], limit as int)
                },
            forall|j: int| i <= j < len ==> #[trigger] data@[j] == input@.bytes[j],
        decreases len - i,
    {
        if i % 4 != 3 && limit > 0 {
            let boost: usize = rng.below(limit as usize);
            let current: u8 = data[i];
            data.set(i, saturating_boost(current, boost as u8));
        }
        i = i + 1;
    }
    let out: PixelBuffer = input.with_data(data);
    proof {
        if limit == 0 {
            assert(out@.bytes =~= input@.bytes);
            assert(out@ =~= input@);
        }
    }
    out
}

/// Brightening never darkens: in the saved image every channel is at least
/// what it was in the input.
pub proof fn lemma_exposure_never_darkens(input: Raster, limit: int, out: Raster, p: int, c: int)
    requires
        input.wf(),
        input.channels == 4,
        exposure_outcome(input, limit, out),
        0 <= p < input.pixels(),
        0 <= c < 3,
    ensures
        flattened(out).bytes.len() == 3 * input.pixels(),
        input.bytes[4 * p + c] <= flattened(out).bytes[3 * p + c] <= 255,
{
    let j = 3 * p + c;
    assert(j / 3 == p && j % 3 == c);
    assert(input.bytes.len() == input.pixels() * 4);
    assert((4 * p + c) % 4 == c);
}

/// With a limit of zero the saved image is the input as it would be saved.
pub proof fn lemma_exposure_zero_keeps_image(input: Raster, out: Raster)
    requires
        input.wf(),
        input.channels == 4,
        exposure_outcome(input, 0, out),
    ensures
        flattened(out) == flattened(input),
{
    assert(out.bytes =~= input.bytes);
}

} // verus!
