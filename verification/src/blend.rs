//! The alpha compositor: one pixel laid over another.
//!
//! Alpha runs from 0 (clear) to 255 (opaque). With `a` for the alpha of the
//! upper pixel and `b` for that of the lower one, both as fractions of 255,
//! the alpha of the result is `a + b * (1 - a)` and each colour channel is
//! `(top * a + bottom * b * (1 - a))` divided by that alpha. Here both are
//! computed exactly, in whole numbers, and rounded to the nearest byte.

use vstd::arithmetic::div_mod::lemma_div_is_ordered;
use vstd::arithmetic::div_mod::lemma_div_pos_is_pos;
use vstd::arithmetic::div_mod::lemma_fundamental_div_mod_converse;
use vstd::prelude::*;

verus! {

/// One pixel with its alpha.
#[derive(Clone, Copy, Debug, PartialEq, Eq, Structural)]
pub struct Rgba {
    pub r: u8,
    pub g: u8,
    pub b: u8,
    pub a: u8,
}

/// The pixel that covers nothing: clear black.
pub open spec fn clear_black() -> Rgba {
    Rgba { r: 0, g: 0, b: 0, a: 0 }
}

/// The alpha of the upper pixel over the lower one, as a fraction of
/// `255 * 255`.
pub open spec fn over_weight(top_alpha: int, bottom_alpha: int) -> int {
    top_alpha * 255 + bottom_alpha * (255 - top_alpha)
}

/// The whole number nearest to `numerator / denominator`; halves go up.
pub open spec fn rounded_div(numerator: int, denominator: int) -> int {
    (2 * numerator + denominator) / (2 * denominator)
}

/// What the upper pixel over the lower one puts into a colour channel, as a
/// fraction of `255 * 255`.
pub open spec fn over_colour(top: int, bottom: int, top_alpha: int, bottom_alpha: int) -> int {
    top * (top_alpha * 255) + bottom * (bottom_alpha * (255 - top_alpha))
}

/// One colour channel of the upper pixel over the lower one.
pub open spec fn over_channel(top: int, bottom: int, top_alpha: int, bottom_alpha: int) -> int {
    rounded_div(
        over_colour(top, bottom, top_alpha, bottom_alpha),
        over_weight(top_alpha, bottom_alpha),
    )
}

/// The alpha of the upper pixel over the lower one.
pub open spec fn over_alpha(top_alpha: int, bottom_alpha: int) -> int {
    rounded_div(over_weight(top_alpha, bottom_alpha), 255)
}

/// The upper pixel laid over the lower one. Where both are clear, so that
/// there is no colour to weigh, the result is clear black.
pub open spec fn blended(bottom: Rgba, top: Rgba) -> Rgba {
    if over_weight(top.a as int, bottom.a as int) == 0 {
        clear_black()
    } else {
        Rgba {
            r: over_channel(top.r as int, bottom.r as int, top.a as int, bottom.a as int) as u8,
            g: over_channel(top.g as int, bottom.g as int, top.a as int, bottom.a as int) as u8,
            b: over_channel(top.b as int, bottom.b as int, top.a as int, bottom.a as int) as u8,
            a: over_alpha(top.a as int, bottom.a as int) as u8,
        }
    }
}

/// The weights of two pixels stay within `255 * 255`, and the weighted colour
/// within 255 times the weight; so every channel of the result is a byte.
pub proof fn lemma_over_bounds(top: int, bottom: int, top_alpha: int, bottom_alpha: int)
    requires
        0 <= top <= 255,
        0 <= bottom <= 255,
        0 <= top_alpha <= 255,
        0 <= bottom_alpha <= 255,
    ensures
        0 <= top_alpha * 255 <= 65025,
        0 <= bottom_alpha * (255 - top_alpha) <= 65025,
        0 <= over_weight(top_alpha, bottom_alpha) <= 65025,
        over_weight(top_alpha, bottom_alpha) == 0 <==> top_alpha == 0 && bottom_alpha == 0,
        0 <= top * (top_alpha * 255) <= 255 * (top_alpha * 255),
        0 <= bottom * (bottom_alpha * (255 - top_alpha)) <= 255 * (bottom_alpha * (255
            - top_alpha)),
        0 <= over_colour(top, bottom, top_alpha, bottom_alpha) <= 255 * over_weight(
            top_alpha,
            bottom_alpha,
        ),
        0 <= over_alpha(top_alpha, bottom_alpha) <= 255,
        over_weight(top_alpha, bottom_alpha) > 0 ==> 0 <= over_channel(
            top,
            bottom,
            top_alpha,
            bottom_alpha,
        ) <= 255,
{
    let wt = top_alpha * 255;
    let wb = bottom_alpha * (255 - top_alpha);
    assert(0 <= wb <= 255 * (255 - top_alpha)) by (nonlinear_arith)
        requires
            wb == bottom_alpha * (255 - top_alpha),
            0 <= bottom_alpha <= 255,
            0 <= top_alpha <= 255,
    ;
    assert(wb == 0 <==> bottom_alpha == 0 || top_alpha == 255) by (nonlinear_arith)
        requires
            wb == bottom_alpha * (255 - top_alpha),
            0 <= bottom_alpha <= 255,
            0 <= top_alpha <= 255,
    ;
    assert(0 <= top * wt <= 255 * wt) by (nonlinear_arith)
        requires
            0 <= top <= 255,
            0 <= wt,
    ;
    assert(0 <= bottom * wb <= 255 * wb) by (nonlinear_arith)
        requires
            0 <= bottom <= 255,
            0 <= wb,
    ;
    let weight = wt + wb;
    let colour = top * wt + bottom * wb;
    assert(weight == over_weight(top_alpha, bottom_alpha));
    assert(colour == over_colour(top, bottom, top_alpha, bottom_alpha));
    lemma_div_pos_is_pos(2 * weight + 255, 510);
    lemma_div_is_ordered(2 * weight + 255, 130305int, 510);
    if weight > 0 {
        lemma_div_pos_is_pos(2 * colour + weight, 2 * weight);
        lemma_div_is_ordered(2 * colour + weight, 511 * weight, 2 * weight);
        lemma_fundamental_div_mod_converse(511 * weight, 2 * weight, 255, weight);
    }
}

/// Lays `top` over `bottom`.
pub fn alpha_blend(bottom: Rgba, top: Rgba) -> (out: Rgba)
    ensures
        out == blended(bottom, top),
{
    let top_alpha: u32 = top.a as u32;
    let bottom_alpha: u32 = bottom.a as u32;
    proof {
        lemma_over_bounds(0, 0, top_alpha as int, bottom_alpha as int);
    }
    let top_weight: u32 = top_alpha * 255;
    let bottom_weight: u32 = bottom_alpha * (255 - top_alpha);
    let weight: u32 = top_weight + bottom_weight;
    if weight == 0 {
        return Rgba { r: 0, g: 0, b: 0, a: 0 };
    }
    let r: u8 = blend_channel(top.r, bottom.r, top.a, bottom.a);
    let g: u8 = blend_channel(top.g, bottom.g, top.a, bottom.a);
    let b: u8 = blend_channel(top.b, bottom.b, top.a, bottom.a);
    let a: u8 = ((2 * weight + 255) / 510) as u8;
    Rgba { r, g, b, a }
}

/// One colour channel of a pixel with alpha `top_alpha` over one with alpha
/// `bottom_alpha`, of which at least one is not clear.
pub fn blend_channel(top: u8, bottom: u8, top_alpha: u8, bottom_alpha: u8) -> (out: u8)
    requires
        top_alpha > 0 || bottom_alpha > 0,
    ensures
        out == over_channel(top as int, bottom as int, top_alpha as int, bottom_alpha as int),
{
    proof {
        lemma_over_bounds(top as int, bottom as int, top_alpha as int, bottom_alpha as int);
    }
    let top_weight: u32 = (top_alpha as u32) * 255;
    let bottom_weight: u32 = (bottom_alpha as u32) * (255 - top_alpha as u32);
    let weight: u32 = top_weight + bottom_weight;
    let colour: u32 = (top as u32) * top_weight + (bottom as u32) * bottom_weight;
    ((2 * colour + weight) / (2 * weight)) as u8
}

/// An opaque pixel hides what lies under it.
pub proof fn lemma_opaque_top_wins(bottom: Rgba, top: Rgba)
    requires
        top.a == 255,
    ensures
        blended(bottom, top) == top,
{
    lemma_channel_of_opaque(top.r as int, bottom.r as int, bottom.a as int);
    lemma_channel_of_opaque(top.g as int, bottom.g as int, bottom.a as int);
    lemma_channel_of_opaque(top.b as int, bottom.b as int, bottom.a as int);
}

/// A fraction whose numerator is a multiple of its denominator rounds to
/// the quotient.
proof fn lemma_rounded_exact(quotient: int, denominator: int)
    requires
        denominator > 0,
    ensures
        rounded_div(quotient * denominator, denominator) == quotient,
{
    assert(2 * (quotient * denominator) + denominator == quotient * (2 * denominator)
        + denominator) by (nonlinear_arith);
    lemma_fundamental_div_mod_converse(
        2 * (quotient * denominator) + denominator,
        2 * denominator,
        quotient,
        denominator,
    );
}

/// Under an opaque pixel the lower one has no weight.
proof fn lemma_channel_of_opaque(top: int, bottom: int, bottom_alpha: int)
    requires
        0 <= top <= 255,
    ensures
        over_weight(255, bottom_alpha) == 65025,
        over_alpha(255, bottom_alpha) == 255,
        over_channel(top, bottom, 255, bottom_alpha) == top,
{
    let rest = bottom_alpha * (255 - 255);
    assert(rest == 0) by (nonlinear_arith)
        requires
            rest == bottom_alpha * (255 - 255),
    ;
    assert(bottom * rest == 0) by (nonlinear_arith)
        requires
            rest == 0,
    ;
    assert(over_weight(255, bottom_alpha) == 255 * 255);
    assert(over_colour(top, bottom, 255, bottom_alpha) == top * 65025);
    lemma_rounded_exact(255, 255);
    lemma_rounded_exact(top, 65025);
}

/// A clear pixel changes nothing of a pixel that is not clear itself; over a
/// clear pixel it leaves clear black.
pub proof fn lemma_clear_top_keeps_bottom(bottom: Rgba, top: Rgba)
    requires
        top.a == 0,
    ensures
        blended(bottom, top) == if bottom.a == 0 {
            clear_black()
        } else {
            bottom
        },
{
    if bottom.a > 0 {
        lemma_channel_under_clear(top.r as int, bottom.r as int, bottom.a as int);
        lemma_channel_under_clear(top.g as int, bottom.g as int, bottom.a as int);
        lemma_channel_under_clear(top.b as int, bottom.b as int, bottom.a as int);
    }
}

/// Over a pixel that is not clear, a clear pixel has no weight.
proof fn lemma_channel_under_clear(top: int, bottom: int, bottom_alpha: int)
    requires
        0 <= bottom <= 255,
        0 < bottom_alpha <= 255,
    ensures
        over_weight(0, bottom_alpha) == bottom_alpha * 255,
        over_alpha(0, bottom_alpha) == bottom_alpha,
        over_channel(top, bottom, 0, bottom_alpha) == bottom,
{
    let weight = bottom_alpha * 255;
    let none = 0 * 255;
    assert(top * none == 0) by (nonlinear_arith)
        requires
            none == 0,
    ;
    assert(over_weight(0, bottom_alpha) == weight);
    assert(over_colour(top, bottom, 0, bottom_alpha) == bottom * weight);
    lemma_rounded_exact(bottom_alpha, 255);
    lemma_rounded_exact(bottom, weight);
}

} // verus!
