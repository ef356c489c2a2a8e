//! Layered composite: translucent, tinted, displaced copies of the image are
//! laid one over the other on a clear canvas.

use crate::blend::alpha_blend;
use crate::blend::blended;
use crate::blend::Rgba;
use crate::exposure::boosted;
use crate::exposure::saturating_boost;
use crate::grid::byte_column;
use crate::grid::byte_row;
use crate::grid::lemma_pixel_bytes;
use crate::grid::lemma_position_byte;
use crate::grid::rgba_offset;
use crate::pixel::flattened;
use crate::pixel::lemma_offset_in_bounds;
use crate::pixel::PixelBuffer;
use crate::pixel::Raster;
use crate::random::RandomSource;
use vstd::arithmetic::div_mod::lemma_multiply_divide_lt;
use vstd::prelude::*;

verus! {

/// One copy of the image as it is laid on the canvas.
#[derive(Clone, Copy, Debug, PartialEq, Eq, Structural)]
pub struct Layer {
    /// How far the copy is moved to the right, in pixels.
    pub offset_x: u32,
    /// How far the copy is moved down, in pixels.
    pub offset_y: u32,
    /// What is left of the alpha of the copy, in thousandths; more than a
    /// thousand count as a thousand.
    pub alpha_permille: u32,
    /// What is added to the red channel of the copy.
    pub shift_r: u8,
    /// What is added to the green channel of the copy.
    pub shift_g: u8,
    /// What is added to the blue channel of the copy.
    pub shift_b: u8,
}

impl Layer {
    /// What is left of the alpha of the copy, in thousandths: no layer makes a
    /// pixel more opaque than it was.
    pub open spec fn kept_alpha(self) -> int {
        if self.alpha_permille > 1000 {
            1000
        } else {
            self.alpha_permille as int
        }
    }

    /// The layer is one that can be drawn for `image`: it is moved by less
    /// than the image is large, and keeps between a tenth and three tenths of
    /// the alpha.
    pub open spec fn drawn_for(self, image: Raster) -> bool {
        &&& self.offset_x < image.width
        &&& self.offset_y < image.height
        &&& 100 <= self.alpha_permille < 300
    }
}

/// The pixel in column `x`, row `y` of a four-channel image.
pub open spec fn pixel_of(image: Raster, x: int, y: int) -> Rgba {
    Rgba {
        r: image.bytes[rgba_offset(image.width as int, x, y, 0)],
        g: image.bytes[rgba_offset(image.width as int, x, y, 1)],
        b: image.bytes[rgba_offset(image.width as int, x, y, 2)],
        a: image.bytes[rgba_offset(image.width as int, x, y, 3)],
    }
}

/// The channel of a pixel that is stored as its `c`-th byte.
pub open spec fn channel_of(pixel: Rgba, c: int) -> u8 {
    if c == 0 {
        pixel.r
    } else if c == 1 {
        pixel.g
    } else if c == 2 {
        pixel.b
    } else {
        pixel.a
    }
}

/// A pixel of the source as a layer shows it: the colour shifted, stopping at
/// white, and the alpha scaled down.
pub open spec fn tinted(pixel: Rgba, layer: Layer) -> Rgba {
    Rgba {
        r: boosted(pixel.r, layer.shift_r as int) as u8,
        g: boosted(pixel.g, layer.shift_g as int) as u8,
        b: boosted(pixel.b, layer.shift_b as int) as u8,
        a: (pixel.a * layer.kept_alpha() / 1000) as u8,
    }
}

/// The pixel `(x, y)` of the canvas once the layer lies on it: where the
/// displaced copy reaches, the copy over the canvas; elsewhere the canvas.
pub open spec fn layered_pixel(
    canvas: Raster,
    source: Raster,
    layer: Layer,
    x: int,
    y: int,
) -> Rgba {
    if x >= layer.offset_x && y >= layer.offset_y {
        blended(
            pixel_of(canvas, x, y),
            tinted(pixel_of(source, x - layer.offset_x, y - layer.offset_y), layer),
        )
    } else {
        pixel_of(canvas, x, y)
    }
}

/// The canvas once the layer lies on it.
pub open spec fn with_layer(canvas: Raster, source: Raster, layer: Layer) -> Raster {
    Raster {
        width: canvas.width,
        height: canvas.height,
        channels: canvas.channels,
        bytes: Seq::new(
            canvas.bytes.len(),
            |i: int|
                channel_of(
                    layered_pixel(
                        canvas,
                        source,
                        layer,
                        byte_column(canvas.width as int, i),
                        byte_row(canvas.width as int, i),
                    ),
                    i % 4,
                ),
        ),
    }
}

/// The clear canvas of the size of `image`: every byte zero.
pub open spec fn blank(image: Raster) -> Raster {
    Raster {
        width: image.width,
        height: image.height,
        channels: image.channels,
        bytes: Seq::new(image.bytes.len(), |i: int| 0u8),
    }
}

/// The canvas once the layers lie on it, the first at the bottom.
pub open spec fn composite(source: Raster, layers: Seq<Layer>) -> Raster
    decreases layers.len(),
{
    if layers.len() == 0 {
        blank(source)
    } else {
        with_layer(composite(source, layers.drop_last()), source, layers.last())
    }
}

/// Everything that is certain of the canvas after `count` layers were drawn
/// and laid on it, whatever was drawn. Of an image without pixels no layer
/// is drawn.
pub open spec fn composite_outcome(source: Raster, count: int, out: Raster) -> bool {
    if source.bytes.len() == 0 {
        out == blank(source)
    } else {
        exists|layers: Seq<Layer>|
            {
                &&& layers.len() == count
                &&& forall|k: int| 0 <= k < count ==> (#[trigger] layers[k]).drawn_for(source)
                &&& out == composite(source, layers)
            }
    }
}

/// The pixel stored in the four bytes from `at` on.
fn read_pixel(data: &Vec<u8>, at: usize) -> (pixel: Rgba)
    requires
        at + 4 <= data@.len(),
    ensures
        pixel == (Rgba {
            r: data@[at as int],
            g: data@[at + 1],
            b: data@[at + 2],
            a: data@[at + 3],
        }),
{
    let len: usize = data.len();
    assert(at + 4 <= len);
    Rgba { r: data[at], g: data[at + 1], b: data[at + 2], a: data[at + 3] }
}

/// A pixel of the source as the layer shows it.
pub fn tint(pixel: Rgba, layer: Layer) -> (out: Rgba)
    ensures
        out == tinted(pixel, layer),
{
    let kept: u32 = if layer.alpha_permille > 1000 {
        1000
    } else {
        layer.alpha_permille
    };
    assert(pixel.a * kept <= 255 * 1000) by (nonlinear_arith)
        requires
            pixel.a <= 255,
            kept <= 1000,
    ;
    let alpha: u32 = (pixel.a as u32) * kept / 1000;
    Rgba {
        r: saturating_boost(pixel.r, layer.shift_r),
        g: saturating_boost(pixel.g, layer.shift_g),
        b: saturating_boost(pixel.b, layer.shift_b),
        a: alpha as u8,
    }
}

/// Lays one layer of `source` on the canvas.
pub fn apply_layer(canvas: PixelBuffer, source: &PixelBuffer, layer: Layer) -> (out: PixelBuffer)
    requires
        canvas.wf(),
        source.wf(),
        source@.channels == 4,
        canvas@.same_shape(source@),
    ensures
        out.wf(),
        out@ == with_layer(canvas@, source@, layer),
{
    let width: usize = source.width() as usize;
    let height: usize = source.height() as usize;
    let shift_x: usize = layer.offset_x as usize;
    let shift_y: usize = layer.offset_y as usize;
    let src: &Vec<u8> = source.data();
    let len: usize = src.len();
    let ghost before: Raster = canvas@;
    let ghost after: Raster = with_layer(before, source@, layer);
    let mut data: Vec<u8> = canvas.into_raw();
    if width == 0 {
        assert(data@ =~= after.bytes);
        let out: PixelBuffer = source.with_data(data);
        assert(out@ =~= after);
        return out;
    }
    let mut y: usize = 0;
    while y < height
        invariant
            y <= height,
            width > 0,
            source.wf(),
            source@.channels == 4,
            before.same_shape(source@),
            width == source@.width,
            height == source@.height,
            shift_x == layer.offset_x,
            shift_y == layer.offset_y,
            src@ == source@.bytes,
            len == src@.len(),
            len == width * height * 4,
            data@.len() == len,
            after == with_layer(before, source@, layer),
            forall|i: int|
                0 <= i < len ==> #[trigger] data@[i] == if byte_row(width as int, i) < y {
                    after.bytes[i]
                } else {
                    before.bytes[i]
                },
        decreases height - y,
    {
        proof {
            assert forall|i: int| 0 <= i < len implies byte_column(width as int, i) >= 0 by {
                lemma_position_byte(width as int, i);
            }
        }
        let mut x: usize = 0;
        while x < width
            invariant
                x <= width,
                y < height,
                width > 0,
                source.wf(),
                source@.channels == 4,
                before.same_shape(source@),
                width == source@.width,
                height == source@.height,
                shift_x == layer.offset_x,
                shift_y == layer.offset_y,
                src@ == source@.bytes,
                len == src@.len(),
                len == width * height * 4,
                data@.len() == len,
                after == with_layer(before, source@, layer),
                forall|i: int|
                    0 <= i < len ==> #[trigger] data@[i] == if byte_row(width as int, i) < y || (
                    byte_row(width as int, i) == y && byte_column(width as int, i) < x) {
                        after.bytes[i]
                    } else {
                        before.bytes[i]
                    },
            decreases width - x,
        {
            proof {
                lemma_offset_in_bounds(width as nat, height as nat, 4, x as nat, y as nat, 3);
            }
            let at: usize = (y * width + x) * 4;
            let ghost earlier: Seq<u8> = data@;
            if x >= shift_x && y >= shift_y {
                proof {
                    lemma_offset_in_bounds(
                        width as nat,
                        height as nat,
                        4,
                        (x - shift_x) as nat,
                        (y - shift_y) as nat,
                        3,
                    );
                    assert forall|i: int| at <= i < at + 4 implies #[trigger] data@[i]
                        == before.bytes[i] by {
                        lemma_pixel_bytes(width as int, x as int, y as int, i);
                    }
                }
                let from: usize = ((y - shift_y) * width + (x - shift_x)) * 4;
                let bottom: Rgba = read_pixel(&data, at);
                let top: Rgba = tint(read_pixel(src, from), layer);
                let pixel: Rgba = alpha_blend(bottom, top);
                assert(bottom == pixel_of(before, x as int, y as int));
                assert(pixel == layered_pixel(before, source@, layer, x as int, y as int));
                data.set(at, pixel.r);
                data.set(at + 1, pixel.g);
                data.set(at + 2, pixel.b);
                data.set(at + 3, pixel.a);
            }
            proof {
                assert forall|i: int| 0 <= i < len implies #[trigger] data@[i] == if byte_row(
                    width as int,
                    i,
                ) < y || (byte_row(width as int, i) == y && byte_column(width as int, i) < x + 1) {
                    after.bytes[i]
                } else {
                    before.bytes[i]
                } by {
                    lemma_pixel_bytes(width as int, x as int, y as int, i);
                    if at <= i < at + 4 {
                        assert(byte_column(width as int, i) == x && byte_row(width as int, i)
                            == y);
                        assert(i % 4 == i - at);
                    } else {
                        assert(data@[i] == earlier[i]);
                    }
                }
            }
            x = x + 1;
        }
        proof {
            assert forall|i: int| 0 <= i < len implies #[trigger] data@[i] == if byte_row(
                width as int,
                i,
            ) < y + 1 {
                after.bytes[i]
            } else {
                before.bytes[i]
            } by {
                lemma_position_byte(width as int, i);
            }
        }
        y = y + 1;
    }
    proof {
        assert forall|i: int| 0 <= i < len implies data@[i] == after.bytes[i] by {
            lemma_multiply_divide_lt(i / 4, width as int, height as int);
        }
        assert(data@ =~= after.bytes);
    }
    let out: PixelBuffer = source.with_data(data);
    assert(out@ =~= after);
    out
}

/// Lays the layers on a clear canvas of the size of `source`, the first at
/// the bottom.
pub fn composite_layers(source: &PixelBuffer, layers: &Vec<Layer>) -> (out: PixelBuffer)
    requires
        source.wf(),
        source@.channels == 4,
    ensures
        out.wf(),
        out@ == composite(source@, layers@),
{
    let mut canvas: PixelBuffer = source.blank_like();
    assert(canvas@ =~= blank(source@)) by {
        assert(canvas@.bytes =~= blank(source@).bytes);
    }
    let count: usize = layers.len();
    let mut k: usize = 0;
    while k < count
        invariant
            k <= count,
            count == layers@.len(),
            source.wf(),
            source@.channels == 4,
            canvas.wf(),
            canvas@.same_shape(source@),
            canvas@ == composite(source@, layers@.take(k as int)),
        decreases count - k,
    {
        assert(layers@.take(k + 1).drop_last() =~= layers@.take(k as int));
        canvas = apply_layer(canvas, source, layers[k]);
        k = k + 1;
    }
    assert(layers@.take(count as int) =~= layers@);
    canvas
}

/// Draws one layer for an image of `width` by `height` pixels: how far it is
/// moved, how much of its alpha is left, and what is added to its colour.
pub fn draw_layer(width: u32, height: u32, rng: &mut RandomSource) -> (layer: Layer)
    requires
        width > 0,
        height > 0,
    ensures
        layer.offset_x < width,
        layer.offset_y < height,
        100 <= layer.alpha_permille < 300,
{
    let offset_x: u32 = rng.between(0, width);
    let offset_y: u32 = rng.between(0, height);
    let alpha_permille: u32 = rng.between(100, 300);
    let shift_r: u8 = rng.byte();
    let shift_g: u8 = rng.byte();
    let shift_b: u8 = rng.byte();
    Layer { offset_x, offset_y, alpha_permille, shift_r, shift_g, shift_b }
}

/// Lays `layer_count` layers of the image, each drawn at random, on a clear
/// canvas of the same size, one after the other.
pub fn layered_composite(source: &PixelBuffer, layer_count: u32, rng: &mut RandomSource) -> (out:
    PixelBuffer)
    requires
        source.wf(),
        source@.channels == 4,
    ensures
        out.wf(),
        composite_outcome(source@, layer_count as int, out@),
        layer_count == 0 ==> out@ == blank(source@),
{
    let mut canvas: PixelBuffer = source.blank_like();
    assert(canvas@ =~= blank(source@)) by {
        assert(canvas@.bytes =~= blank(source@).bytes);
    }
    if source.len() == 0 {
        return canvas;
    }
    let width: u32 = source.width();
    let height: u32 = source.height();
    assert(width > 0 && height > 0) by (nonlinear_arith)
        requires
            width * height * 4 > 0,
            width >= 0,
            height >= 0,
    ;
    let ghost mut drawn: Seq<Layer> = Seq::empty();
    let mut k: u32 = 0;
    while k < layer_count
        invariant
            k <= layer_count,
            source.wf(),
            source@.channels == 4,
            width == source@.width,
            height == source@.height,
            width > 0,
            height > 0,
            canvas.wf(),
            canvas@.same_shape(source@),
            drawn.len() == k,
            forall|j: int| 0 <= j < k ==> (#[trigger] drawn[j]).drawn_for(source@),
            canvas@ == composite(source@, drawn),
        decreases layer_count - k,
    {
        let layer: Layer = draw_layer(width, height, rng);
        proof {
            assert(drawn.push(layer).drop_last() =~= drawn);
            drawn = drawn.push(layer);
        }
        canvas = apply_layer(canvas, source, layer);
        k = k + 1;
    }
    canvas
}

/// The canvas has the size of the source, whatever lies on it.
pub proof fn lemma_composite_shape(source: Raster, layers: Seq<Layer>)
    ensures
        composite(source, layers).same_shape(source),
    decreases layers.len(),
{
    if layers.len() > 0 {
        lemma_composite_shape(source, layers.drop_last());
    }
}

/// Without layers the canvas stays clear, and is saved as black.
pub proof fn lemma_no_layers_is_black(source: Raster, out: Raster)
    requires
        source.wf(),
        source.channels == 4,
        composite_outcome(source, 0, out),
    ensures
        out.same_shape(source),
        forall|i: int| 0 <= i < out.bytes.len() ==> out.bytes[i] == 0,
        flattened(out).bytes.len() == 3 * source.pixels(),
        forall|i: int| 0 <= i < flattened(out).bytes.len() ==> flattened(out).bytes[i] == 0,
{
    if source.bytes.len() != 0 {
        let layers = choose|layers: Seq<Layer>|
            {
                &&& layers.len() == 0
                &&& forall|k: int| 0 <= k < 0 ==> (#[trigger] layers[k]).drawn_for(source)
                &&& out == composite(source, layers)
            };
        assert(out == blank(source));
    }
    assert(source.bytes.len() == source.pixels() * 4);
}

} // verus!
