//! The pixel buffer that every effect reads and writes.

use vstd::prelude::*;

verus! {

/// Layout of one pixel in a buffer.
#[derive(Clone, Copy, Debug, PartialEq, Eq, Structural)]
pub enum PixelFormat {
    /// Red, green, blue.
    Rgb,
    /// Red, green, blue, alpha.
    Rgba,
}

impl PixelFormat {
    /// Bytes per pixel.
    pub open spec fn channels(self) -> nat {
        match self {
            PixelFormat::Rgb => 3,
            PixelFormat::Rgba => 4,
        }
    }

    /// Bytes per pixel.
    pub fn channel_count(self) -> (n: usize)
        ensures
            n == self.channels(),
    {
        match self {
            PixelFormat::Rgb => 3,
            PixelFormat::Rgba => 4,
        }
    }
}

/// Mathematical model of a pixel buffer: its dimensions and its bytes, row by
/// row, pixel by pixel, channel by channel.
pub struct Raster {
    pub width: nat,
    pub height: nat,
    pub channels: nat,
    pub bytes: Seq<u8>,
}

impl Raster {
    /// The buffer holds exactly one byte per channel of every pixel.
    pub open spec fn wf(self) -> bool {
        &&& self.channels == 3 || self.channels == 4
        &&& self.bytes.len() == self.width * self.height * self.channels
    }

    /// Number of pixels.
    pub open spec fn pixels(self) -> nat {
        self.width * self.height
    }

    /// Position in `bytes` of channel `c` of the pixel in column `x`, row `y`.
    pub open spec fn offset(self, x: int, y: int, c: int) -> int {
        (y * self.width + x) * self.channels + c
    }

    /// Same dimensions and layout as `other`, whatever the bytes.
    pub open spec fn same_shape(self, other: Raster) -> bool {
        &&& self.width == other.width
        &&& self.height == other.height
        &&& self.channels == other.channels
        &&& self.bytes.len() == other.bytes.len()
    }
}

/// The bytes of a four-channel buffer with every fourth byte left out.
pub open spec fn drop_alpha(bytes: Seq<u8>) -> Seq<u8> {
    Seq::new((bytes.len() / 4 * 3) as nat, |i: int| bytes[i / 3 * 4 + i % 3])
}

/// The three-channel image that a buffer is saved as: alpha is dropped, colour
/// is kept as it is.
pub open spec fn flattened(r: Raster) -> Raster {
    if r.channels == 4 {
        Raster { width: r.width, height: r.height, channels: 3, bytes: drop_alpha(r.bytes) }
    } else {
        r
    }
}

/// A four-channel buffer read as if it had three channels to the pixel: the
/// first three quarters of its bytes, taken as they come.
pub open spec fn reread_as_rgb(r: Raster) -> Raster {
    Raster {
        width: r.width,
        height: r.height,
        channels: 3,
        bytes: r.bytes.take((r.width * r.height * 3) as int),
    }
}

/// In a buffer of `width * height` pixels of `channels` bytes, every channel of
/// every pixel lies inside the buffer.
pub proof fn lemma_offset_in_bounds(width: nat, height: nat, channels: nat, x: nat, y: nat, c: nat)
    requires
        x < width,
        y < height,
        c < channels,
    ensures
        y * width <= y * width + x < width * height,
        width * height <= width * height * channels,
        (y * width + x) * channels + c < width * height * channels,
{
    let p = y * width + x;
    let n = width * height;
    assert(p + 1 <= n) by {
        vstd::arithmetic::mul::lemma_mul_inequality(y as int + 1, height as int, width as int);
        vstd::arithmetic::mul::lemma_mul_is_distributive_add_other_way(width as int, y as int, 1);
        vstd::arithmetic::mul::lemma_mul_is_commutative(width as int, height as int);
    }
    assert(p * channels + channels <= n * channels) by {
        vstd::arithmetic::mul::lemma_mul_inequality(p as int + 1, n as int, channels as int);
        vstd::arithmetic::mul::lemma_mul_is_distributive_add_other_way(
            channels as int,
            p as int,
            1,
        );
    }
    assert(n <= n * channels) by {
        vstd::arithmetic::mul::lemma_mul_inequality(1, channels as int, n as int);
        vstd::arithmetic::mul::lemma_mul_is_commutative(n as int, channels as int);
    }
}

/// An owned raster image: `width * height` pixels of three or four bytes each.
#[derive(Clone, Debug)]
pub struct PixelBuffer {
    width: u32,
    height: u32,
    format: PixelFormat,
    data: Vec<u8>,
}

impl View for PixelBuffer {
    type V = Raster;

    closed spec fn view(&self) -> Raster {
        Raster {
            width: self.width as nat,
            height: self.height as nat,
            channels: self.format.channels(),
            bytes: self.data@,
        }
    }
}

impl PixelBuffer {
    /// The invariant of every buffer that this library hands out.
    pub open spec fn wf(&self) -> bool {
        self@.wf()
    }

    /// Wraps `data` as an image of the given dimensions. The length of `data`
    /// must be exactly `width * height` pixels.
    pub fn from_raw(width: u32, height: u32, format: PixelFormat, data: Vec<u8>) -> (out: Option<
        PixelBuffer,
    >)
        ensures
            out is Some <==> data@.len() == width * height * format.channels(),
            out matches Some(buffer) ==> {
                &&& buffer.wf()
                &&& buffer@.width == width
                &&& buffer@.height == height
                &&& buffer@.channels == format.channels()
                &&& buffer@.bytes == data@
            },
    {
        assert(width * height <= 0xFFFF_FFFF * 0xFFFF_FFFF) by (nonlinear_arith)
            requires
                width <= 0xFFFF_FFFF,
                height <= 0xFFFF_FFFF,
        ;
        let pixels: u64 = (width as u64) * (height as u64);
        let wanted: u128 = (pixels as u128) * (format.channel_count() as u128);
        if data.len() as u128 == wanted {
            Some(PixelBuffer { width, height, format, data })
        } else {
            None
        }
    }

    /// A buffer of the same dimensions and layout with every byte zero.
    pub fn blank_like(&self) -> (out: PixelBuffer)
        requires
            self.wf(),
        ensures
            out.wf(),
            out@.same_shape(self@),
            forall|i: int| 0 <= i < out@.bytes.len() ==> out@.bytes[i] == 0,
    {
        let data: Vec<u8> = vec![0u8; self.data.len()];
        PixelBuffer { width: self.width, height: self.height, format: self.format, data }
    }

    /// A buffer of the same dimensions and layout over other bytes.
    pub fn with_data(&self, data: Vec<u8>) -> (out: PixelBuffer)
        requires
            self.wf(),
            data@.len() == self@.bytes.len(),
        ensures
            out.wf(),
            out@.same_shape(self@),
            out@.bytes == data@,
    {
        PixelBuffer { width: self.width, height: self.height, format: self.format, data }
    }

    /// Width in pixels.
    pub fn width(&self) -> (w: u32)
        ensures
            w == self@.width,
    {
        self.width
    }

    /// Height in pixels.
    pub fn height(&self) -> (h: u32)
        ensures
            h == self@.height,
    {
        self.height
    }

    /// Layout of one pixel.
    pub fn format(&self) -> (f: PixelFormat)
        ensures
            f.channels() == self@.channels,
    {
        self.format
    }

    /// Whether the buffer carries an alpha channel.
    pub fn is_rgba(&self) -> (yes: bool)
        ensures
            yes <==> self@.channels == 4,
    {
        self.format == PixelFormat::Rgba
    }

    /// Number of bytes in the buffer.
    pub fn len(&self) -> (n: usize)
        ensures
            n == self@.bytes.len(),
    {
        self.data.len()
    }

    /// The bytes, row by row.
    pub fn data(&self) -> (bytes: &Vec<u8>)
        ensures
            bytes@ == self@.bytes,
    {
        &self.data
    }

    /// The byte at position `at`.
    pub fn byte(&self, at: usize) -> (value: u8)
        requires
            at < self@.bytes.len(),
        ensures
            value == self@.bytes[at as int],
    {
        self.data[at]
    }

    /// Overwrites the byte at position `at`.
    pub fn put(&mut self, at: usize, value: u8)
        requires
            at < old(self)@.bytes.len(),
        ensures
            final(self)@.same_shape(old(self)@),
            final(self)@.bytes == old(self)@.bytes.update(at as int, value),
    {
        self.data.set(at, value);
    }

    /// Gives up the buffer for its bytes.
    pub fn into_raw(self) -> (bytes: Vec<u8>)
        ensures
            bytes@ == self@.bytes,
    {
        self.data
    }

    /// Position in the buffer of the first byte of the pixel in column `x`,
    /// row `y`.
    pub fn pixel_start(&self, x: u32, y: u32) -> (at: usize)
        requires
            self.wf(),
            x < self@.width,
            y < self@.height,
        ensures
            at == self@.offset(x as int, y as int, 0),
            at + self@.channels <= self@.bytes.len(),
    {
        proof {
            lemma_offset_in_bounds(
                self@.width,
                self@.height,
                self@.channels,
                x as nat,
                y as nat,
                0,
            );
            lemma_offset_in_bounds(
                self@.width,
                self@.height,
                self@.channels,
                x as nat,
                y as nat,
                (self@.channels - 1) as nat,
            );
            assert(self@.bytes.len() == self.data.len());
            assert(y * self.width + x < self@.width * self@.height <= self.data.len());
        }
        let pixel: usize = (y as usize) * (self.width as usize) + (x as usize);
        pixel * self.format.channel_count()
    }

    /// The buffer read as if it had three channels to the pixel: colour and
    /// alpha run into one another, and the last quarter of the bytes is left
    /// out.
    pub fn reread_as_rgb(&self) -> (out: PixelBuffer)
        requires
            self.wf(),
            self@.channels == 4,
        ensures
            out.wf(),
            out@ == reread_as_rgb(self@),
    {
        let keep: usize = self.data.len() / 4 * 3;
        let mut rgb: Vec<u8> = Vec::new();
        let mut i: usize = 0;
        while i < keep
            invariant
                i <= keep <= self.data@.len(),
                rgb@.len() == i,
                forall|j: int| 0 <= j < i ==> rgb@[j] == self.data@[j],
            decreases keep - i,
        {
            rgb.push(self.data[i]);
            i = i + 1;
        }
        proof {
            let pixels = self@.width * self@.height;
            assert(self.data@.len() == pixels * 4);
            let len = self.data@.len();
            assert(len / 4 == pixels) by (nonlinear_arith)
                requires
                    len == pixels * 4,
            ;
            assert(rgb@ =~= self.data@.take((pixels * 3) as int));
        }
        PixelBuffer { width: self.width, height: self.height, format: PixelFormat::Rgb, data: rgb }
    }

    /// The image as it is saved: three channels, alpha dropped.
    pub fn flatten(&self) -> (out: PixelBuffer)
        requires
            self.wf(),
        ensures
            out.wf(),
            out@ == flattened(self@),
    {
        match self.format {
            PixelFormat::Rgb => PixelBuffer {
                width: self.width,
                height: self.height,
                format: PixelFormat::Rgb,
                data: self.data.clone(),
            },
            PixelFormat::Rgba => {
                let count: usize = self.data.len() / 4;
                let mut rgb: Vec<u8> = Vec::new();
                let mut p: usize = 0;
                while p < count
                    invariant
                        count == self.data@.len() / 4,
                        count * 4 <= self.data.len(),
                        p <= count,
                        rgb@.len() == 3 * p,
                        forall|i: int|
                            0 <= i < rgb@.len() ==> rgb@[i] == self.data@[i / 3 * 4 + i % 3],
                    decreases count - p,
                {
                    rgb.push(self.data[4 * p]);
                    rgb.push(self.data[4 * p + 1]);
                    rgb.push(self.data[4 * p + 2]);
                    p = p + 1;
                }
                proof {
                    let pixels = self@.width * self@.height;
                    assert(self.data@.len() == pixels * 4);
                    let len = self.data@.len();
                    assert(len / 4 == pixels) by (nonlinear_arith)
                        requires
                            len == pixels * 4,
                    ;
                    assert(rgb@.len() == pixels * 3);
                    assert(rgb@ =~= drop_alpha(self.data@));
                }
                PixelBuffer {
                    width: self.width,
                    height: self.height,
                    format: PixelFormat::Rgb,
                    data: rgb,
                }
            },
        }
    }
}

} // verus!
