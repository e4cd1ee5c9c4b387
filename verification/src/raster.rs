//! Grayscale images, stored in the `image` crate's pixel buffer.

use vstd::prelude::*;

verus! {

/// The storage of a grayscale image: an `image::GrayImage`, one byte per
/// pixel, row by row.
///
/// The buffer type is generic over a pixel trait of the `image` crate, so the
/// verifier is shown none of it: what a buffer holds is named by
/// [`buffer_width`], [`buffer_height`] and [`buffer_pixels`], and everything
/// known of those names comes from the contracts of the four functions below
/// that call into the crate.
#[verifier::external_body]
pub struct GrayBuffer {
    image: image::GrayImage,
}

/// The number of pixels in a row of the buffer.
pub uninterp spec fn buffer_width(buffer: GrayBuffer) -> nat;

/// The number of rows of the buffer.
pub uninterp spec fn buffer_height(buffer: GrayBuffer) -> nat;

/// The pixels of the buffer, row by row from the top, each row from the left:
/// the first `width * height` samples of the container it was made from.
pub uninterp spec fn buffer_pixels(buffer: GrayBuffer) -> Seq<u8>;

/// Calls `ImageBuffer::from_raw` for one-byte grayscale pixels.
///
/// Claimed of it: it succeeds exactly when the container holds at least
/// `width * height` samples, and the buffer it then returns has the given
/// dimensions and, as its pixels, the first `width * height` samples of the
/// container.
#[verifier::external_body]
fn buffer_from_raw(width: u32, height: u32, samples: Vec<u8>) -> (r: Option<GrayBuffer>)
    ensures
        r is Some <==> width * height <= samples@.len(),
        r matches Some(b) ==> buffer_width(b) == width && buffer_height(b) == height
            && buffer_pixels(b) == samples@.subrange(0, width * height),
{
    match image::ImageBuffer::from_raw(width, height, samples) {
        Some(image) => Some(GrayBuffer { image }),
        None => None,
    }
}

/// Calls `ImageBuffer::width`, which returns the width the buffer was made
/// with.
#[verifier::external_body]
fn buffer_get_width(buffer: &GrayBuffer) -> (w: u32)
    ensures
        w == buffer_width(*buffer),
{
    buffer.image.width()
}

/// Calls `ImageBuffer::height`, which returns the height the buffer was made
/// with.
#[verifier::external_body]
fn buffer_get_height(buffer: &GrayBuffer) -> (h: u32)
    ensures
        h == buffer_height(*buffer),
{
    buffer.image.height()
}

/// Calls `ImageBuffer::get_pixel` and takes the one channel of the pixel.
///
/// Claimed of it: for a position inside the image it returns the sample at
/// index `y * width + x`. Outside the image the call panics, so such
/// positions are excluded.
#[verifier::external_body]
fn buffer_get_pixel(buffer: &GrayBuffer, x: u32, y: u32) -> (p: u8)
    requires
        x < buffer_width(*buffer),
        y < buffer_height(*buffer),
        y * buffer_width(*buffer) + x < buffer_pixels(*buffer).len(),
    ensures
        p == buffer_pixels(*buffer)[y * buffer_width(*buffer) + x],
{
    buffer.image.get_pixel(x, y).0[0]
}

/// What an image is, mathematically: its dimensions and its pixels in raster
/// order, so that the pixel at column `x` of row `y` is
/// `pixels[y * width + x]`.
pub struct RasterView {
    pub width: nat,
    pub height: nat,
    pub pixels: Seq<u8>,
}

impl RasterView {
    /// There is exactly one sample for each position.
    pub open spec fn wf(self) -> bool {
        self.pixels.len() == self.width * self.height
    }

    /// The sample at column `x` of row `y`.
    pub open spec fn at(self, x: int, y: int) -> u8
        recommends
            0 <= x < self.width,
            0 <= y < self.height,
    {
        self.pixels[y * self.width + x]
    }
}

/// A grayscale image of `width` by `height` pixels, one byte each.
pub struct Raster {
    buffer: GrayBuffer,
}

impl View for Raster {
    type V = RasterView;

    closed spec fn view(&self) -> RasterView {
        RasterView {
            width: buffer_width(self.buffer),
            height: buffer_height(self.buffer),
            pixels: buffer_pixels(self.buffer),
        }
    }
}

/// The raster index `y * width + x` of a position inside an image lies
/// inside its pixel sequence.
pub proof fn lemma_raster_index(x: int, y: int, width: int, height: int)
    requires
        0 <= x < width,
        0 <= y < height,
    ensures
        0 <= y * width + x < width * height,
        y * width + x < (y + 1) * width,
{
    assert(y * width + x < width * height && 0 <= y * width && (y + 1) * width == y * width
        + width) by (nonlinear_arith)
        requires
            0 <= x < width,
            0 <= y < height,
    ;
}

impl Raster {
    #[verifier::type_invariant]
    spec fn inv(self) -> bool {
        &&& self@.wf()
        &&& self@.width <= u32::MAX
        &&& self@.height <= u32::MAX
        &&& self@.pixels.len() <= usize::MAX
    }

    /// Makes an image of the given dimensions from samples in raster order.
    ///
    /// There must be at least `width * height` samples; the image holds the
    /// first `width * height` of them.
    pub fn from_raw(width: u32, height: u32, samples: Vec<u8>) -> (r: Option<Raster>)
        ensures
            r is Some <==> width * height <= samples@.len(),
            r matches Some(image) ==> image@ == (RasterView {
                width: width as nat,
                height: height as nat,
                pixels: samples@.subrange(0, width * height),
            }),
    {
        proof {
            assert(samples.len() == samples@.len());
        }
        match buffer_from_raw(width, height, samples) {
            Some(buffer) => {
                Some(Raster { buffer })
            },
            None => None,
        }
    }

    /// The number of pixels in a row.
    pub fn width(&self) -> (w: u32)
        ensures
            w == self@.width,
            self@.wf(),
            self@.pixels.len() <= usize::MAX,
    {
        proof {
            use_type_invariant(self);
        }
        buffer_get_width(&self.buffer)
    }

    /// The number of rows.
    pub fn height(&self) -> (h: u32)
        ensures
            h == self@.height,
            self@.wf(),
            self@.pixels.len() <= usize::MAX,
    {
        proof {
            use_type_invariant(self);
        }
        buffer_get_height(&self.buffer)
    }

    /// The sample at column `x` of row `y`.
    pub fn get_pixel(&self, x: u32, y: u32) -> (p: u8)
        requires
            x < self@.width,
            y < self@.height,
        ensures
            p == self@.at(x as int, y as int),
    {
        proof {
            use_type_invariant(self);
            lemma_raster_index(x as int, y as int, self@.width as int, self@.height as int);
        }
        buffer_get_pixel(&self.buffer, x, y)
    }

    /// The samples of the image in raster order.
    pub fn to_vec(&self) -> (samples: Vec<u8>)
        ensures
            samples@ == self@.pixels,
    {
        let width: u32 = self.width();
        let height: u32 = self.height();
        let mut samples: Vec<u8> = Vec::with_capacity(width as usize * height as usize);
        let mut y: u32 = 0;
        while y < height
            invariant
                width == self@.width,
                height == self@.height,
                self@.wf(),
                y <= height,
                samples@.len() == y * width,
                samples@.len() <= self@.pixels.len(),
                forall|i: int| 0 <= i < samples@.len() ==> samples@[i] == self@.pixels[i],
            decreases height - y,
        {
            let mut x: u32 = 0;
            while x < width
                invariant
                    width == self@.width,
                    height == self@.height,
                    self@.wf(),
                    y < height,
                    x <= width,
                    samples@.len() == y * width + x,
                    samples@.len() <= self@.pixels.len(),
                    forall|i: int| 0 <= i < samples@.len() ==> samples@[i] == self@.pixels[i],
                decreases width - x,
            {
                proof {
                    lemma_raster_index(x as int, y as int, width as int, height as int);
                }
                samples.push(self.get_pixel(x, y));
                x += 1;
            }
            y += 1;
            proof {
                assert((y - 1) * width + width == y * width) by (nonlinear_arith);
            }
        }
        proof {
            assert(height * width == width * height) by (nonlinear_arith);
            assert(samples@ =~= self@.pixels);
        }
        samples
    }
}

} // verus!
