//! The convolution engine: the neighbourhood of a pixel, and the image made
//! by reducing every neighbourhood to a sample.

use crate::edge::{edge_project, lands_inside, lemma_lands_inside, project_axis, EdgeMode};
use crate::kernel::{ConvolutionError, KernelShape};
use crate::raster::{lemma_raster_index, Raster, RasterView};
use vstd::arithmetic::div_mod::lemma_fundamental_div_mod_converse;
use vstd::prelude::*;

verus! {

/// The sample read for the position `(x, y)`, which may lie outside the
/// image: the pixel at the position that `(x, y)` resolves to.
pub open spec fn sample_at(image: RasterView, x: int, y: int, mode: EdgeMode) -> u8 {
    image.at(
        project_axis(x, image.width as int, mode),
        project_axis(y, image.height as int, mode),
    )
}

/// The neighbourhood of the pixel `(x, y)` under a kernel of the given side:
/// one sample for each cell of the kernel, in the order of the cells, row by
/// row. The cell in column `cx` of row `cy` gets the sample read for
/// `(x + cx - side / 2, y + cy - side / 2)`.
pub open spec fn window(image: RasterView, x: int, y: int, side: int, mode: EdgeMode) -> Seq<u8> {
    Seq::new(
        (side * side) as nat,
        |cell: int| sample_at(image, x + cell % side - side / 2, y + cell / side - side / 2, mode),
    )
}

/// Whether a kernel that reaches `offset` pixels from its centre can be laid
/// on every pixel of a `width` by `height` image: each sample it asks for
/// resolves to a position of the image. `Extend` always does; `Wrap` and
/// `Mirror` go back by one image length at most, so the kernel must not
/// reach further than that.
pub open spec fn reach_fits(width: nat, height: nat, offset: nat, mode: EdgeMode) -> bool {
    mode == EdgeMode::Extend || (offset <= width && offset <= height)
}

/// Tells whether a kernel of the given shape can be laid on every pixel of
/// the image under the given edge mode. On an image without pixels any
/// kernel can.
pub fn kernel_fits(image: &Raster, shape: &KernelShape, edge_mode: &EdgeMode) -> (fits: bool)
    ensures
        fits == (image@.width == 0 || image@.height == 0 || reach_fits(
            image@.width,
            image@.height,
            shape@ / 2,
            *edge_mode,
        )),
{
    let width: u32 = image.width();
    let height: u32 = image.height();
    let offset: usize = shape.offset();
    match *edge_mode {
        EdgeMode::Extend => true,
        _ => width == 0 || height == 0 || (offset <= width as usize && offset <= height as usize),
    }
}

/// Reads the sample for the position `(x, y)`, resolving it first.
pub fn get_pixel(image: &Raster, x: i64, y: i64, edge_mode: &EdgeMode) -> (p: u8)
    requires
        lands_inside(x as int, image@.width as int, *edge_mode),
        lands_inside(y as int, image@.height as int, *edge_mode),
    ensures
        p == sample_at(image@, x as int, y as int, *edge_mode),
{
    let (proj_x, proj_y) = edge_project(x, y, image.width(), image.height(), edge_mode);
    image.get_pixel(proj_x, proj_y)
}

/// Gathers the neighbourhood of the pixel `(x, y)`.
pub fn neighborhood(
    image: &Raster,
    x: u32,
    y: u32,
    shape: &KernelShape,
    edge_mode: &EdgeMode,
) -> (samples: Vec<u8>)
    requires
        x < image@.width,
        y < image@.height,
        reach_fits(image@.width, image@.height, shape@ / 2, *edge_mode),
    ensures
        samples@ == window(image@, x as int, y as int, shape@ as int, *edge_mode),
{
    let size: usize = shape.get_size();
    let offset: usize = shape.offset();
    let width: u32 = image.width();
    let height: u32 = image.height();
    let ghost side: int = size as int;
    let ghost expected: Seq<u8> = window(image@, x as int, y as int, side, *edge_mode);
    let mut samples: Vec<u8> = Vec::with_capacity(shape.cell_count());
    let mut row: usize = 0;
    while row < size
        invariant
            side == size == shape@,
            2 * offset + 1 == size,
            size <= u32::MAX,
            size * size <= usize::MAX,
            expected.len() == size * size,
            width == image@.width,
            height == image@.height,
            x < width,
            y < height,
            reach_fits(image@.width, image@.height, offset as nat, *edge_mode),
            expected == window(image@, x as int, y as int, side, *edge_mode),
            row <= size,
            samples@.len() == row * size,
            samples@.len() <= expected.len(),
            forall|cell: int| 0 <= cell < samples@.len() ==> samples@[cell] == expected[cell],
        decreases size - row,
    {
        let mut col: usize = 0;
        while col < size
            invariant
                side == size == shape@,
                2 * offset + 1 == size,
                size <= u32::MAX,
            size * size <= usize::MAX,
            expected.len() == size * size,
                width == image@.width,
                height == image@.height,
                x < width,
                y < height,
                reach_fits(image@.width, image@.height, offset as nat, *edge_mode),
                expected == window(image@, x as int, y as int, side, *edge_mode),
                row < size,
                col <= size,
                samples@.len() == row * size + col,
                samples@.len() <= expected.len(),
                forall|cell: int| 0 <= cell < samples@.len() ==> samples@[cell] == expected[cell],
            decreases size - col,
        {
            let ghost cell: int = row * size + col;
            proof {
                lemma_fundamental_div_mod_converse(cell, side, row as int, col as int);
                lemma_raster_index(col as int, row as int, side, side);
                lemma_lands_inside(x + col - offset, width as int, *edge_mode);
                lemma_lands_inside(y + row - offset, height as int, *edge_mode);
            }
            let p: u8 = get_pixel(
                image,
                x as i64 + (col as i64 - offset as i64),
                y as i64 + (row as i64 - offset as i64),
                edge_mode,
            );
            samples.push(p);
            col += 1;
        }
        row += 1;
        proof {
            assert((row - 1) * size + size == row * size) by (nonlinear_arith);
        }
    }
    assert(samples@ =~= expected);
    samples
}

/// Whether `reduce`, called on a vector that holds `samples`, may return
/// `sample`.
pub open spec fn reduces_to<F: Fn(Vec<u8>) -> u8>(reduce: F, samples: Seq<u8>, sample: u8) -> bool {
    exists|v: Vec<u8>| v@ == samples && #[trigger] reduce.ensures((v,), sample)
}

/// Whether `result` is a convolution of `source`: an image of the same
/// dimensions, in which every pixel is what `reduce` returned for the
/// neighbourhood of that pixel in `source`.
pub open spec fn is_convolution<F: Fn(Vec<u8>) -> u8>(
    source: RasterView,
    side: nat,
    mode: EdgeMode,
    reduce: F,
    result: RasterView,
) -> bool {
    &&& result.width == source.width
    &&& result.height == source.height
    &&& result.wf()
    &&& forall|i: int|
        0 <= i < result.pixels.len() ==> reduces_to(
            reduce,
            window(source, i % (source.width as int), i / (source.width as int), side as int, mode),
            #[trigger] result.pixels[i],
        )
}

/// Convolves an image: lays the kernel on every pixel in turn, row by row
/// from the top and each row from the left, hands the neighbourhood to
/// `reduce`, and makes a new image of the samples that come back.
///
/// `reduce` gets one sample for each cell of the kernel, in the order of the
/// cells; it stands for the weighted sum and its adjustment to a byte.
pub fn convolve<F: Fn(Vec<u8>) -> u8>(
    image_in: &Raster,
    shape: &KernelShape,
    edge_mode: &EdgeMode,
    reduce: F,
) -> (r: Result<Raster, ConvolutionError>)
    requires
        image_in@.width == 0 || image_in@.height == 0 || reach_fits(
            image_in@.width,
            image_in@.height,
            shape@ / 2,
            *edge_mode,
        ),
        forall|samples: Vec<u8>| samples@.len() == shape@ * shape@ ==> reduce.requires((samples,)),
    ensures
        r matches Ok(image_out) && is_convolution(
            image_in@,
            shape@,
            *edge_mode,
            reduce,
            image_out@,
        ),
{
    let width: u32 = image_in.width();
    let height: u32 = image_in.height();
    let ghost span: int = width as int;
    let mut build: Vec<u8> = Vec::with_capacity(width as usize * height as usize);
    let mut y: u32 = 0;
    while y < height
        invariant
            width == image_in@.width == span,
            height == image_in@.height,
            image_in@.wf(),
            image_in@.pixels.len() <= usize::MAX,
            width == 0 || height == 0 || reach_fits(
                image_in@.width,
                image_in@.height,
                shape@ / 2,
                *edge_mode,
            ),
            forall|samples: Vec<u8>|
                samples@.len() == shape@ * shape@ ==> reduce.requires((samples,)),
            y <= height,
            build@.len() == y * width,
            forall|i: int|
                0 <= i < build@.len() ==> reduces_to(
                    reduce,
                    window(image_in@, i % span, i / span, shape@ as int, *edge_mode),
                    #[trigger] build@[i],
                ),
        decreases height - y,
    {
        let mut x: u32 = 0;
        while x < width
            invariant
                width == image_in@.width == span,
                height == image_in@.height,
                image_in@.wf(),
                image_in@.pixels.len() <= usize::MAX,
                width == 0 || reach_fits(
                    image_in@.width,
                    image_in@.height,
                    shape@ / 2,
                    *edge_mode,
                ),
                forall|samples: Vec<u8>|
                    samples@.len() == shape@ * shape@ ==> reduce.requires((samples,)),
                y < height,
                x <= width,
                build@.len() == y * width + x,
                forall|i: int|
                    0 <= i < build@.len() ==> reduces_to(
                        reduce,
                        window(image_in@, i % span, i / span, shape@ as int, *edge_mode),
                        #[trigger] build@[i],
                    ),
            decreases width - x,
        {
            let ghost i: int = y * width + x;
            proof {
                lemma_fundamental_div_mod_converse(i, span, y as int, x as int);
                lemma_raster_index(x as int, y as int, span, height as int);
            }
            let samples: Vec<u8> = neighborhood(image_in, x, y, shape, edge_mode);
            let ghost gathered: Seq<u8> = samples@;
            assert(gathered.len() == shape@ * shape@);
            let sample: u8 = reduce(samples);
            assert(reduces_to(reduce, gathered, sample));
            build.push(sample);
            x += 1;
        }
        y += 1;
        proof {
            assert((y - 1) * width + width == y * width) by (nonlinear_arith);
        }
    }
    let ghost built: Seq<u8> = build@;
    proof {
        assert(height * width == width * height) by (nonlinear_arith);
    }
    let image_out: Raster = Raster::from_raw(width, height, build).unwrap();
    proof {
        assert(image_out@.pixels =~= built);
    }
    Ok(image_out)
}

} // verus!
