//! What holds of every convolution.

use crate::edge::{lemma_lands_inside, project_axis, EdgeMode};
use crate::engine::{is_convolution, reach_fits, reduces_to, sample_at, window};
use crate::raster::{lemma_raster_index, RasterView};
use vstd::arithmetic::div_mod::{
    lemma_fundamental_div_mod,
    lemma_fundamental_div_mod_converse,
    lemma_mod_bound,
};
use vstd::prelude::*;

verus! {

/// Whether `reduce` is a function of the samples: two calls on vectors that
/// hold the same samples return the same byte.
pub open spec fn is_deterministic<F: Fn(Vec<u8>) -> u8>(reduce: F) -> bool {
    forall|v: Vec<u8>, w: Vec<u8>, a: u8, b: u8|
        v@ == w@ && #[trigger] reduce.ensures((v,), a) && #[trigger] reduce.ensures((w,), b) ==> a
            == b
}

/// Whether `reduce` returns the centre sample of a neighbourhood of the given
/// side, as the kernel does whose centre weight is one and whose other
/// weights are zero.
pub open spec fn returns_centre<F: Fn(Vec<u8>) -> u8>(reduce: F, side: nat) -> bool {
    forall|v: Vec<u8>, a: u8|
        v@.len() == side * side && #[trigger] reduce.ensures((v,), a) ==> a == v@[(side as int
            * side as int) / 2]
}

/// A position inside the image has the raster index `y * width + x`, and is
/// found again from it by division.
pub proof fn lemma_position_of_index(i: int, width: int, height: int)
    requires
        0 <= i < width * height,
        0 <= width,
        0 <= height,
    ensures
        0 <= i % width < width,
        0 <= i / width < height,
        i == (i / width) * width + i % width,
{
    assert(width > 0) by (nonlinear_arith)
        requires
            0 <= i < width * height,
            0 <= width,
            0 <= height,
    ;
    lemma_fundamental_div_mod(i, width);
    lemma_mod_bound(i, width);
    let q = i / width;
    let r = i % width;
    assert(i == width * q + r);
    assert(0 <= q < height) by (nonlinear_arith)
        requires
            i == width * q + r,
            0 <= r < width,
            0 <= i < width * height,
    ;
    assert(width * q == q * width) by (nonlinear_arith);
}

/// The centre cell of a neighbourhood holds the pixel itself, whatever the
/// edge mode.
pub proof fn lemma_window_centre(image: RasterView, x: int, y: int, side: int, mode: EdgeMode)
    requires
        0 <= x < image.width,
        0 <= y < image.height,
        0 < side,
        side % 2 == 1,
    ensures
        window(image, x, y, side, mode).len() == side * side,
        0 <= (side * side) / 2 < side * side,
        window(image, x, y, side, mode)[(side * side) / 2] == image.at(x, y),
{
    let half = side / 2;
    assert(side == 2 * half + 1);
    let centre = half * side + half;
    assert(side * side == 2 * centre + 1) by (nonlinear_arith)
        requires
            side == 2 * half + 1,
            centre == half * side + half,
    ;
    assert(centre == (side * side) / 2);
    lemma_fundamental_div_mod_converse(centre, side, half, half);
    assert(0 <= side * side) by (nonlinear_arith);
    assert(sample_at(image, x + half - half, y + half - half, mode) == image.at(x, y));
}

/// A kernel of one cell sees the pixel itself and nothing else.
pub proof fn lemma_unit_window(image: RasterView, x: int, y: int, mode: EdgeMode)
    requires
        0 <= x < image.width,
        0 <= y < image.height,
    ensures
        window(image, x, y, 1, mode) == seq![image.at(x, y)],
{
    lemma_window_centre(image, x, y, 1, mode);
    assert(window(image, x, y, 1, mode) =~= seq![image.at(x, y)]);
}

/// Every sample of a neighbourhood is a pixel of the image, provided the
/// kernel can be laid on the image.
pub proof fn lemma_window_samples_are_pixels(
    image: RasterView,
    x: int,
    y: int,
    side: int,
    mode: EdgeMode,
    cell: int,
)
    requires
        image.wf(),
        0 <= x < image.width,
        0 <= y < image.height,
        0 < side,
        side % 2 == 1,
        reach_fits(image.width, image.height, (side / 2) as nat, mode),
        0 <= cell < side * side,
    ensures
        exists|i: int|
            0 <= i < image.pixels.len() && window(image, x, y, side, mode)[cell]
                == #[trigger] image.pixels[i],
{
    lemma_position_of_index(cell, side, side);
    let sx = x + cell % side - side / 2;
    let sy = y + cell / side - side / 2;
    lemma_lands_inside(sx, image.width as int, mode);
    lemma_lands_inside(sy, image.height as int, mode);
    let px = project_axis(sx, image.width as int, mode);
    let py = project_axis(sy, image.height as int, mode);
    lemma_raster_index(px, py, image.width as int, image.height as int);
    assert(window(image, x, y, side, mode)[cell] == image.pixels[py * image.width + px]);
}

/// In a convolution the pixel at column `x` of row `y` is what the reduction
/// returned for the neighbourhood of `(x, y)` in the source.
pub proof fn lemma_convolution_at<F: Fn(Vec<u8>) -> u8>(
    source: RasterView,
    side: nat,
    mode: EdgeMode,
    reduce: F,
    result: RasterView,
    x: int,
    y: int,
)
    requires
        is_convolution(source, side, mode, reduce, result),
        0 <= x < source.width,
        0 <= y < source.height,
    ensures
        reduces_to(reduce, window(source, x, y, side as int, mode), result.at(x, y)),
{
    let width = source.width as int;
    lemma_raster_index(x, y, width, source.height as int);
    lemma_fundamental_div_mod_converse(y * width + x, width, y, x);
    assert(result.at(x, y) == result.pixels[y * width + x]);
}

/// Identity: a reduction that returns the centre sample, as the kernel of the
/// single weight one does, gives back the image it was run on, sample for
/// sample, under every edge mode.
pub proof fn lemma_identity<F: Fn(Vec<u8>) -> u8>(
    source: RasterView,
    side: nat,
    mode: EdgeMode,
    reduce: F,
    result: RasterView,
)
    requires
        source.wf(),
        side % 2 == 1,
        returns_centre(reduce, side),
        is_convolution(source, side, mode, reduce, result),
    ensures
        result == source,
{
    assert forall|i: int| 0 <= i < result.pixels.len() implies result.pixels[i]
        == source.pixels[i] by {
        lemma_position_of_index(i, source.width as int, source.height as int);
        let x = i % (source.width as int);
        let y = i / (source.width as int);
        lemma_window_centre(source, x, y, side as int, mode);
        let samples = window(source, x, y, side as int, mode);
        assert(reduces_to(reduce, samples, result.pixels[i]));
        let v = choose|v: Vec<u8>| v@ == samples && #[trigger] reduce.ensures(
            (v,),
            result.pixels[i],
        );
        assert(result.pixels[i] == v@[(side as int * side as int) / 2]);
    }
    assert(result.pixels =~= source.pixels);
}

/// Determinism: where the reduction is a function of the samples, the
/// convolution is a function of the image, the kernel's side and the edge
/// mode. Two results for the same inputs are the same image.
pub proof fn lemma_deterministic<F: Fn(Vec<u8>) -> u8>(
    source: RasterView,
    side: nat,
    mode: EdgeMode,
    reduce: F,
    first: RasterView,
    second: RasterView,
)
    requires
        is_deterministic(reduce),
        is_convolution(source, side, mode, reduce, first),
        is_convolution(source, side, mode, reduce, second),
    ensures
        first == second,
{
    assert(first.pixels.len() == second.pixels.len());
    assert forall|i: int| 0 <= i < first.pixels.len() implies first.pixels[i]
        == second.pixels[i] by {
        let samples = window(
            source,
            i % (source.width as int),
            i / (source.width as int),
            side as int,
            mode,
        );
        assert(reduces_to(reduce, samples, first.pixels[i]));
        assert(reduces_to(reduce, samples, second.pixels[i]));
        let v = choose|v: Vec<u8>| v@ == samples && #[trigger] reduce.ensures(
            (v,),
            first.pixels[i],
        );
        let w = choose|w: Vec<u8>| w@ == samples && #[trigger] reduce.ensures(
            (w,),
            second.pixels[i],
        );
        assert(v@ == w@);
    }
    assert(first.pixels =~= second.pixels);
}

} // verus!
