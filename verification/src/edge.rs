//! Resolution of sample coordinates that fall outside the image.

use vstd::prelude::*;

verus! {

/// How a sample requested outside the image is mapped back into it.
#[derive(Clone, Copy, PartialEq, Eq, Debug, Structural)]
pub enum EdgeMode {
    /// Repeat the nearest edge pixel.
    Extend,
    /// Continue on the opposite side, as on a torus.
    Wrap,
    /// Reflect across the border, without repeating the edge pixel.
    Mirror,
}

/// The coordinate a sample requested at `v` is read from, on an axis whose
/// valid coordinates are `0 .. dim`.
///
/// A coordinate that is already valid is kept. Otherwise `Extend` moves it
/// to the nearer end of the axis, `Wrap` shifts it by one axis length and
/// `Mirror` reflects it across the border it left through.
pub open spec fn project_axis(v: int, dim: int, mode: EdgeMode) -> int {
    if 0 <= v < dim {
        v
    } else {
        match mode {
            EdgeMode::Extend => if v < 0 { 0 } else { dim - 1 },
            EdgeMode::Wrap => if v < 0 { v + dim } else { v - dim },
            EdgeMode::Mirror => if v < 0 { -v - 1 } else { 2 * dim - 1 - v },
        }
    }
}

/// Whether the coordinate requested at `v` resolves to a valid coordinate.
pub open spec fn lands_inside(v: int, dim: int, mode: EdgeMode) -> bool {
    0 <= project_axis(v, dim, mode) < dim
}

/// Resolves one coordinate against one axis.
pub fn project_coordinate(v: i64, dim: u32, edge_mode: &EdgeMode) -> (r: i64)
    ensures
        r == project_axis(v as int, dim as int, *edge_mode),
{
    let dim: i64 = dim as i64;
    if v >= 0 && v < dim {
        return v;
    }
    match *edge_mode {
        EdgeMode::Extend => if v < 0 { 0 } else { dim - 1 },
        EdgeMode::Wrap => if v < 0 { v + dim } else { v - dim },
        EdgeMode::Mirror => if v < 0 { -(v + 1) } else { 2 * dim - 1 - v },
    }
}

/// Resolves a requested sample position against an image of `width` by
/// `height` pixels, each axis on its own.
///
/// The result holds the low 32 bits of each resolved coordinate; whenever the
/// coordinate resolves to a valid one, that is the coordinate itself.
pub fn edge_project(x: i64, y: i64, width: u32, height: u32, edge_mode: &EdgeMode) -> (r: (
    u32,
    u32,
))
    ensures
        r.0 == project_axis(x as int, width as int, *edge_mode) as u32,
        r.1 == project_axis(y as int, height as int, *edge_mode) as u32,
        lands_inside(x as int, width as int, *edge_mode) ==> r.0 == project_axis(
            x as int,
            width as int,
            *edge_mode,
        ),
        lands_inside(y as int, height as int, *edge_mode) ==> r.1 == project_axis(
            y as int,
            height as int,
            *edge_mode,
        ),
{
    let ret_x: i64 = project_coordinate(x, width, edge_mode);
    let ret_y: i64 = project_coordinate(y, height, edge_mode);
    (#[verifier::truncate] (ret_x as u32), #[verifier::truncate] (ret_y as u32))
}

/// A coordinate resolves to a valid one exactly when the axis is not empty
/// and, unless the mode is `Extend`, the coordinate lies no further than one
/// axis length outside it.
pub proof fn lemma_lands_inside(v: int, dim: int, mode: EdgeMode)
    requires
        0 <= dim,
    ensures
        lands_inside(v, dim, mode) <==> 0 < dim && (mode == EdgeMode::Extend || -dim <= v < 2
            * dim),
{
}

/// A valid coordinate is kept as it is, whatever the mode.
pub proof fn lemma_inside_is_kept(v: int, dim: int, mode: EdgeMode)
    requires
        0 <= v < dim,
    ensures
        project_axis(v, dim, mode) == v,
{
}

/// `Extend` clamps: every coordinate resolves to the valid coordinate nearest
/// to it.
pub proof fn lemma_extend_clamps(v: int, dim: int)
    requires
        0 < dim,
    ensures
        project_axis(v, dim, EdgeMode::Extend) == if v < 0 {
            0
        } else if v > dim - 1 {
            dim - 1
        } else {
            v
        },
{
}

/// `Wrap` is periodic: within one axis length of the image, a coordinate
/// resolves to its remainder modulo the axis length.
pub proof fn lemma_wrap_is_remainder(v: int, dim: int)
    requires
        0 < dim,
        -dim <= v < 2 * dim,
    ensures
        project_axis(v, dim, EdgeMode::Wrap) == v % dim,
{
    if v < 0 {
        assert((v + dim) % dim == v % dim) by (nonlinear_arith)
            requires
                0 < dim,
        ;
        assert((v + dim) % dim == v + dim) by (nonlinear_arith)
            requires
                0 <= v + dim < dim,
        ;
    } else if v >= dim {
        assert((v - dim) % dim == v % dim) by (nonlinear_arith)
            requires
                0 < dim,
        ;
        assert((v - dim) % dim == v - dim) by (nonlinear_arith)
            requires
                0 <= v - dim < dim,
        ;
    } else {
        assert(v % dim == v) by (nonlinear_arith)
            requires
                0 <= v < dim,
        ;
    }
}

/// `Mirror` reflects without repeating the edge: the `k`-th coordinate
/// outside either border resolves to the `k`-th coordinate inside it.
pub proof fn lemma_mirror_reflects(k: int, dim: int)
    requires
        1 <= k <= dim,
    ensures
        project_axis(-k, dim, EdgeMode::Mirror) == k - 1,
        project_axis(dim - 1 + k, dim, EdgeMode::Mirror) == dim - k,
{
}

} // verus!
