//! The geometry of a convolution kernel, and the last step from a sum to a
//! sample.

use vstd::prelude::*;

verus! {

/// Why a kernel could not be made.
#[derive(Clone, Copy, PartialEq, Eq, Debug, Structural)]
pub enum ConvolutionError {
    /// The number of weights is not the square of an odd number.
    InvalidKernelSize,
}

/// What [`ConvolutionError::message`] says of `InvalidKernelSize`.
pub open spec fn invalid_kernel_size_message() -> Seq<char> {
    "the number of kernel weights must be the square of an odd number"@
}

impl ConvolutionError {
    /// The error in words.
    pub fn message(&self) -> (text: &'static str)
        ensures
            text@ == invalid_kernel_size_message(),
    {
        "the number of kernel weights must be the square of an odd number"
    }
}

/// Whether `side` is the side of a square kernel of `count` weights that has
/// a centre cell: `count` is `side * side`, and `side` is odd.
pub open spec fn is_kernel_side(count: nat, side: nat) -> bool {
    side * side == count && side % 2 == 1
}

/// The integer square root of `n`: the one `s` with `s * s <= n < (s + 1) * (s + 1)`.
pub open spec fn is_integer_sqrt(n: nat, s: nat) -> bool {
    s * s <= n < (s + 1) * (s + 1)
}

/// Squaring keeps order on the natural numbers.
pub proof fn lemma_square_monotone(a: nat, b: nat)
    ensures
        a <= b ==> a * a <= b * b,
        a < b ==> a * a < b * b,
{
    assert(a <= b ==> a * a <= b * b) by (nonlinear_arith);
    assert(a < b ==> a * a < b * b) by (nonlinear_arith);
}

/// A number has one integer square root only.
pub proof fn lemma_integer_sqrt_unique(n: nat, s: nat, t: nat)
    requires
        is_integer_sqrt(n, s),
        is_integer_sqrt(n, t),
    ensures
        s == t,
{
    if s < t {
        lemma_square_monotone(s + 1, t);
    } else if t < s {
        lemma_square_monotone(t + 1, s);
    }
}

/// The side of a kernel is the integer square root of the number of its
/// weights, so a number of weights admits one side at most.
pub proof fn lemma_kernel_side_is_sqrt(count: nat, side: nat)
    requires
        is_kernel_side(count, side),
    ensures
        is_integer_sqrt(count, side),
        0 < side,
        0 < count,
{
    lemma_square_monotone(side, side + 1);
    if side == 0 {
        assert(0nat % 2 == 0);
    }
    lemma_square_monotone(0, side);
}

/// Computes the integer square root.
pub fn integer_sqrt(n: u64) -> (s: u64)
    ensures
        is_integer_sqrt(n as nat, s as nat),
        s <= 0xFFFF_FFFF,
{
    let mut low: u64 = 0;
    let mut high: u64 = 0x1_0000_0000;
    assert(0x1_0000_0000u64 * 0x1_0000_0000u64 > u64::MAX);
    while high - low > 1
        invariant
            low < high <= 0x1_0000_0000,
            low * low <= n < high * high,
        decreases high - low,
    {
        let mid: u64 = low + (high - low) / 2;
        proof {
            lemma_square_monotone(mid as nat, 0xFFFF_FFFF);
            assert(0xFFFF_FFFFu64 * 0xFFFF_FFFFu64 <= u64::MAX);
        }
        if mid * mid <= n {
            low = mid;
        } else {
            high = mid;
        }
    }
    low
}

/// The shape of a square kernel with a centre cell: its side, an odd number.
///
/// The cells are numbered row by row, so that the weight of column `x` in
/// row `y` is the one at index `y * side + x` of the kernel's weights.
#[derive(Clone, Copy, Debug)]
pub struct KernelShape {
    size: usize,
}

impl View for KernelShape {
    type V = nat;

    /// The side of the kernel.
    closed spec fn view(&self) -> nat {
        self.size as nat
    }
}

impl KernelShape {
    #[verifier::type_invariant]
    spec fn inv(self) -> bool {
        self.size % 2 == 1 && self.size <= u32::MAX && self.size * self.size <= usize::MAX
    }

    /// The shape of a kernel of `count` weights.
    ///
    /// Succeeds exactly when `count` is the square of an odd number, which is
    /// then the side; zero, the squares of even numbers and all other counts
    /// are refused.
    pub fn new(count: usize) -> (r: Result<KernelShape, ConvolutionError>)
        ensures
            r is Ok <==> exists|side: nat| is_kernel_side(count as nat, side),
            r matches Ok(shape) ==> is_kernel_side(count as nat, shape@),
            r matches Err(e) ==> e == ConvolutionError::InvalidKernelSize,
    {
        let root: u64 = integer_sqrt(count as u64);
        if root * root == count as u64 && root % 2 == 1 {
            assert(is_kernel_side(count as nat, root as nat));
            Ok(KernelShape { size: root as usize })
        } else {
            proof {
                assert forall|side: nat| !is_kernel_side(count as nat, side) by {
                    if is_kernel_side(count as nat, side) {
                        lemma_kernel_side_is_sqrt(count as nat, side);
                        lemma_integer_sqrt_unique(count as nat, side, root as nat);
                    }
                }
            }
            Err(ConvolutionError::InvalidKernelSize)
        }
    }

    /// The side of the kernel.
    pub fn get_size(&self) -> (size: usize)
        ensures
            size == self@,
            size % 2 == 1,
            size <= u32::MAX,
            size * size <= usize::MAX,
    {
        proof {
            use_type_invariant(self);
        }
        self.size
    }

    /// How far the kernel reaches from its centre: half the side, rounded
    /// down. The kernel covers the offsets `-offset ..= offset` on both axes.
    pub fn offset(&self) -> (offset: usize)
        ensures
            offset == self@ / 2,
            2 * offset + 1 == self@,
    {
        proof {
            use_type_invariant(self);
        }
        self.size / 2
    }

    /// The number of cells, `side * side`.
    pub fn cell_count(&self) -> (count: usize)
        ensures
            count == self@ * self@,
    {
        proof {
            use_type_invariant(self);
        }
        self.size * self.size
    }

    /// The index of the cell in column `x` of row `y`.
    pub fn cell_index(&self, x: usize, y: usize) -> (index: usize)
        requires
            x < self@,
            y < self@,
        ensures
            index == y * self@ + x,
            index < self@ * self@,
    {
        proof {
            use_type_invariant(self);
            assert(y * self.size + x < self.size * self.size) by (nonlinear_arith)
                requires
                    x < self.size,
                    y < self.size,
            ;
            assert(0 <= y * self.size) by (nonlinear_arith)
                requires
                    0 <= y,
                    0 <= self.size,
            ;
        }
        y * self.size + x
    }
}

/// The byte nearest to `value`: `value` itself where it is a byte, 0 below
/// and 255 above.
pub open spec fn clamp_to_byte(value: int) -> int {
    if value < 0 {
        0
    } else if value > 255 {
        255
    } else {
        value
    }
}

/// Turns a rounded sum into a sample. Sums outside the range of a byte
/// saturate: they never wrap around.
pub fn clamp_sample(value: i64) -> (sample: u8)
    ensures
        sample == clamp_to_byte(value as int),
{
    if value < 0 {
        0
    } else if value > 255 {
        255
    } else {
        value as u8
    }
}

} // verus!
