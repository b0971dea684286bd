//! Row-major tensors as the inference engine hands them over.

use vstd::prelude::*;
use crate::fixed::Fixed;

verus! {

/// A tensor: its shape, and its elements in row-major order.
///
/// Nothing ties `data` to `shape` until a consumer has checked it with
/// [`Tensor::is_batch_of_rows`].
#[derive(Debug)]
pub struct Tensor {
    pub shape: Vec<usize>,
    pub data: Vec<Fixed>,
}

impl Tensor {
    /// Number of rows: the second entry of the shape.
    pub open spec fn rows(&self) -> int {
        self.shape@[1] as int
    }

    /// Number of elements in a row: the third entry of the shape.
    pub open spec fn width(&self) -> int {
        self.shape@[2] as int
    }

    /// The tensor is one batch of rows: its shape has three entries, the first
    /// of them `1`, and it holds exactly `rows × width` elements.
    pub open spec fn is_batch(&self) -> bool {
        &&& self.shape@.len() == 3
        &&& self.shape@[0] == 1
        &&& self.data@.len() == self.rows() * self.width()
    }

    /// The tensor is one batch of `rows` rows of `width` elements each.
    pub open spec fn has_rows(&self, rows: int, width: int) -> bool {
        &&& self.is_batch()
        &&& self.rows() == rows
        &&& self.width() == width
    }

    /// Element `col` of row `row`.
    pub open spec fn spec_at(&self, row: int, col: int) -> Fixed {
        self.data@[row * self.width() + col]
    }

    /// Whether the tensor is one batch of `rows` rows of `width` elements.
    pub fn is_batch_of_rows(&self, rows: usize, width: usize) -> (r: bool)
        ensures
            r == self.has_rows(rows as int, width as int),
    {
        if self.shape.len() != 3 {
            return false;
        }
        if self.shape[0] != 1 || self.shape[1] != rows || self.shape[2] != width {
            return false;
        }
        let n: u128 = rows as u128;
        let w: u128 = width as u128;
        assert(0 <= n * w <= 0xffff_ffff_ffff_ffff_ffff_ffff_ffff_ffff) by (nonlinear_arith)
            requires
                0 <= n <= 0xffff_ffff_ffff_ffff,
                0 <= w <= 0xffff_ffff_ffff_ffff,
        ;
        self.data.len() as u128 == n * w
    }

    /// Element `col` of row `row`.
    pub fn at(&self, row: usize, col: usize) -> (r: Fixed)
        requires
            self.is_batch(),
            row < self.rows(),
            col < self.width(),
        ensures
            r == self.spec_at(row as int, col as int),
    {
        let width: usize = self.shape[2];
        let len: usize = self.data.len();
        proof {
            lemma_row_major_in_bounds(self.rows(), width as int, row as int, col as int);
        }
        self.data[row * width + col]
    }
}

/// The row-major offset of an element inside the tensor lies inside its data.
pub proof fn lemma_row_major_in_bounds(rows: int, width: int, row: int, col: int)
    requires
        0 <= row < rows,
        0 <= col < width,
    ensures
        0 <= row * width <= row * width + col < rows * width,
{
    assert(0 <= row * width && row * width + width <= rows * width) by (nonlinear_arith)
        requires
            0 <= row < rows,
            0 < width,
    ;
}

} // verus!
