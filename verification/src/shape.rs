//! Shape algebra: the spatial extent of a convolution's output.

use crate::arith::lemma_product_grows;
use vstd::prelude::*;

verus! {

/// Number of window positions along one axis: a window of `kernel_size` cells
/// slides in steps of `stride` over `in_size` cells with `padding` cells added
/// at both ends. Windows that would run past the padded end are not counted.
pub open spec fn out_extent(in_size: int, padding: int, kernel_size: int, stride: int) -> int {
    (in_size + 2 * padding - kernel_size) / stride + 1
}

/// Computes [`out_extent`] for a window that fits the padded axis.
///
/// The padded extent itself may exceed `usize`; only the result has to fit.
pub fn out_size(in_size: usize, padding: usize, kernel_size: usize, stride: usize) -> (out: usize)
    requires
        stride > 0,
        kernel_size <= in_size + 2 * padding,
        out_extent(in_size as int, padding as int, kernel_size as int, stride as int)
            <= usize::MAX,
    ensures
        out == out_extent(in_size as int, padding as int, kernel_size as int, stride as int),
{
    let padded: u128 = in_size as u128 + 2 * (padding as u128);
    let slack: u128 = padded - kernel_size as u128;
    let steps: u128 = slack / (stride as u128);
    (steps + 1) as usize
}

/// Computes [`out_extent`], refusing the inputs on which it stands for nothing:
/// a zero stride, a window wider than the padded axis, or a count beyond `usize`.
pub fn checked_out_size(in_size: usize, padding: usize, kernel_size: usize, stride: usize) -> (out:
    Option<usize>)
    ensures
        out is Some <==> {
            &&& stride > 0
            &&& kernel_size <= in_size + 2 * padding
            &&& out_extent(in_size as int, padding as int, kernel_size as int, stride as int)
                <= usize::MAX
        },
        out is Some ==> out->0 == out_extent(
            in_size as int,
            padding as int,
            kernel_size as int,
            stride as int,
        ),
{
    if stride == 0 {
        return None;
    }
    let padded: u128 = in_size as u128 + 2 * (padding as u128);
    if padded < kernel_size as u128 {
        return None;
    }
    let steps: u128 = (padded - kernel_size as u128) / (stride as u128);
    if steps >= usize::MAX as u128 {
        return None;
    }
    Some((steps + 1) as usize)
}

/// The shape of one convolution as mathematics sees it: an image of
/// `in_channels` planes of `in_height` by `in_width` cells, a square window of
/// `kernel_size` cells a side that moves `stride` cells at a time, and
/// `padding` cells of zero on each of the four sides.
pub struct Geometry {
    pub in_channels: nat,
    pub in_height: nat,
    pub in_width: nat,
    pub kernel_size: nat,
    pub stride: nat,
    pub padding: nat,
}

impl Geometry {
    /// Window and stride are positive and the window fits the padded image.
    pub open spec fn valid(self) -> bool {
        &&& self.kernel_size >= 1
        &&& self.stride >= 1
        &&& self.kernel_size <= self.in_height + 2 * self.padding
        &&& self.kernel_size <= self.in_width + 2 * self.padding
    }

    /// Window positions from top to bottom.
    pub open spec fn out_height(self) -> int {
        out_extent(
            self.in_height as int,
            self.padding as int,
            self.kernel_size as int,
            self.stride as int,
        )
    }

    /// Window positions from left to right.
    pub open spec fn out_width(self) -> int {
        out_extent(
            self.in_width as int,
            self.padding as int,
            self.kernel_size as int,
            self.stride as int,
        )
    }

    /// Cells that one window covers in one channel.
    pub open spec fn window(self) -> int {
        (self.kernel_size * self.kernel_size) as int
    }

    /// Rows of the patch matrix: one per channel and window cell.
    pub open spec fn rows(self) -> int {
        self.in_channels * self.window()
    }

    /// Columns of the patch matrix: one per window position.
    pub open spec fn cols(self) -> int {
        self.out_height() * self.out_width()
    }

    /// Channel that row `r` of the patch matrix reads.
    pub open spec fn channel_of(self, r: int) -> int {
        r / self.window()
    }

    /// Row of the window that row `r` of the patch matrix reads.
    pub open spec fn kernel_row_of(self, r: int) -> int {
        (r % self.window()) / (self.kernel_size as int)
    }

    /// Column of the window that row `r` of the patch matrix reads.
    pub open spec fn kernel_col_of(self, r: int) -> int {
        (r % self.window()) % (self.kernel_size as int)
    }

    /// Vertical window position that column `col` of the patch matrix holds.
    pub open spec fn out_row_of(self, col: int) -> int {
        col / self.out_width()
    }

    /// Horizontal window position that column `col` of the patch matrix holds.
    pub open spec fn out_col_of(self, col: int) -> int {
        col % self.out_width()
    }

    /// Image row that cell `(r, col)` of the patch matrix reads; outside
    /// `0..in_height` where the cell lies in the padding.
    pub open spec fn source_row(self, r: int, col: int) -> int {
        self.out_row_of(col) * self.stride + self.kernel_row_of(r) - self.padding
    }

    /// Image column that cell `(r, col)` of the patch matrix reads; outside
    /// `0..in_width` where the cell lies in the padding.
    pub open spec fn source_col(self, r: int, col: int) -> int {
        self.out_col_of(col) * self.stride + self.kernel_col_of(r) - self.padding
    }

    /// Row of the patch matrix that holds cell `(kernel_row, kernel_col)` of
    /// the window in `channel`.
    pub open spec fn row_index(self, channel: int, kernel_row: int, kernel_col: int) -> int {
        (channel * self.kernel_size + kernel_row) * self.kernel_size + kernel_col
    }

    /// Column of the patch matrix that holds the window at position
    /// `(out_row, out_col)`.
    pub open spec fn col_index(self, out_row: int, out_col: int) -> int {
        out_row * self.out_width() + out_col
    }

    /// A valid shape has at least one window position along each axis, hence
    /// at least one column.
    pub proof fn lemma_extents_positive(self)
        requires
            self.valid(),
        ensures
            self.out_height() >= 1,
            self.out_width() >= 1,
            self.cols() >= 1,
            self.window() >= 1,
            self.rows() >= 0,
    {
        let k = self.kernel_size as int;
        let s = self.stride as int;
        let slack_h = self.in_height + 2 * self.padding - k;
        let slack_w = self.in_width + 2 * self.padding - k;
        assert(slack_h / s >= 0 && slack_w / s >= 0) by (nonlinear_arith)
            requires
                slack_h >= 0,
                slack_w >= 0,
                s >= 1,
        ;
        let oh = self.out_height();
        let ow = self.out_width();
        assert(oh * ow >= 1) by (nonlinear_arith)
            requires
                oh >= 1,
                ow >= 1,
        ;
        assert(k * k >= 1) by (nonlinear_arith)
            requires
                k >= 1,
        ;
        let ic = self.in_channels as int;
        let kk = k * k;
        assert(ic * kk >= 0) by (nonlinear_arith)
            requires
                ic >= 0,
                kk >= 1,
        ;
    }
}

/// The shape of one convolution in machine integers.
#[derive(Clone, Copy, Debug, PartialEq, Eq, Structural)]
pub struct ConvShape {
    pub in_channels: usize,
    pub in_height: usize,
    pub in_width: usize,
    pub kernel_size: usize,
    pub stride: usize,
    pub padding: usize,
}

impl View for ConvShape {
    type V = Geometry;

    open spec fn view(&self) -> Geometry {
        Geometry {
            in_channels: self.in_channels as nat,
            in_height: self.in_height as nat,
            in_width: self.in_width as nat,
            kernel_size: self.kernel_size as nat,
            stride: self.stride as nat,
            padding: self.padding as nat,
        }
    }
}

impl ConvShape {
    /// The shape is valid and both extents of its patch matrix, and both
    /// extents of its output, fit `usize`.
    pub open spec fn wf(&self) -> bool {
        &&& self@.valid()
        &&& self@.out_height() <= usize::MAX
        &&& self@.out_width() <= usize::MAX
        &&& self@.rows() <= usize::MAX
        &&& self@.cols() <= usize::MAX
    }

    /// Builds a shape, refusing the parameters that are not well formed.
    pub fn new(
        in_channels: usize,
        in_height: usize,
        in_width: usize,
        kernel_size: usize,
        stride: usize,
        padding: usize,
    ) -> (shape: Option<ConvShape>)
        ensures
            shape is Some <==> (ConvShape {
                in_channels,
                in_height,
                in_width,
                kernel_size,
                stride,
                padding,
            }).wf(),
            shape is Some ==> shape->0 == (ConvShape {
                in_channels,
                in_height,
                in_width,
                kernel_size,
                stride,
                padding,
            }),
    {
        let shape = ConvShape { in_channels, in_height, in_width, kernel_size, stride, padding };
        if kernel_size == 0 {
            return None;
        }
        let out_height = match checked_out_size(in_height, padding, kernel_size, stride) {
            Some(n) => n,
            None => { return None; },
        };
        let out_width = match checked_out_size(in_width, padding, kernel_size, stride) {
            Some(n) => n,
            None => { return None; },
        };
        if out_height.checked_mul(out_width).is_none() {
            return None;
        }
        if in_channels > 0 {
            let window = match kernel_size.checked_mul(kernel_size) {
                Some(n) => n,
                None => {
                    proof {
                        lemma_product_grows(in_channels as int, shape@.window());
                    }
                    return None;
                },
            };
            if in_channels.checked_mul(window).is_none() {
                return None;
            }
        } else {
            assert(shape@.rows() == 0) by (nonlinear_arith)
                requires
                    shape@.rows() == 0 * shape@.window(),
            ;
        }
        Some(shape)
    }

    /// Tells whether the shape is well formed.
    pub fn is_wf(&self) -> (ok: bool)
        ensures
            ok == self.wf(),
    {
        ConvShape::new(
            self.in_channels,
            self.in_height,
            self.in_width,
            self.kernel_size,
            self.stride,
            self.padding,
        ).is_some()
    }

    /// Window positions from top to bottom.
    pub fn out_height(&self) -> (n: usize)
        requires
            self.wf(),
        ensures
            n == self@.out_height(),
            n >= 1,
    {
        proof {
            self@.lemma_extents_positive();
        }
        out_size(self.in_height, self.padding, self.kernel_size, self.stride)
    }

    /// Window positions from left to right.
    pub fn out_width(&self) -> (n: usize)
        requires
            self.wf(),
        ensures
            n == self@.out_width(),
            n >= 1,
    {
        proof {
            self@.lemma_extents_positive();
        }
        out_size(self.in_width, self.padding, self.kernel_size, self.stride)
    }

    /// Rows of the patch matrix.
    pub fn rows(&self) -> (n: usize)
        requires
            self.wf(),
        ensures
            n == self@.rows(),
    {
        if self.in_channels == 0 {
            assert(self@.rows() == 0) by (nonlinear_arith)
                requires
                    self@.rows() == 0 * self@.window(),
            ;
            0
        } else {
            proof {
                self@.lemma_extents_positive();
                lemma_product_grows(self.in_channels as int, self@.window());
            }
            self.in_channels * (self.kernel_size * self.kernel_size)
        }
    }

    /// Columns of the patch matrix.
    pub fn cols(&self) -> (n: usize)
        requires
            self.wf(),
        ensures
            n == self@.cols(),
            n >= 1,
    {
        proof {
            self@.lemma_extents_positive();
        }
        self.out_height() * self.out_width()
    }
}

} // verus!
