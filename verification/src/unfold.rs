//! The patch matrix of an image: every receptive field unrolled into a column.

use crate::arith::{lemma_product_grows, lemma_split_index, lemma_window_inside};
use crate::shape::{ConvShape, Geometry};
use vstd::prelude::*;

verus! {

/// A vector of rows as a sequence of sequences.
pub open spec fn grid<T>(rows: Seq<Vec<T>>) -> Seq<Seq<T>> {
    Seq::new(rows.len(), |i: int| rows[i]@)
}

/// A vector of planes as a sequence of grids.
pub open spec fn volume<T>(planes: Seq<Vec<Vec<T>>>) -> Seq<Seq<Seq<T>>> {
    Seq::new(planes.len(), |c: int| grid(planes[c]@))
}

/// The image has `channels` planes of `height` rows of `width` cells each.
pub open spec fn has_dims<T>(image: Seq<Seq<Seq<T>>>, channels: nat, height: nat, width: nat) -> bool {
    &&& image.len() == channels
    &&& forall|c: int| 0 <= c < image.len() ==> (#[trigger] image[c]).len() == height
    &&& forall|c: int, h: int|
        0 <= c < image.len() && 0 <= h < image[c].len() ==> (#[trigger] image[c][h]).len()
            == width
}

/// The image has the extents that the shape names.
pub open spec fn conforms<T>(image: Seq<Seq<Seq<T>>>, g: Geometry) -> bool {
    has_dims(image, g.in_channels, g.in_height, g.in_width)
}

/// The cell at row `h` and column `w` of channel `c`, for an image that is
/// continued by `zero` beyond its edges.
pub open spec fn sample<T>(image: Seq<Seq<Seq<T>>>, zero: T, c: int, h: int, w: int) -> T {
    if 0 <= c < image.len() && 0 <= h < image[c].len() && 0 <= w < image[c][h].len() {
        image[c][h][w]
    } else {
        zero
    }
}

/// Cell `(r, col)` of the patch matrix of `image` under the shape `g`: the
/// image cell that the row's window cell covers at the column's window
/// position, or `zero` where that lies in the padding.
pub open spec fn patch_cell<T>(image: Seq<Seq<Seq<T>>>, g: Geometry, zero: T, r: int, col: int) -> T {
    sample(image, zero, g.channel_of(r), g.source_row(r, col), g.source_col(r, col))
}

/// Row `r` of the patch matrix: one cell of the window, at every position.
pub open spec fn patch_row<T>(image: Seq<Seq<Seq<T>>>, g: Geometry, zero: T, r: int) -> Seq<T> {
    Seq::new(g.cols() as nat, |col: int| patch_cell(image, g, zero, r, col))
}

/// The patch matrix of `image` under the shape `g`.
pub open spec fn patch_matrix<T>(image: Seq<Seq<Seq<T>>>, g: Geometry, zero: T) -> Seq<Seq<T>> {
    Seq::new(g.rows() as nat, |r: int| patch_row(image, g, zero, r))
}

/// Reads the cell that lies at `(row, col)` of channel `channel` once the
/// image is padded by `padding` cells of `zero` on every side.
fn padded_cell<T: Copy>(
    image: &Vec<Vec<Vec<T>>>,
    zero: T,
    channel: usize,
    row: u128,
    col: u128,
    padding: usize,
) -> (cell: T)
    ensures
        cell == sample(volume(image@), zero, channel as int, row - padding, col - padding),
{
    if channel >= image.len() || row < padding as u128 || col < padding as u128 {
        return zero;
    }
    let plane = &image[channel];
    let h: u128 = row - padding as u128;
    if h >= plane.len() as u128 {
        return zero;
    }
    let line = &plane[h as usize];
    let w: u128 = col - padding as u128;
    if w >= line.len() as u128 {
        return zero;
    }
    line[w as usize]
}

/// Tells whether `image` has `channels` planes of `height` rows of `width`
/// cells each.
pub fn has_extents<T>(image: &Vec<Vec<Vec<T>>>, channels: usize, height: usize, width: usize) -> (ok:
    bool)
    ensures
        ok == has_dims(volume(image@), channels as nat, height as nat, width as nat),
{
    let ghost x = volume(image@);
    if image.len() != channels {
        return false;
    }
    let mut c: usize = 0;
    while c < image.len()
        invariant
            x == volume(image@),
            image.len() == channels,
            c <= image.len(),
            forall|i: int| 0 <= i < c ==> (#[trigger] x[i]).len() == height,
            forall|i: int, h: int|
                0 <= i < c && 0 <= h < x[i].len() ==> (#[trigger] x[i][h]).len() == width,
        decreases image.len() - c,
    {
        let plane = &image[c];
        if plane.len() != height {
            assert(x[c as int].len() != height);
            return false;
        }
        let mut h: usize = 0;
        while h < plane.len()
            invariant
                x == volume(image@),
                c < image.len(),
                plane == image[c as int],
                h <= plane.len(),
                forall|j: int| 0 <= j < h ==> (#[trigger] x[c as int][j]).len() == width,
            decreases plane.len() - h,
        {
            if plane[h].len() != width {
                assert(x[c as int][h as int].len() != width);
                return false;
            }
            h += 1;
        }
        c += 1;
    }
    true
}

/// Tells whether `image` has the extents that `shape` names.
pub fn has_shape<T>(image: &Vec<Vec<Vec<T>>>, shape: &ConvShape) -> (ok: bool)
    ensures
        ok == conforms(volume(image@), shape@),
{
    has_extents(image, shape.in_channels, shape.in_height, shape.in_width)
}

/// Unrolls the receptive fields of `image` into the columns of a matrix.
///
/// The result has one row per channel and window cell and one column per
/// window position. A cell whose source lies inside the image is a copy of
/// it; a cell whose source lies in the padding is `zero`.
pub fn im2col<T: Copy>(image: &Vec<Vec<Vec<T>>>, shape: &ConvShape, zero: T) -> (patches: Vec<
    Vec<T>,
>)
    requires
        shape.wf(),
        conforms(volume(image@), shape@),
    ensures
        patches.len() == shape@.rows(),
        forall|r: int| 0 <= r < patches.len() ==> (#[trigger] patches[r]).len() == shape@.cols(),
        forall|r: int, col: int|
            0 <= r < shape@.rows() && 0 <= col < shape@.cols() ==> #[trigger] patches[r][col]
                == patch_cell(volume(image@), shape@, zero, r, col),
        grid(patches@) == patch_matrix(volume(image@), shape@, zero),
{
    let rows = shape.rows();
    let cols = shape.cols();
    let out_width = shape.out_width();
    let kernel = shape.kernel_size;
    let stride = shape.stride;
    let padding = shape.padding;
    let ghost x = volume(image@);
    let ghost g = shape@;
    let mut patches: Vec<Vec<T>> = Vec::new();
    let mut r: usize = 0;
    while r < rows
        invariant
            shape.wf(),
            x == volume(image@),
            g == shape@,
            rows == g.rows(),
            cols == g.cols(),
            out_width == g.out_width(),
            kernel == g.kernel_size,
            stride == g.stride,
            padding == g.padding,
            r <= rows,
            patches.len() == r,
            forall|i: int| 0 <= i < r ==> (#[trigger] patches[i])@ == patch_row(x, g, zero, i),
        decreases rows - r,
    {
        proof {
            g.lemma_extents_positive();
            if g.in_channels == 0 {
                assert(g.rows() == 0) by (nonlinear_arith)
                    requires
                        g.rows() == 0 * g.window(),
                ;
            }
            lemma_product_grows(g.in_channels as int, g.window());
        }
        let window = kernel * kernel;
        let channel = r / window;
        let offset = r % window;
        let h_offset = offset / kernel;
        let w_offset = offset % kernel;
        proof {
            lemma_split_index(offset as int, kernel as int, kernel as int);
        }
        let mut row: Vec<T> = Vec::new();
        let mut col: usize = 0;
        while col < cols
            invariant
                shape.wf(),
                x == volume(image@),
                g == shape@,
                cols == g.cols(),
                out_width == g.out_width(),
                kernel == g.kernel_size,
                stride == g.stride,
                padding == g.padding,
                window == kernel * kernel,
                channel == r / window,
                offset == r % window,
                h_offset == offset / kernel,
                w_offset == offset % kernel,
                h_offset < kernel,
                w_offset < kernel,
                col <= cols,
                row.len() == col,
                forall|j: int| 0 <= j < col ==> #[trigger] row[j] == patch_cell(x, g, zero, r as int, j),
            decreases cols - col,
        {
            proof {
                g.lemma_extents_positive();
            }
            let out_h = col / out_width;
            let out_w = col % out_width;
            proof {
                lemma_split_index(col as int, g.out_height(), g.out_width());
                lemma_window_inside(
                    out_h as int,
                    h_offset as int,
                    (g.in_height + 2 * g.padding) as int,
                    kernel as int,
                    stride as int,
                );
                lemma_window_inside(
                    out_w as int,
                    w_offset as int,
                    (g.in_width + 2 * g.padding) as int,
                    kernel as int,
                    stride as int,
                );
            }
            let h_padded: u128 = out_h as u128 * stride as u128 + h_offset as u128;
            let w_padded: u128 = out_w as u128 * stride as u128 + w_offset as u128;
            let cell = padded_cell(image, zero, channel, h_padded, w_padded, padding);
            row.push(cell);
            col += 1;
        }
        assert(row@ =~= patch_row(x, g, zero, r as int));
        patches.push(row);
        r += 1;
    }
    assert(grid(patches@) =~= patch_matrix(x, g, zero));
    patches
}

/// Unrolls the receptive fields of `image` as [`im2col`] does, after testing
/// what `im2col` demands: gives `None` when the shape is not well formed or
/// the image has other extents than the shape names.
pub fn checked_im2col<T: Copy>(image: &Vec<Vec<Vec<T>>>, shape: &ConvShape, zero: T) -> (patches:
    Option<Vec<Vec<T>>>)
    ensures
        patches is Some <==> shape.wf() && conforms(volume(image@), shape@),
        patches is Some ==> grid(patches->0@) == patch_matrix(volume(image@), shape@, zero),
{
    if !shape.is_wf() || !has_shape(image, shape) {
        return None;
    }
    Some(im2col(image, shape, zero))
}

} // verus!
