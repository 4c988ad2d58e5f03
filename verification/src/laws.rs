//! What holds of every patch matrix.

use crate::arith::{lemma_join_index, lemma_split_index, lemma_window_inside};
use crate::shape::Geometry;
use crate::unfold::{conforms, patch_cell, patch_matrix, sample};
use vstd::prelude::*;

verus! {

/// Every row of the patch matrix reads one cell of the window in one channel,
/// and every column holds one window position.
pub proof fn lemma_indices_in_range(g: Geometry, r: int, col: int)
    requires
        g.valid(),
        0 <= r < g.rows(),
        0 <= col < g.cols(),
    ensures
        0 <= g.channel_of(r) < g.in_channels,
        0 <= g.kernel_row_of(r) < g.kernel_size,
        0 <= g.kernel_col_of(r) < g.kernel_size,
        0 <= g.out_row_of(col) < g.out_height(),
        0 <= g.out_col_of(col) < g.out_width(),
        r == g.row_index(g.channel_of(r), g.kernel_row_of(r), g.kernel_col_of(r)),
        col == g.col_index(g.out_row_of(col), g.out_col_of(col)),
        -g.padding <= g.source_row(r, col) < g.in_height + g.padding,
        -g.padding <= g.source_col(r, col) < g.in_width + g.padding,
{
    g.lemma_extents_positive();
    let k = g.kernel_size as int;
    let s = g.stride as int;
    lemma_split_index(r, g.in_channels as int, g.window());
    let offset = r % g.window();
    lemma_split_index(offset, k, k);
    lemma_split_index(col, g.out_height(), g.out_width());
    let c = g.channel_of(r);
    let kh = g.kernel_row_of(r);
    let kw = g.kernel_col_of(r);
    assert((c * k + kh) * k + kw == c * (k * k) + (kh * k + kw)) by (nonlinear_arith);
    lemma_window_inside(g.out_row_of(col), kh, (g.in_height + 2 * g.padding) as int, k, s);
    lemma_window_inside(g.out_col_of(col), kw, (g.in_width + 2 * g.padding) as int, k, s);
}

/// A cell of the patch matrix whose source lies inside the image is that cell
/// of the image, and every other cell is `zero`.
pub proof fn lemma_cell_value<T>(image: Seq<Seq<Seq<T>>>, g: Geometry, zero: T, r: int, col: int)
    requires
        g.valid(),
        conforms(image, g),
        0 <= r < g.rows(),
        0 <= col < g.cols(),
    ensures
        0 <= g.channel_of(r) < g.in_channels,
        patch_cell(image, g, zero, r, col) == if 0 <= g.source_row(r, col) < g.in_height && 0
            <= g.source_col(r, col) < g.in_width {
            image[g.channel_of(r)][g.source_row(r, col)][g.source_col(r, col)]
        } else {
            zero
        },
{
    lemma_indices_in_range(g, r, col);
}

/// Without padding no cell of the patch matrix lies outside the image: each is
/// a copy of the image cell it reads, so it is zero only where that cell is.
pub proof fn lemma_unpadded_cell<T>(image: Seq<Seq<Seq<T>>>, g: Geometry, zero: T, r: int, col: int)
    requires
        g.valid(),
        g.padding == 0,
        conforms(image, g),
        0 <= r < g.rows(),
        0 <= col < g.cols(),
    ensures
        0 <= g.channel_of(r) < g.in_channels,
        0 <= g.source_row(r, col) < g.in_height,
        0 <= g.source_col(r, col) < g.in_width,
        patch_cell(image, g, zero, r, col)
            == image[g.channel_of(r)][g.source_row(r, col)][g.source_col(r, col)],
{
    lemma_indices_in_range(g, r, col);
}

/// The layout of the patch matrix: the cell of channel `channel` at
/// `(kernel_row, kernel_col)` of the window at position `(out_row, out_col)`
/// stands in row `(channel * k + kernel_row) * k + kernel_col` and column
/// `out_row * out_width + out_col`.
pub proof fn lemma_layout<T>(
    image: Seq<Seq<Seq<T>>>,
    g: Geometry,
    zero: T,
    channel: int,
    kernel_row: int,
    kernel_col: int,
    out_row: int,
    out_col: int,
)
    requires
        g.valid(),
        0 <= channel < g.in_channels,
        0 <= kernel_row < g.kernel_size,
        0 <= kernel_col < g.kernel_size,
        0 <= out_row < g.out_height(),
        0 <= out_col < g.out_width(),
    ensures
        0 <= g.row_index(channel, kernel_row, kernel_col) < g.rows(),
        0 <= g.col_index(out_row, out_col) < g.cols(),
        g.channel_of(g.row_index(channel, kernel_row, kernel_col)) == channel,
        g.kernel_row_of(g.row_index(channel, kernel_row, kernel_col)) == kernel_row,
        g.kernel_col_of(g.row_index(channel, kernel_row, kernel_col)) == kernel_col,
        g.out_row_of(g.col_index(out_row, out_col)) == out_row,
        g.out_col_of(g.col_index(out_row, out_col)) == out_col,
        patch_cell(
            image,
            g,
            zero,
            g.row_index(channel, kernel_row, kernel_col),
            g.col_index(out_row, out_col),
        ) == sample(
            image,
            zero,
            channel,
            out_row * g.stride + kernel_row - g.padding,
            out_col * g.stride + kernel_col - g.padding,
        ),
{
    let k = g.kernel_size as int;
    lemma_join_index(kernel_row, kernel_col, k, k);
    lemma_join_index(channel, kernel_row * k + kernel_col, g.in_channels as int, k * k);
    assert((channel * k + kernel_row) * k + kernel_col == channel * (k * k) + (kernel_row * k
        + kernel_col)) by (nonlinear_arith);
    lemma_join_index(out_row, out_col, g.out_height(), g.out_width());
}

/// Rows are ordered by channel first, then by the row of the window, then by
/// its column: one row of the matrix comes before another exactly when its
/// triple comes first in that order.
pub proof fn lemma_row_order(
    g: Geometry,
    channel_a: int,
    kernel_row_a: int,
    kernel_col_a: int,
    channel_b: int,
    kernel_row_b: int,
    kernel_col_b: int,
)
    requires
        0 <= kernel_row_a < g.kernel_size,
        0 <= kernel_col_a < g.kernel_size,
        0 <= kernel_row_b < g.kernel_size,
        0 <= kernel_col_b < g.kernel_size,
    ensures
        g.row_index(channel_a, kernel_row_a, kernel_col_a) < g.row_index(
            channel_b,
            kernel_row_b,
            kernel_col_b,
        ) <==> {
            ||| channel_a < channel_b
            ||| channel_a == channel_b && kernel_row_a < kernel_row_b
            ||| channel_a == channel_b && kernel_row_a == kernel_row_b && kernel_col_a
                < kernel_col_b
        },
{
    let k = g.kernel_size as int;
    lemma_step_order(
        channel_a * k + kernel_row_a,
        kernel_col_a,
        channel_b * k + kernel_row_b,
        kernel_col_b,
        k,
    );
    lemma_step_order(channel_a, kernel_row_a, channel_b, kernel_row_b, k);
    lemma_step_order(channel_b, kernel_row_b, channel_a, kernel_row_a, k);
}

/// Columns are ordered by the vertical window position first, then by the
/// horizontal one.
pub proof fn lemma_col_order(g: Geometry, out_row_a: int, out_col_a: int, out_row_b: int, out_col_b: int)
    requires
        0 <= out_col_a < g.out_width(),
        0 <= out_col_b < g.out_width(),
    ensures
        g.col_index(out_row_a, out_col_a) < g.col_index(out_row_b, out_col_b) <==> {
            ||| out_row_a < out_row_b
            ||| out_row_a == out_row_b && out_col_a < out_col_b
        },
{
    lemma_step_order(out_row_a, out_col_a, out_row_b, out_col_b, g.out_width());
}

/// Two images of the same extents combined cell by cell.
pub open spec fn zip_volume<A, B, C>(
    x: Seq<Seq<Seq<A>>>,
    y: Seq<Seq<Seq<B>>>,
    f: spec_fn(A, B) -> C,
) -> Seq<Seq<Seq<C>>> {
    Seq::new(
        x.len(),
        |c: int|
            Seq::new(
                x[c].len(),
                |h: int| Seq::new(x[c][h].len(), |w: int| f(x[c][h][w], y[c][h][w])),
            ),
    )
}

/// Two matrices of the same extents combined cell by cell.
pub open spec fn zip_grid<A, B, C>(m: Seq<Seq<A>>, n: Seq<Seq<B>>, f: spec_fn(A, B) -> C) -> Seq<
    Seq<C>,
> {
    Seq::new(m.len(), |r: int| Seq::new(m[r].len(), |col: int| f(m[r][col], n[r][col])))
}

/// Unrolling commutes with every cell-wise combination of two images: the
/// patch matrix of the combined image, padded with the combination of the two
/// zeros, is the combination of the two patch matrices.
pub proof fn lemma_cellwise<A, B, C>(
    x: Seq<Seq<Seq<A>>>,
    y: Seq<Seq<Seq<B>>>,
    g: Geometry,
    zero_x: A,
    zero_y: B,
    f: spec_fn(A, B) -> C,
)
    requires
        conforms(x, g),
        conforms(y, g),
    ensures
        conforms(zip_volume(x, y, f), g),
        patch_matrix(zip_volume(x, y, f), g, f(zero_x, zero_y)) == zip_grid(
            patch_matrix(x, g, zero_x),
            patch_matrix(y, g, zero_y),
            f,
        ),
{
    let z = zip_volume(x, y, f);
    assert forall|c: int, h: int, w: int|
        sample(z, f(zero_x, zero_y), c, h, w) == f(
            sample(x, zero_x, c, h, w),
            sample(y, zero_y, c, h, w),
        ) by {}
    assert(patch_matrix(z, g, f(zero_x, zero_y)) =~~= zip_grid(
        patch_matrix(x, g, zero_x),
        patch_matrix(y, g, zero_y),
        f,
    ));
}

/// The combination `a * u + b * v` of two cells.
pub open spec fn mix(a: int, b: int) -> spec_fn(int, int) -> int {
    |u: int, v: int| a * u + b * v
}

/// Unrolling is linear: the patch matrix of `a * x + b * y` is `a` times the
/// patch matrix of `x` plus `b` times that of `y`.
pub proof fn lemma_linear(
    a: int,
    x: Seq<Seq<Seq<int>>>,
    b: int,
    y: Seq<Seq<Seq<int>>>,
    g: Geometry,
)
    requires
        conforms(x, g),
        conforms(y, g),
    ensures
        patch_matrix(zip_volume(x, y, mix(a, b)), g, 0) == zip_grid(
            patch_matrix(x, g, 0),
            patch_matrix(y, g, 0),
            mix(a, b),
        ),
        forall|r: int, col: int|
            0 <= r < g.rows() && 0 <= col < g.cols() ==> #[trigger] patch_matrix(
                zip_volume(x, y, mix(a, b)),
                g,
                0,
            )[r][col] == a * patch_cell(x, g, 0, r, col) + b * patch_cell(y, g, 0, r, col),
{
    lemma_cellwise(x, y, g, 0, 0, mix(a, b));
}

/// Cell `(r, col)` of a patch matrix with `out_width` window positions per
/// image row, whose first window starts `top` rows above and `left` columns
/// left of the image's first cell. With `top` and `left` both the padding this
/// is [`patch_cell`].
pub open spec fn window_cell<T>(
    image: Seq<Seq<Seq<T>>>,
    zero: T,
    kernel_size: int,
    stride: int,
    out_width: int,
    top: int,
    left: int,
    r: int,
    col: int,
) -> T {
    let offset = r % (kernel_size * kernel_size);
    sample(
        image,
        zero,
        r / (kernel_size * kernel_size),
        (col / out_width) * stride + offset / kernel_size - top,
        (col % out_width) * stride + offset % kernel_size - left,
    )
}

/// The image moved one column to the right, a column of `zero` taking the
/// place it left.
pub open spec fn shift_right<T>(image: Seq<Seq<Seq<T>>>, zero: T) -> Seq<Seq<Seq<T>>> {
    Seq::new(
        image.len(),
        |c: int|
            Seq::new(
                image[c].len(),
                |h: int|
                    Seq::new(
                        image[c][h].len() + 1,
                        |w: int|
                            if w == 0 {
                                zero
                            } else {
                                image[c][h][w - 1]
                            },
                    ),
            ),
    )
}

/// The shape of an image that is one column wider.
pub open spec fn widened(g: Geometry) -> Geometry {
    Geometry { in_width: g.in_width + 1, ..g }
}

/// Moving the image one column to the right is the same as padding it with
/// one more column on the left: the patch matrix of the moved image is, cell
/// for cell, that of the image itself with windows that start one column
/// further left.
pub proof fn lemma_shift_column<T>(image: Seq<Seq<Seq<T>>>, g: Geometry, zero: T, r: int, col: int)
    ensures
        patch_cell(image, g, zero, r, col) == window_cell(
            image,
            zero,
            g.kernel_size as int,
            g.stride as int,
            g.out_width(),
            g.padding as int,
            g.padding as int,
            r,
            col,
        ),
        patch_cell(shift_right(image, zero), widened(g), zero, r, col) == window_cell(
            image,
            zero,
            g.kernel_size as int,
            g.stride as int,
            widened(g).out_width(),
            g.padding as int,
            g.padding as int + 1,
            r,
            col,
        ),
{
    assert forall|c: int, h: int, w: int|
        sample(shift_right(image, zero), zero, c, h, w) == sample(image, zero, c, h, w - 1) by {}
}

/// The image with a border of `zero`, one cell wide, on all four sides.
pub open spec fn bordered<T>(image: Seq<Seq<Seq<T>>>, g: Geometry, zero: T) -> Seq<Seq<Seq<T>>> {
    Seq::new(
        g.in_channels,
        |c: int|
            Seq::new(
                g.in_height + 2,
                |h: int|
                    Seq::new(
                        g.in_width + 2,
                        |w: int|
                            if 1 <= h <= g.in_height && 1 <= w <= g.in_width {
                                image[c][h - 1][w - 1]
                            } else {
                                zero
                            },
                    ),
            ),
    )
}

/// The shape of an image that has grown a border one cell wide.
pub open spec fn with_border(g: Geometry) -> Geometry {
    Geometry { in_height: g.in_height + 2, in_width: g.in_width + 2, ..g }
}

/// The shape with one more cell of padding on every side.
pub open spec fn with_more_padding(g: Geometry) -> Geometry {
    Geometry { padding: g.padding + 1, ..g }
}

/// Padding is a border of zeros: an image with a border of `zero` around it
/// has, under one shape, the patch matrix that the image itself has with one
/// more cell of padding.
pub proof fn lemma_padding_is_border<T>(image: Seq<Seq<Seq<T>>>, g: Geometry, zero: T)
    requires
        conforms(image, g),
    ensures
        conforms(bordered(image, g, zero), with_border(g)),
        with_border(g).valid() <==> with_more_padding(g).valid(),
        patch_matrix(bordered(image, g, zero), with_border(g), zero) == patch_matrix(
            image,
            with_more_padding(g),
            zero,
        ),
{
    assert forall|c: int, h: int, w: int|
        sample(bordered(image, g, zero), zero, c, h + 1, w + 1) == sample(
            image,
            zero,
            c,
            h,
            w,
        ) by {}
    let ga = with_border(g);
    let gb = with_more_padding(g);
    assert(ga.out_height() == gb.out_height());
    assert(ga.out_width() == gb.out_width());
    assert forall|r: int, col: int|
        patch_cell(bordered(image, g, zero), ga, zero, r, col) == patch_cell(
            image,
            gb,
            zero,
            r,
            col,
        ) by {
        let h = gb.source_row(r, col);
        let w = gb.source_col(r, col);
        assert(ga.source_row(r, col) == h + 1);
        assert(ga.source_col(r, col) == w + 1);
    }
    assert(patch_matrix(bordered(image, g, zero), ga, zero) =~~= patch_matrix(image, gb, zero));
}

/// Two-digit numbers in base `b` compare digit by digit, the high digit first.
proof fn lemma_step_order(q1: int, r1: int, q2: int, r2: int, b: int)
    by (nonlinear_arith)
    requires
        0 <= r1 < b,
        0 <= r2 < b,
    ensures
        q1 * b + r1 < q2 * b + r2 <==> (q1 < q2 || (q1 == q2 && r1 < r2)),
{
}

} // verus!
