//! Sums over the cells of images and of patch matrices.

use crate::arith::{lemma_join_index, lemma_split_index};
use crate::laws::lemma_layout;
use crate::shape::Geometry;
use crate::unfold::{conforms, patch_cell, patch_matrix, sample};
use vstd::prelude::*;

verus! {

/// `f(0) + f(1) + ... + f(n - 1)`.
pub open spec fn sum_to(n: int, f: spec_fn(int) -> int) -> int
    decreases n,
{
    if n <= 0 {
        0
    } else {
        sum_to(n - 1, f) + f(n - 1)
    }
}

/// Sum of the cells of a row.
pub open spec fn row_total(row: Seq<int>) -> int {
    sum_to(row.len() as int, |j: int| row[j])
}

/// Sum of the cells of a matrix.
pub open spec fn grid_total(m: Seq<Seq<int>>) -> int {
    sum_to(m.len() as int, |i: int| row_total(m[i]))
}

/// Sum of the cells of an image.
pub open spec fn volume_total(x: Seq<Seq<Seq<int>>>) -> int {
    sum_to(x.len() as int, |c: int| grid_total(x[c]))
}

/// Sum of what the window at position `(out_row, out_col)` covers: over every
/// channel and every cell of the window, the image cell under it, or zero
/// where the window hangs over the padding.
pub open spec fn window_total(x: Seq<Seq<Seq<int>>>, g: Geometry, out_row: int, out_col: int) -> int {
    sum_to(
        g.in_channels as int,
        |c: int|
            sum_to(
                g.kernel_size as int,
                |kh: int|
                    sum_to(
                        g.kernel_size as int,
                        |kw: int|
                            sample(
                                x,
                                0,
                                c,
                                out_row * g.stride + kh - g.padding,
                                out_col * g.stride + kw - g.padding,
                            ),
                    ),
            ),
    )
}

/// Sum of [`window_total`] over every window position.
pub open spec fn windows_total(x: Seq<Seq<Seq<int>>>, g: Geometry) -> int {
    sum_to(
        g.out_height(),
        |out_row: int| sum_to(g.out_width(), |out_col: int| window_total(x, g, out_row, out_col)),
    )
}

/// Sums of functions that agree below `n` agree.
pub proof fn lemma_sum_congruence(n: int, f: spec_fn(int) -> int, g: spec_fn(int) -> int)
    requires
        forall|i: int| 0 <= i < n ==> #[trigger] f(i) == g(i),
    ensures
        sum_to(n, f) == sum_to(n, g),
    decreases n,
{
    if n > 0 {
        lemma_sum_congruence(n - 1, f, g);
    }
}

/// A sum of zeros is zero.
pub proof fn lemma_sum_zero(n: int, f: spec_fn(int) -> int)
    requires
        forall|i: int| 0 <= i < n ==> #[trigger] f(i) == 0,
    ensures
        sum_to(n, f) == 0,
    decreases n,
{
    if n > 0 {
        lemma_sum_zero(n - 1, f);
    }
}

/// The sum of a term-wise sum is the sum of the sums.
pub proof fn lemma_sum_add(
    n: int,
    h: spec_fn(int) -> int,
    f: spec_fn(int) -> int,
    g: spec_fn(int) -> int,
)
    requires
        forall|i: int| 0 <= i < n ==> #[trigger] h(i) == f(i) + g(i),
    ensures
        sum_to(n, h) == sum_to(n, f) + sum_to(n, g),
    decreases n,
{
    if n > 0 {
        lemma_sum_add(n - 1, h, f, g);
    }
}

/// A sum of `n + m` terms is the sum of the first `n` and of the `m` after.
pub proof fn lemma_sum_split(n: int, m: int, f: spec_fn(int) -> int)
    requires
        n >= 0,
        m >= 0,
    ensures
        sum_to(n + m, f) == sum_to(n, f) + sum_to(m, |j: int| f(n + j)),
    decreases m,
{
    if m > 0 {
        lemma_sum_split(n, m - 1, f);
    }
}

/// A double sum may be taken in either order.
pub proof fn lemma_sum_swap(n: int, m: int, f: spec_fn(int, int) -> int)
    ensures
        sum_to(n, |i: int| sum_to(m, |j: int| f(i, j))) == sum_to(
            m,
            |j: int| sum_to(n, |i: int| f(i, j)),
        ),
    decreases n,
{
    let rows = |i: int| sum_to(m, |j: int| f(i, j));
    let cols = |j: int| sum_to(n, |i: int| f(i, j));
    if n <= 0 {
        lemma_sum_zero(m, cols);
    } else {
        let k = n - 1;
        lemma_sum_swap(k, m, f);
        let cols_before = |j: int| sum_to(k, |i: int| f(i, j));
        let last = |j: int| f(k, j);
        lemma_sum_add(m, cols, cols_before, last);
        assert(rows(k) == sum_to(m, last));
    }
}

/// A sum over `a * b` terms is a sum over `a` blocks of `b` terms each.
pub proof fn lemma_sum_flatten(a: int, b: int, f: spec_fn(int) -> int)
    requires
        a >= 0,
        b >= 0,
    ensures
        sum_to(a * b, f) == sum_to(a, |q: int| sum_to(b, |r: int| f(q * b + r))),
    decreases a,
{
    let blocks = |q: int| sum_to(b, |r: int| f(q * b + r));
    if a == 0 {
        assert(a * b == 0) by (nonlinear_arith)
            requires
                a == 0,
        ;
    } else {
        let k = a - 1;
        lemma_sum_flatten(k, b, f);
        let base = k * b;
        assert(base >= 0 && a * b == base + b) by (nonlinear_arith)
            requires
                k >= 0,
                b >= 0,
                a == k + 1,
                base == k * b,
        ;
        lemma_sum_split(base, b, f);
        let tail = |j: int| f(base + j);
        let block = |r: int| f(k * b + r);
        lemma_sum_congruence(b, tail, block);
        assert(blocks(k) == sum_to(b, block));
    }
}

/// The sum of one column of the patch matrix is the sum of what the window at
/// the column's position covers.
pub proof fn lemma_column_total(x: Seq<Seq<Seq<int>>>, g: Geometry, col: int)
    requires
        g.valid(),
        0 <= col < g.cols(),
    ensures
        sum_to(g.rows(), |r: int| patch_cell(x, g, 0, r, col)) == window_total(
            x,
            g,
            g.out_row_of(col),
            g.out_col_of(col),
        ),
{
    g.lemma_extents_positive();
    let ic = g.in_channels as int;
    let k = g.kernel_size as int;
    let kk = g.window();
    let out_row = g.out_row_of(col);
    let out_col = g.out_col_of(col);
    lemma_split_index(col, g.out_height(), g.out_width());
    let f = |r: int| patch_cell(x, g, 0, r, col);
    lemma_sum_flatten(ic, kk, f);
    let by_channel = |q: int| sum_to(kk, |r: int| f(q * kk + r));
    let covered = |c: int|
        sum_to(
            g.kernel_size as int,
            |kh: int|
                sum_to(
                    g.kernel_size as int,
                    |kw: int|
                        sample(
                            x,
                            0,
                            c,
                            out_row * g.stride + kh - g.padding,
                            out_col * g.stride + kw - g.padding,
                        ),
                ),
        );
    assert forall|c: int| 0 <= c < ic implies #[trigger] by_channel(c) == covered(c) by {
        let in_channel = |r: int| f(c * kk + r);
        lemma_sum_flatten(k, k, in_channel);
        let by_row = |q: int| sum_to(k, |r: int| in_channel(q * k + r));
        let covered_rows = |kh: int|
            sum_to(
                g.kernel_size as int,
                |kw: int|
                    sample(
                        x,
                        0,
                        c,
                        out_row * g.stride + kh - g.padding,
                        out_col * g.stride + kw - g.padding,
                    ),
            );
        assert forall|kh: int| 0 <= kh < k implies #[trigger] by_row(kh) == covered_rows(kh) by {
            let in_row = |r: int| in_channel(kh * k + r);
            let covered_cells = |kw: int|
                sample(
                    x,
                    0,
                    c,
                    out_row * g.stride + kh - g.padding,
                    out_col * g.stride + kw - g.padding,
                );
            assert forall|kw: int| 0 <= kw < k implies #[trigger] in_row(kw) == covered_cells(
                kw,
            ) by {
                lemma_layout(x, g, 0, c, kh, kw, out_row, out_col);
                assert(g.row_index(c, kh, kw) == c * kk + (kh * k + kw)) by (nonlinear_arith)
                    requires
                        g.row_index(c, kh, kw) == (c * k + kh) * k + kw,
                        kk == k * k,
                ;
            }
            lemma_sum_congruence(k, in_row, covered_cells);
        }
        lemma_sum_congruence(k, by_row, covered_rows);
    }
    lemma_sum_congruence(ic, by_channel, covered);
}

/// The sum of all cells of the patch matrix is the sum, over every window
/// position and every cell of the window, of the image cell under it, with
/// zero for the cells in the padding.
pub proof fn lemma_total_by_windows(x: Seq<Seq<Seq<int>>>, g: Geometry)
    requires
        g.valid(),
    ensures
        grid_total(patch_matrix(x, g, 0)) == windows_total(x, g),
{
    g.lemma_extents_positive();
    let rows = g.rows();
    let cols = g.cols();
    let out_height = g.out_height();
    let out_width = g.out_width();
    let m = patch_matrix(x, g, 0);
    let f = |r: int, col: int| patch_cell(x, g, 0, r, col);
    // Row by row, the matrix sums the cells that `f` names.
    let row_totals = |i: int| row_total(m[i]);
    let row_sums = |i: int| sum_to(cols, |j: int| f(i, j));
    assert forall|i: int| 0 <= i < rows implies #[trigger] row_totals(i) == row_sums(i) by {
        let row = m[i];
        lemma_sum_congruence(cols, |j: int| row[j], |j: int| f(i, j));
    }
    lemma_sum_congruence(rows, row_totals, row_sums);
    // Column by column instead.
    lemma_sum_swap(rows, cols, f);
    let col_sums = |j: int| sum_to(rows, |i: int| f(i, j));
    let at_column = |col: int| window_total(x, g, col / out_width, col % out_width);
    assert forall|j: int| 0 <= j < cols implies #[trigger] col_sums(j) == at_column(j) by {
        lemma_column_total(x, g, j);
        lemma_sum_congruence(rows, |i: int| f(i, j), |r: int| patch_cell(x, g, 0, r, j));
    }
    lemma_sum_congruence(cols, col_sums, at_column);
    // The columns are the window positions, row by row.
    lemma_sum_flatten(out_height, out_width, at_column);
    let by_out_row = |q: int| sum_to(out_width, |r: int| at_column(q * out_width + r));
    let by_position = |out_row: int|
        sum_to(g.out_width(), |out_col: int| window_total(x, g, out_row, out_col));
    assert forall|q: int| 0 <= q < out_height implies #[trigger] by_out_row(q) == by_position(
        q,
    ) by {
        let along = |r: int| at_column(q * out_width + r);
        let positions = |out_col: int| window_total(x, g, q, out_col);
        assert forall|r: int| 0 <= r < out_width implies #[trigger] along(r) == positions(r) by {
            lemma_join_index(q, r, out_height, out_width);
        }
        lemma_sum_congruence(out_width, along, positions);
    }
    lemma_sum_congruence(out_height, by_out_row, by_position);
}

/// A sum of one term is that term.
pub proof fn lemma_sum_one(f: spec_fn(int) -> int)
    ensures
        sum_to(1, f) == f(0),
{
    assert(sum_to(0, f) == 0);
}

/// The sum of the cells of an image, taken position by position: for every
/// row and column, the sum over the channels.
pub proof fn lemma_volume_total_by_position(x: Seq<Seq<Seq<int>>>, g: Geometry)
    requires
        conforms(x, g),
    ensures
        volume_total(x) == sum_to(
            g.in_height as int,
            |h: int| sum_to(g.in_width as int, |w: int| sum_to(g.in_channels as int, |c: int| x[c][h][w])),
        ),
{
    let ic = g.in_channels as int;
    let ih = g.in_height as int;
    let iw = g.in_width as int;
    // Channel by channel, the image sums the rows that `line` names.
    let line = |h: int, c: int| sum_to(iw, |w: int| x[c][h][w]);
    let planes = |c: int| grid_total(x[c]);
    let planes_by_line = |c: int| sum_to(ih, |h: int| line(h, c));
    assert forall|c: int| 0 <= c < ic implies #[trigger] planes(c) == planes_by_line(c) by {
        let plane = x[c];
        let lines = |h: int| row_total(plane[h]);
        let lines_of = |h: int| line(h, c);
        assert forall|h: int| 0 <= h < ih implies #[trigger] lines(h) == lines_of(h) by {
            let row = plane[h];
            lemma_sum_congruence(iw, |j: int| row[j], |w: int| x[c][h][w]);
        }
        lemma_sum_congruence(ih, lines, lines_of);
    }
    lemma_sum_congruence(ic, planes, planes_by_line);
    // Row by row instead.
    lemma_sum_swap(ih, ic, line);
    let rows_by_line = |h: int| sum_to(ic, |c: int| line(h, c));
    let rows_by_cell = |h: int| sum_to(iw, |w: int| sum_to(ic, |c: int| x[c][h][w]));
    assert forall|h: int| 0 <= h < ih implies #[trigger] rows_by_line(h) == rows_by_cell(h) by {
        let cell = |w: int, c: int| x[c][h][w];
        lemma_sum_swap(iw, ic, cell);
        let across = |c: int| line(h, c);
        let across_cells = |c: int| sum_to(iw, |w: int| cell(w, c));
        assert forall|c: int| 0 <= c < ic implies #[trigger] across(c) == across_cells(c) by {
            lemma_sum_congruence(iw, |w: int| x[c][h][w], |w: int| cell(w, c));
        }
        lemma_sum_congruence(ic, across, across_cells);
        let down = |w: int| sum_to(ic, |c: int| cell(w, c));
        let down_cells = |w: int| sum_to(ic, |c: int| x[c][h][w]);
        assert forall|w: int| 0 <= w < iw implies #[trigger] down(w) == down_cells(w) by {
            lemma_sum_congruence(ic, |c: int| cell(w, c), |c: int| x[c][h][w]);
        }
        lemma_sum_congruence(iw, down, down_cells);
    }
    lemma_sum_congruence(ih, rows_by_line, rows_by_cell);
}

/// Where every window covers one cell and the windows together cover every
/// cell of the image once, the patch matrix sums to what the image sums to.
///
/// That is so without padding for a window of one cell that moves one cell at
/// a time, or that lies over an image of one cell per channel; and for an
/// image without channels. For every other shape without padding some image
/// sums to something else than its patch matrix does: a wider window covers
/// the first cell of a channel once only, and a longer stride skips cells.
pub proof fn lemma_total_of_unit_window(x: Seq<Seq<Seq<int>>>, g: Geometry)
    requires
        g.valid(),
        conforms(x, g),
        g.padding == 0,
        (g.in_height - g.kernel_size) % (g.stride as int) == 0,
        (g.in_width - g.kernel_size) % (g.stride as int) == 0,
        g.in_channels == 0 || (g.kernel_size == 1 && (g.stride == 1 || (g.in_height == 1
            && g.in_width == 1))),
    ensures
        grid_total(patch_matrix(x, g, 0)) == g.kernel_size * g.kernel_size * volume_total(x),
{
    let ic = g.in_channels as int;
    let ih = g.in_height as int;
    let iw = g.in_width as int;
    let k = g.kernel_size as int;
    let s = g.stride as int;
    if ic == 0 {
        assert(g.rows() == 0) by (nonlinear_arith)
            requires
                g.rows() == 0 * g.window(),
        ;
        assert(k * k * 0 == 0) by (nonlinear_arith);
    } else {
        lemma_total_by_windows(x, g);
        lemma_volume_total_by_position(x, g);
        assert(g.out_height() == ih && g.out_width() == iw) by {
            if s == 1 {
            } else {
                assert(0int / s == 0) by (nonlinear_arith)
                    requires
                        s >= 1,
                ;
            }
        }
        let by_window = |out_row: int|
            sum_to(g.out_width(), |out_col: int| window_total(x, g, out_row, out_col));
        let by_cell = |h: int| sum_to(iw, |w: int| sum_to(ic, |c: int| x[c][h][w]));
        assert forall|h: int| 0 <= h < ih implies #[trigger] by_window(h) == by_cell(h) by {
            let windows = |out_col: int| window_total(x, g, h, out_col);
            let cells = |w: int| sum_to(ic, |c: int| x[c][h][w]);
            assert forall|w: int| 0 <= w < iw implies #[trigger] windows(w) == cells(w) by {
                assert(h * s == h && w * s == w) by (nonlinear_arith)
                    requires
                        s == 1 || (h == 0 && w == 0),
                ;
                let covered = |c: int|
                    sum_to(
                        g.kernel_size as int,
                        |kh: int|
                            sum_to(
                                g.kernel_size as int,
                                |kw: int|
                                    sample(
                                        x,
                                        0,
                                        c,
                                        h * g.stride + kh - g.padding,
                                        w * g.stride + kw - g.padding,
                                    ),
                            ),
                    );
                let under = |c: int| x[c][h][w];
                assert forall|c: int| 0 <= c < ic implies #[trigger] covered(c) == under(c) by {
                    let covered_rows = |kh: int|
                        sum_to(
                            g.kernel_size as int,
                            |kw: int|
                                sample(
                                    x,
                                    0,
                                    c,
                                    h * g.stride + kh - g.padding,
                                    w * g.stride + kw - g.padding,
                                ),
                        );
                    let kh = 0int;
                    let covered_cells = |kw: int|
                        sample(
                            x,
                            0,
                            c,
                            h * g.stride + kh - g.padding,
                            w * g.stride + kw - g.padding,
                        );
                    lemma_sum_one(covered_rows);
                    lemma_sum_one(covered_cells);
                }
                lemma_sum_congruence(ic, covered, under);
            }
            lemma_sum_congruence(iw, windows, cells);
        }
        lemma_sum_congruence(ih, by_window, by_cell);
        assert(k * k * volume_total(x) == volume_total(x)) by (nonlinear_arith)
            requires
                k == 1,
        ;
    }
}

} // verus!
