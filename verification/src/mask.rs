//! Combinational circuits on 32 x 32 patches: a threshold mask and a centroid
//! accumulator over the mask, and the kernels that combine them. The accumulators are
//! 8-bit registers that wrap around.
use crate::simulation::{top_left, ImageMatrix};
use vstd::arithmetic::div_mod::{
    lemma_add_mod_noop, lemma_add_mod_noop_right, lemma_mod_bound, lemma_small_mod,
};
use vstd::prelude::*;

verus! {

/// The threshold above which a pixel belongs to the mask.
pub const THRESHOLD: u8 = 128;

/// The value that `mask` gives the pixel in row `y`, column `x` of `rows`: 1 when the
/// pixel is above the threshold, else 0. Only rows `0 .. 31` are thresholded; row 31 of
/// the mask is left 0.
pub open spec fn mask_value(rows: Seq<Seq<u8>>, y: int, x: int) -> u8 {
    if y < 31 && rows[y][x] > THRESHOLD {
        1
    } else {
        0
    }
}

/// The 32 x 32 mask of `rows`.
pub open spec fn mask_rows(rows: Seq<Seq<u8>>) -> Seq<Seq<u8>> {
    Seq::new(32, |y: int| Seq::new(32, |x: int| mask_value(rows, y, x)))
}

/// Sums over the first `k` pixels of a 32-wide patch, in row-major order (pixel `k` is in
/// row `k / 32`, column `k % 32`): the sum of the rows of the pixels equal to 1, the sum of
/// their columns, and the sum of all pixel values.
pub open spec fn grid_sums(rows: Seq<Seq<u8>>, k: int) -> (int, int, int)
    decreases k,
{
    if k <= 0 {
        (0, 0, 0)
    } else {
        let prev = grid_sums(rows, k - 1);
        let y = (k - 1) / 32;
        let x = (k - 1) % 32;
        let v = rows[y][x];
        (
            prev.0 + (if v == 1 { y } else { 0 }),
            prev.1 + (if v == 1 { x } else { 0 }),
            prev.2 + v,
        )
    }
}

/// What `find_centroid` returns for the patch `rows`, row by row: `[[Σ y, Σ x], [n, n]]`
/// over the pixels equal to 1, where `n` is the sum of all pixel values, each sum
/// reduced modulo 256.
pub open spec fn centroid_rows(rows: Seq<Seq<u8>>) -> Seq<Seq<u8>> {
    let s = grid_sums(rows, 1024);
    seq![
        seq![(s.0 % 256) as u8, (s.1 % 256) as u8],
        seq![(s.2 % 256) as u8, (s.2 % 256) as u8],
    ]
}

/// What `sim_kernel` returns for the RGB and depth patches: the wrapped differences of
/// the first row of their centroid accumulators, and a zero second row.
pub open spec fn difference_rows(rgb: Seq<Seq<u8>>, depth: Seq<Seq<u8>>) -> Seq<Seq<u8>> {
    let c_rgb = centroid_rows(mask_rows(rgb));
    let c_depth = centroid_rows(mask_rows(depth));
    seq![
        seq![
            ((c_rgb[0][0] - c_depth[0][0]) % 256) as u8,
            ((c_rgb[0][1] - c_depth[0][1]) % 256) as u8,
        ],
        seq![0u8, 0u8],
    ]
}

/// Thresholds the patch: each pixel of rows `0 .. 31` becomes 1 when above 128, else 0;
/// row 31 stays 0.
pub fn mask(input: &ImageMatrix<32, 32>) -> (res: ImageMatrix<32, 32>)
    requires
        input.wf(),
    ensures
        res.wf(),
        res.rows() == mask_rows(input.rows()),
        forall|y: int, x: int|
            0 <= y < 31 && 0 <= x < 32 ==> (#[trigger] res.pixel(y, x) == 1 <==> input.pixel(y, x)
                > 128) && res.pixel(y, x) <= 1,
        forall|x: int| 0 <= x < 32 ==> #[trigger] res.pixel(31, x) == 0,
{
    let mut data: Vec<Vec<u8>> = Vec::new();
    for i in 0..32usize
        invariant
            input.wf(),
            data@.len() == i,
            forall|k: int| 0 <= k < i ==> #[trigger] data@[k]@ == mask_rows(input.rows())[k],
    {
        let mut row: Vec<u8> = Vec::new();
        for j in 0..32usize
            invariant
                input.wf(),
                0 <= i < 32,
                row@.len() == j,
                forall|x: int|
                    0 <= x < j ==> row@[x] == mask_value(input.rows(), i as int, x),
        {
            let v: u8 = if i < 31 && input.data[i][j] > THRESHOLD {
                1
            } else {
                0
            };
            row.push(v);
        }
        assert(row@ =~= mask_rows(input.rows())[i as int]);
        data.push(row);
    }
    let res = ImageMatrix { data };
    assert(res.rows() =~= mask_rows(input.rows()));
    res
}

proof fn lemma_grid_step(rows: Seq<Seq<u8>>, y: int, x: int)
    requires
        0 <= y < 32,
        0 <= x < 32,
    ensures
        ({
            let prev = grid_sums(rows, 32 * y + x);
            let v = rows[y][x];
            grid_sums(rows, 32 * y + x + 1) == (
                prev.0 + (if v == 1 { y } else { 0 }),
                prev.1 + (if v == 1 { x } else { 0 }),
                prev.2 + v,
            )
        }),
{
    assert((32 * y + x) / 32 == y && (32 * y + x) % 32 == x) by (nonlinear_arith)
        requires
            0 <= x < 32,
    ;
}

/// Accumulates over the patch the rows and the columns of the pixels equal to 1
/// (`data[0][0]`, `data[0][1]`) and the sum of all pixel values (`data[1][0]` and
/// `data[1][1]`), in 8-bit registers that wrap around.
pub fn find_centroid(input: &ImageMatrix<32, 32>) -> (r: ImageMatrix<2, 2>)
    requires
        input.wf(),
    ensures
        r.wf(),
        r.rows() == centroid_rows(input.rows()),
{
    let mut sum_row: u8 = 0;
    let mut sum_col: u8 = 0;
    let mut count: u8 = 0;
    let ghost rows = input.rows();
    for i in 0..32usize
        invariant
            input.wf(),
            rows == input.rows(),
            sum_row as int == grid_sums(rows, 32 * i).0 % 256,
            sum_col as int == grid_sums(rows, 32 * i).1 % 256,
            count as int == grid_sums(rows, 32 * i).2 % 256,
    {
        for j in 0..32usize
            invariant
                input.wf(),
                rows == input.rows(),
                0 <= i < 32,
                sum_row as int == grid_sums(rows, 32 * i + j).0 % 256,
                sum_col as int == grid_sums(rows, 32 * i + j).1 % 256,
                count as int == grid_sums(rows, 32 * i + j).2 % 256,
        {
            let v = input.data[i][j];
            proof {
                lemma_grid_step(rows, i as int, j as int);
                let prev = grid_sums(rows, 32 * i + j);
                lemma_add_mod_noop_right(if v == 1 { i as int } else { 0 }, prev.0, 256);
                lemma_add_mod_noop_right(if v == 1 { j as int } else { 0 }, prev.1, 256);
                lemma_add_mod_noop_right(v as int, prev.2, 256);
            }
            let dy: u8 = if v == 1 { i as u8 } else { 0 };
            let dx: u8 = if v == 1 { j as u8 } else { 0 };
            sum_row = ((sum_row as u16 + dy as u16) % 256) as u8;
            sum_col = ((sum_col as u16 + dx as u16) % 256) as u8;
            count = ((count as u16 + v as u16) % 256) as u8;
        }
    }
    let r: ImageMatrix<2, 2> = ImageMatrix { data: vec![vec![sum_row, sum_col], vec![count, count]] };
    assert(r.rows()[0] =~= centroid_rows(rows)[0]);
    assert(r.rows()[1] =~= centroid_rows(rows)[1]);
    assert(r.rows() =~= centroid_rows(rows));
    r
}

/// Row `y` of a grid function summed over columns `0 .. n`: `Σ_{x<n} f(y, x)`.
pub open spec fn row_total(f: spec_fn(int, int) -> int, y: int, n: int) -> int
    decreases n,
{
    if n <= 0 {
        0
    } else {
        row_total(f, y, n - 1) + f(y, n - 1)
    }
}

/// Column `x` of a grid function summed over rows `0 .. r`: `Σ_{y<r} f(y, x)`.
pub open spec fn column_total(f: spec_fn(int, int) -> int, x: int, r: int) -> int
    decreases r,
{
    if r <= 0 {
        0
    } else {
        column_total(f, x, r - 1) + f(r - 1, x)
    }
}

/// A grid function summed over rows `0 .. r`, columns `0 .. n`, row by row.
pub open spec fn grid_total(f: spec_fn(int, int) -> int, r: int, n: int) -> int
    decreases r,
{
    if r <= 0 {
        0
    } else {
        grid_total(f, r - 1, n) + row_total(f, r - 1, n)
    }
}

/// A grid function summed over rows `0 .. r`, columns `0 .. n`, column by column.
pub open spec fn grid_total_by_columns(f: spec_fn(int, int) -> int, r: int, n: int) -> int
    decreases n,
{
    if n <= 0 {
        0
    } else {
        grid_total_by_columns(f, r, n - 1) + column_total(f, n - 1, r)
    }
}

/// The row of each pixel equal to 1, and 0 for the others.
pub open spec fn row_of_ones(rows: Seq<Seq<u8>>) -> spec_fn(int, int) -> int {
    |y: int, x: int| if rows[y][x] == 1 { y } else { 0 }
}

/// The column of each pixel equal to 1, and 0 for the others.
pub open spec fn column_of_ones(rows: Seq<Seq<u8>>) -> spec_fn(int, int) -> int {
    |y: int, x: int| if rows[y][x] == 1 { x } else { 0 }
}

/// The value of each pixel.
pub open spec fn pixel_value(rows: Seq<Seq<u8>>) -> spec_fn(int, int) -> int {
    |y: int, x: int| rows[y][x] as int
}

proof fn lemma_grid_prefix(rows: Seq<Seq<u8>>, i: int, j: int)
    requires
        0 <= i < 32,
        0 <= j <= 32,
    ensures
        grid_sums(rows, 32 * i + j) == (
            grid_total(row_of_ones(rows), i, 32) + row_total(row_of_ones(rows), i, j),
            grid_total(column_of_ones(rows), i, 32) + row_total(column_of_ones(rows), i, j),
            grid_total(pixel_value(rows), i, 32) + row_total(pixel_value(rows), i, j),
        ),
    decreases i, j,
{
    if j > 0 {
        lemma_grid_prefix(rows, i, j - 1);
        lemma_grid_step(rows, i, j - 1);
    } else if i > 0 {
        lemma_grid_prefix(rows, i - 1, 32);
    }
}

/// Summing a grid row by row or column by column gives the same total.
proof fn lemma_grid_by_columns(f: spec_fn(int, int) -> int, r: int, n: int)
    requires
        r >= 0,
        n >= 0,
    ensures
        grid_total(f, r, n) == grid_total_by_columns(f, r, n),
    decreases r,
{
    if r > 0 {
        lemma_grid_by_columns(f, r - 1, n);
        lemma_columns_add_row(f, r, n);
    } else {
        lemma_columns_of_no_rows(f, n);
    }
}

proof fn lemma_columns_of_no_rows(f: spec_fn(int, int) -> int, n: int)
    requires
        n >= 0,
    ensures
        grid_total_by_columns(f, 0, n) == 0,
    decreases n,
{
    if n > 0 {
        lemma_columns_of_no_rows(f, n - 1);
    }
}

proof fn lemma_columns_add_row(f: spec_fn(int, int) -> int, r: int, n: int)
    requires
        r > 0,
        n >= 0,
    ensures
        grid_total_by_columns(f, r, n) == grid_total_by_columns(f, r - 1, n) + row_total(
            f,
            r - 1,
            n,
        ),
    decreases n,
{
    if n > 0 {
        lemma_columns_add_row(f, r, n - 1);
    }
}

/// The column sums of `f` are the row sums of its transpose `g`.
proof fn lemma_columns_of_transpose(
    f: spec_fn(int, int) -> int,
    g: spec_fn(int, int) -> int,
    r: int,
    n: int,
)
    requires
        r >= 0,
        n >= 0,
        forall|y: int, x: int| 0 <= y < r && 0 <= x < n ==> #[trigger] f(y, x) == g(x, y),
    ensures
        grid_total_by_columns(f, r, n) == grid_total(g, n, r),
    decreases n,
{
    if n > 0 {
        lemma_columns_of_transpose(f, g, r, n - 1);
        lemma_column_is_row(f, g, n - 1, r);
    }
}

proof fn lemma_column_is_row(f: spec_fn(int, int) -> int, g: spec_fn(int, int) -> int, x: int, r: int)
    requires
        r >= 0,
        forall|y: int| 0 <= y < r ==> #[trigger] f(y, x) == g(x, y),
    ensures
        column_total(f, x, r) == row_total(g, x, r),
    decreases r,
{
    if r > 0 {
        lemma_column_is_row(f, g, x, r - 1);
    }
}

/// Transposing a patch swaps the row and column sums that `find_centroid` accumulates and
/// keeps the count: for `rows_t[i][j] == rows[j][i]`, the first row of
/// `centroid_rows(rows_t)` is that of `centroid_rows(rows)` reversed, and the second rows
/// are equal.
pub proof fn law_find_centroid_transpose(rows: Seq<Seq<u8>>, rows_t: Seq<Seq<u8>>)
    requires
        forall|i: int, j: int| 0 <= i < 32 && 0 <= j < 32 ==> #[trigger] rows_t[i][j] == rows[j][i],
    ensures
        centroid_rows(rows_t)[0][0] == centroid_rows(rows)[0][1],
        centroid_rows(rows_t)[0][1] == centroid_rows(rows)[0][0],
        centroid_rows(rows_t)[1] == centroid_rows(rows)[1],
{
    lemma_grid_prefix(rows, 31, 32);
    lemma_grid_prefix(rows_t, 31, 32);
    let rt = row_of_ones(rows_t);
    let ct = column_of_ones(rows_t);
    let vt = pixel_value(rows_t);
    let r = row_of_ones(rows);
    let c = column_of_ones(rows);
    let v = pixel_value(rows);
    assert forall|y: int, x: int| 0 <= y < 32 && 0 <= x < 32 implies #[trigger] rt(y, x) == c(x, y)
        by {
        assert(rows_t[y][x] == rows[x][y]);
    }
    assert forall|y: int, x: int| 0 <= y < 32 && 0 <= x < 32 implies #[trigger] ct(y, x) == r(x, y)
        by {
        assert(rows_t[y][x] == rows[x][y]);
    }
    assert forall|y: int, x: int| 0 <= y < 32 && 0 <= x < 32 implies #[trigger] vt(y, x) == v(x, y)
        by {
        assert(rows_t[y][x] == rows[x][y]);
    }
    lemma_grid_by_columns(rt, 32, 32);
    lemma_grid_by_columns(ct, 32, 32);
    lemma_grid_by_columns(vt, 32, 32);
    lemma_columns_of_transpose(rt, c, 32, 32);
    lemma_columns_of_transpose(ct, r, 32, 32);
    lemma_columns_of_transpose(vt, v, 32, 32);
    assert(centroid_rows(rows_t)[1] =~= centroid_rows(rows)[1]);
}

/// The mask is binary and marks exactly the pixels brighter than mid-gray: for every row
/// `y < 31` and column `x < 32`, `mask_rows(rows)[y][x]` is 1 when `rows[y][x] > 128` and
/// 0 otherwise, whatever the other pixels; the last row of the mask is 0. Brightening a
/// pixel never removes it from the mask.
pub proof fn law_mask_threshold(rows: Seq<Seq<u8>>, brighter: Seq<Seq<u8>>)
    ensures
        mask_rows(rows).len() == 32,
        forall|y: int| 0 <= y < 32 ==> #[trigger] mask_rows(rows)[y].len() == 32,
        forall|y: int, x: int|
            0 <= y < 31 && 0 <= x < 32 ==> (#[trigger] mask_rows(rows)[y][x] == 1 <==> rows[y][x]
                > 128),
        forall|y: int, x: int|
            0 <= y < 32 && 0 <= x < 32 ==> #[trigger] mask_rows(rows)[y][x] <= 1,
        forall|x: int| 0 <= x < 32 ==> #[trigger] mask_rows(rows)[31][x] == 0,
        forall|y: int, x: int|
            0 <= y < 32 && 0 <= x < 32 && brighter[y][x] >= rows[y][x] ==> #[trigger] mask_rows(
                brighter,
            )[y][x] >= mask_rows(rows)[y][x],
{
}

/// `sim_kernel` subtracts, entry by entry, the depth patch's centroid sums from the RGB
/// patch's: a patch compared with itself gives 0; swapping the two patches negates each
/// entry of the first row modulo 256; and each entry of the first row is the difference of
/// the matching entries (row sums, then column sums) of the two patches' centroid sums,
/// modulo 256. The second row is 0.
pub proof fn law_difference_of_centroids(a: Seq<Seq<u8>>, b: Seq<Seq<u8>>)
    ensures
        difference_rows(a, a) == seq![seq![0u8, 0u8], seq![0u8, 0u8]],
        forall|j: int|
            0 <= j < 2 ==> ((#[trigger] difference_rows(a, b)[0][j]) as int + difference_rows(
                b,
                a,
            )[0][j] as int) % 256 == 0,
        forall|j: int|
            0 <= j < 2 ==> (#[trigger] difference_rows(a, b)[0][j]) as int == (centroid_rows(
                mask_rows(a),
            )[0][j] - centroid_rows(mask_rows(b))[0][j]) % 256,
        difference_rows(a, b)[1] == seq![0u8, 0u8],
{
    let ca = centroid_rows(mask_rows(a));
    let cb = centroid_rows(mask_rows(b));
    assert(difference_rows(a, a) =~= seq![seq![0u8, 0u8], seq![0u8, 0u8]]) by {
        assert(difference_rows(a, a)[0] =~= seq![0u8, 0u8]);
        assert(difference_rows(a, a)[1] =~= seq![0u8, 0u8]);
    }
    assert forall|j: int| 0 <= j < 2 implies ((#[trigger] difference_rows(a, b)[0][j]) as int
        + difference_rows(b, a)[0][j] as int) % 256 == 0 by {
        let x = ca[0][j] as int;
        let y = cb[0][j] as int;
        lemma_add_mod_noop(x - y, y - x, 256);
        lemma_mod_bound(x - y, 256);
        lemma_mod_bound(y - x, 256);
    }
    assert(difference_rows(a, b)[1] =~= seq![0u8, 0u8]);
}

proof fn lemma_row_total_single(f: spec_fn(int, int) -> int, y: int, n: int, y0: int, x0: int, c: int)
    requires
        0 <= n <= 32,
        forall|x: int| 0 <= x < 32 ==> #[trigger] f(y, x) == (if y == y0 && x == x0 { c } else { 0 }),
    ensures
        row_total(f, y, n) == (if y == y0 && 0 <= x0 < n { c } else { 0 }),
    decreases n,
{
    if n > 0 {
        lemma_row_total_single(f, y, n - 1, y0, x0, c);
    }
}

proof fn lemma_grid_total_single(f: spec_fn(int, int) -> int, r: int, y0: int, x0: int, c: int)
    requires
        0 <= r <= 32,
        0 <= x0 < 32,
        forall|y: int, x: int|
            0 <= y < 32 && 0 <= x < 32 ==> #[trigger] f(y, x) == (if y == y0 && x == x0 { c } else { 0 }),
    ensures
        grid_total(f, r, 32) == (if 0 <= y0 < r { c } else { 0 }),
    decreases r,
{
    if r > 0 {
        lemma_grid_total_single(f, r - 1, y0, x0, c);
        assert forall|x: int| 0 <= x < 32 implies #[trigger] f(r - 1, x) == (if r - 1 == y0 && x
            == x0 { c } else { 0 }) by {}
        lemma_row_total_single(f, r - 1, 32, y0, x0, c);
    }
}

/// A patch whose only nonzero pixel has value `v` in row `y0`, column `x0` has count `v`;
/// its row and column sums are `y0` and `x0` when `v` is 1, and 0 for any other value.
pub proof fn law_find_centroid_single_pixel(rows: Seq<Seq<u8>>, y0: int, x0: int, v: u8)
    requires
        0 <= y0 < 32,
        0 <= x0 < 32,
        forall|y: int, x: int|
            0 <= y < 32 && 0 <= x < 32 ==> #[trigger] rows[y][x] == (if y == y0 && x == x0 {
                v
            } else {
                0u8
            }),
    ensures
        centroid_rows(rows)[1] == seq![v, v],
        v == 1 ==> centroid_rows(rows)[0] == seq![y0 as u8, x0 as u8],
        v != 1 ==> centroid_rows(rows)[0] == seq![0u8, 0u8],
{
    lemma_grid_prefix(rows, 31, 32);
    let r = row_of_ones(rows);
    let c = column_of_ones(rows);
    let p = pixel_value(rows);
    let ry = if v == 1 { y0 } else { 0 };
    let cx = if v == 1 { x0 } else { 0 };
    assert forall|y: int, x: int| 0 <= y < 32 && 0 <= x < 32 implies #[trigger] r(y, x) == (if y
        == y0 && x == x0 { ry } else { 0 }) by {}
    assert forall|y: int, x: int| 0 <= y < 32 && 0 <= x < 32 implies #[trigger] c(y, x) == (if y
        == y0 && x == x0 { cx } else { 0 }) by {}
    assert forall|y: int, x: int| 0 <= y < 32 && 0 <= x < 32 implies #[trigger] p(y, x) == (if y
        == y0 && x == x0 { v as int } else { 0 }) by {}
    lemma_grid_total_single(r, 32, y0, x0, ry);
    lemma_grid_total_single(c, 32, y0, x0, cx);
    lemma_grid_total_single(p, 32, y0, x0, v as int);
    lemma_small_mod(ry as nat, 256);
    lemma_small_mod(cx as nat, 256);
    lemma_small_mod(v as nat, 256);
    assert(centroid_rows(rows)[1] =~= seq![v, v]);
    if v == 1 {
        assert(centroid_rows(rows)[0] =~= seq![y0 as u8, x0 as u8]);
    } else {
        assert(centroid_rows(rows)[0] =~= seq![0u8, 0u8]);
    }
}

/// The register bank of the `sim` circuit: a single bit.
#[allow(non_camel_case_types)]
#[derive(Clone, Copy, Debug, PartialEq, Eq, Structural)]
pub struct sim {
    pub memory: bool,
}

impl Default for sim {
    /// The bit cleared.
    fn default() -> (s: Self)
        ensures
            s.memory == false,
    {
        sim { memory: false }
    }
}

/// Masks both patches (`images[0]` the RGB one, `images[1]` the depth one), accumulates
/// their centroid sums, and returns the wrapped 8-bit differences RGB − depth of the
/// row and column sums in the first row; the second row is 0.
pub fn sim_kernel(images: &[ImageMatrix<32, 32>; 2]) -> (r: ImageMatrix<2, 2>)
    requires
        images@[0].wf(),
        images@[1].wf(),
    ensures
        r.wf(),
        r.rows() == difference_rows(images@[0].rows(), images@[1].rows()),
        r.pixel(0, 0) as int == (centroid_rows(mask_rows(images@[0].rows()))[0][0] - centroid_rows(
            mask_rows(images@[1].rows()),
        )[0][0]) % 256,
        r.pixel(0, 1) as int == (centroid_rows(mask_rows(images@[0].rows()))[0][1] - centroid_rows(
            mask_rows(images@[1].rows()),
        )[0][1]) % 256,
        r.pixel(1, 0) == 0 && r.pixel(1, 1) == 0,
{
    let rgb_mask = mask(&images[0]);
    let depth_mask = mask(&images[1]);
    let c_rgb = find_centroid(&rgb_mask);
    let c_depth = find_centroid(&depth_mask);
    let a = c_rgb.data[0][0];
    let b = c_depth.data[0][0];
    let c = c_rgb.data[0][1];
    let d = c_depth.data[0][1];
    proof {
        assert((a as int + 256 - b as int) % 256 == (a as int - b as int) % 256) by {
            lemma_add_mod_noop_right(a as int - b as int, 256, 256);
        }
        assert((c as int + 256 - d as int) % 256 == (c as int - d as int) % 256) by {
            lemma_add_mod_noop_right(c as int - d as int, 256, 256);
        }
    }
    let r00 = ((a as u16 + 256 - b as u16) % 256) as u8;
    let r01 = ((c as u16 + 256 - d as u16) % 256) as u8;
    let r: ImageMatrix<2, 2> = ImageMatrix { data: vec![vec![r00, r01], vec![0, 0]] };
    let ghost expected = difference_rows(images@[0].rows(), images@[1].rows());
    assert(c_rgb.rows()[0][0] == a && c_depth.rows()[0][0] == b);
    assert(c_rgb.rows()[0][1] == c && c_depth.rows()[0][1] == d);
    assert(r.rows()[0] =~= expected[0]);
    assert(r.rows()[1] =~= expected[1]);
    assert(r.rows() =~= expected);
    assert(r.pixel(0, 0) == r.rows()[0][0] && r.pixel(0, 1) == r.rows()[0][1]);
    r
}

/// Masks the depth patch `images[1]` and returns its centroid accumulators
/// (see `find_centroid`); the RGB patch is not read.
pub fn sim_kernel_comb(images: &[ImageMatrix<32, 32>; 2]) -> (r: ImageMatrix<2, 2>)
    requires
        images@[1].wf(),
    ensures
        r.wf(),
        r.rows() == centroid_rows(mask_rows(images@[1].rows())),
{
    let depth_mask = mask(&images[1]);
    find_centroid(&depth_mask)
}

/// Copies the top-left 32 x 32 corner of each image into a patch and runs
/// `sim_kernel_comb` on them: the centroid accumulators of the depth image's mask.
/// Both images must have at least 32 rows of at least 32 pixels.
pub fn simulate(matrix_rgb: Vec<Vec<u8>>, matrix_depth: Vec<Vec<u8>>) -> (r: ImageMatrix<2, 2>)
    requires
        matrix_rgb@.len() >= 32,
        forall|y: int| 0 <= y < 32 ==> #[trigger] matrix_rgb@[y]@.len() >= 32,
        matrix_depth@.len() >= 32,
        forall|y: int| 0 <= y < 32 ==> #[trigger] matrix_depth@[y]@.len() >= 32,
    ensures
        r.wf(),
        r.rows() == centroid_rows(mask_rows(top_left(matrix_depth@, 32, 32))),
{
    let image_rgb_bits: ImageMatrix<32, 32> = ImageMatrix::create(matrix_rgb);
    let image_depth_bits: ImageMatrix<32, 32> = ImageMatrix::create(matrix_depth);
    let images = [image_rgb_bits, image_depth_bits];
    sim_kernel_comb(&images)
}

} // verus!
