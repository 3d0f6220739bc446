//! The moments of a whole image, given as rows of 8-bit weights: the pixel in row `i`,
//! column `j` has weight `img[i][j]` at position `(i, j)`. Outside its rows and columns
//! an image has weight 0.
use crate::moments::{
    axis, central, fits_registers, lemma_central_of_shifted, lemma_centroid_of_shifted, offset,
    pixel_moments, plus, registers, shifted_moments, zero_moments, Moments,
};
use vstd::arithmetic::mul::{lemma_mul_basics, lemma_mul_is_distributive_add};
use vstd::prelude::*;

verus! {

/// The weight of the pixel in row `i`, column `j` of `img`, and 0 outside the image.
pub open spec fn weight_at(img: Seq<Vec<u8>>, i: int, j: int) -> int {
    if 0 <= i < img.len() && 0 <= j < img[i]@.len() {
        img[i]@[j] as int
    } else {
        0
    }
}

/// The moments of the pixels of row `i`, columns `c0 .. c1`.
pub open spec fn row_moments(img: Seq<Vec<u8>>, i: int, c0: int, c1: int) -> Moments
    decreases c1 - c0,
{
    if c1 <= c0 {
        zero_moments()
    } else {
        plus(row_moments(img, i, c0, c1 - 1), pixel_moments(weight_at(img, i, c1 - 1), i, c1 - 1))
    }
}

/// The moments of the pixels in rows `r0 .. r1`, columns `c0 .. c1`.
pub open spec fn block_moments(img: Seq<Vec<u8>>, r0: int, r1: int, c0: int, c1: int) -> Moments
    decreases r1 - r0,
{
    if r1 <= r0 {
        zero_moments()
    } else {
        plus(block_moments(img, r0, r1 - 1, c0, c1), row_moments(img, r1 - 1, c0, c1))
    }
}

/// The moments of every pixel of the first `k` rows, each row taken whole.
pub open spec fn rows_moments(img: Seq<Vec<u8>>, k: int) -> Moments
    decreases k,
{
    if k <= 0 {
        zero_moments()
    } else {
        plus(rows_moments(img, k - 1), row_moments(img, k - 1, 0, img[k - 1]@.len() as int))
    }
}

/// The moments `Σ m`, `Σ i·m`, `Σ j·m`, `Σ i²·m`, `Σ j²·m`, `Σ i·j·m` over every pixel of
/// the image.
pub open spec fn image_moments(img: Seq<Vec<u8>>) -> Moments {
    rows_moments(img, img.len() as int)
}

/// Every row of `img` has `width` pixels.
pub open spec fn is_rectangular(img: Seq<Vec<u8>>, width: int) -> bool {
    forall|i: int| 0 <= i < img.len() ==> #[trigger] img[i]@.len() == width
}

/// `img2` shows what `img` shows, moved by `di` rows and `dj` columns: every pixel of `img`
/// lands, with its weight, inside `img2`, and every other pixel of `img2` is 0.
pub open spec fn is_shifted_copy(img2: Seq<Vec<u8>>, img: Seq<Vec<u8>>, di: int, dj: int) -> bool {
    forall|i: int, j: int| weight_at(img2, i + di, j + dj) == #[trigger] weight_at(img, i, j)
}

/// Every pixel of `img` outside rows `a0 .. a1`, columns `b0 .. b1` is 0.
pub open spec fn zero_outside(img: Seq<Vec<u8>>, a0: int, a1: int, b0: int, b1: int) -> bool {
    forall|i: int, j: int|
        !(a0 <= i < a1 && b0 <= j < b1) ==> #[trigger] weight_at(img, i, j) == 0
}

proof fn lemma_pixel_zero(x: int, y: int)
    ensures
        pixel_moments(0, x, y) == zero_moments(),
{
    lemma_mul_basics(x);
    lemma_mul_basics(y);
    lemma_mul_basics(0 * x);
    lemma_mul_basics(0 * y);
}

proof fn lemma_row_split(img: Seq<Vec<u8>>, i: int, c0: int, c1: int, c2: int)
    requires
        c0 <= c1 <= c2,
    ensures
        row_moments(img, i, c0, c2) == plus(row_moments(img, i, c0, c1), row_moments(img, i, c1, c2)),
    decreases c2 - c1,
{
    if c2 > c1 {
        lemma_row_split(img, i, c0, c1, c2 - 1);
    }
}

proof fn lemma_block_split(img: Seq<Vec<u8>>, r0: int, r1: int, r2: int, c0: int, c1: int)
    requires
        r0 <= r1 <= r2,
    ensures
        block_moments(img, r0, r2, c0, c1) == plus(
            block_moments(img, r0, r1, c0, c1),
            block_moments(img, r1, r2, c0, c1),
        ),
    decreases r2 - r1,
{
    if r2 > r1 {
        lemma_block_split(img, r0, r1, r2 - 1, c0, c1);
    }
}

proof fn lemma_row_zero(img: Seq<Vec<u8>>, i: int, c0: int, c1: int)
    requires
        forall|j: int| c0 <= j < c1 ==> #[trigger] weight_at(img, i, j) == 0,
    ensures
        row_moments(img, i, c0, c1) == zero_moments(),
    decreases c1 - c0,
{
    if c1 > c0 {
        lemma_row_zero(img, i, c0, c1 - 1);
        lemma_pixel_zero(i, c1 - 1);
    }
}

proof fn lemma_block_zero(img: Seq<Vec<u8>>, r0: int, r1: int, c0: int, c1: int)
    requires
        forall|i: int, j: int| r0 <= i < r1 && c0 <= j < c1 ==> #[trigger] weight_at(img, i, j) == 0,
    ensures
        block_moments(img, r0, r1, c0, c1) == zero_moments(),
    decreases r1 - r0,
{
    if r1 > r0 {
        lemma_block_zero(img, r0, r1 - 1, c0, c1);
        lemma_row_zero(img, r1 - 1, c0, c1);
    }
}

/// Within rows `r0 .. r1`, cutting off columns outside `b0 .. b1` that are all 0 changes no
/// moment.
proof fn lemma_block_trim_columns(
    img: Seq<Vec<u8>>,
    r0: int,
    r1: int,
    c0: int,
    b0: int,
    b1: int,
    c1: int,
)
    requires
        c0 <= b0 <= b1 <= c1,
        forall|i: int, j: int|
            r0 <= i < r1 && !(b0 <= j < b1) ==> #[trigger] weight_at(img, i, j) == 0,
    ensures
        block_moments(img, r0, r1, c0, c1) == block_moments(img, r0, r1, b0, b1),
    decreases r1 - r0,
{
    if r1 > r0 {
        let i = r1 - 1;
        lemma_block_trim_columns(img, r0, r1 - 1, c0, b0, b1, c1);
        lemma_row_split(img, i, c0, b0, c1);
        lemma_row_split(img, i, b0, b1, c1);
        assert forall|j: int| c0 <= j < b0 implies #[trigger] weight_at(img, i, j) == 0 by {}
        assert forall|j: int| b1 <= j < c1 implies #[trigger] weight_at(img, i, j) == 0 by {}
        lemma_row_zero(img, i, c0, b0);
        lemma_row_zero(img, i, b1, c1);
    }
}

/// Cutting a block down to a sub-block outside which every pixel is 0 changes no moment.
proof fn lemma_block_trim(
    img: Seq<Vec<u8>>,
    r0: int,
    r1: int,
    c0: int,
    c1: int,
    a0: int,
    a1: int,
    b0: int,
    b1: int,
)
    requires
        r0 <= a0 <= a1 <= r1,
        c0 <= b0 <= b1 <= c1,
        zero_outside(img, a0, a1, b0, b1),
    ensures
        block_moments(img, r0, r1, c0, c1) == block_moments(img, a0, a1, b0, b1),
{
    lemma_block_split(img, r0, a0, r1, c0, c1);
    lemma_block_split(img, a0, a1, r1, c0, c1);
    lemma_block_zero(img, r0, a0, c0, c1);
    lemma_block_zero(img, a1, r1, c0, c1);
    lemma_block_trim_columns(img, a0, a1, c0, b0, b1, c1);
}

/// Moving is linear: the moved moments of a union are the union of the moved moments.
proof fn lemma_shifted_plus(a: Moments, b: Moments, dx: int, dy: int)
    ensures
        shifted_moments(plus(a, b), dx, dy) == plus(
            shifted_moments(a, dx, dy),
            shifted_moments(b, dx, dy),
        ),
{
    lemma_mul_is_distributive_add(dx, a.s, b.s);
    lemma_mul_is_distributive_add(dy, a.s, b.s);
    lemma_mul_is_distributive_add(2 * dx, a.sx, b.sx);
    lemma_mul_is_distributive_add(dx * dx, a.s, b.s);
    lemma_mul_is_distributive_add(2 * dy, a.sy, b.sy);
    lemma_mul_is_distributive_add(dy * dy, a.s, b.s);
    lemma_mul_is_distributive_add(dy, a.sx, b.sx);
    lemma_mul_is_distributive_add(dx, a.sy, b.sy);
    lemma_mul_is_distributive_add(dx * dy, a.s, b.s);
}

proof fn lemma_shifted_zero(dx: int, dy: int)
    ensures
        shifted_moments(zero_moments(), dx, dy) == zero_moments(),
{
    lemma_mul_basics(dx);
    lemma_mul_basics(dy);
    lemma_mul_basics(2 * dx);
    lemma_mul_basics(2 * dy);
    lemma_mul_basics(dx * dx);
    lemma_mul_basics(dy * dy);
    lemma_mul_basics(dx * dy);
}

proof fn lemma_row_shift(
    img2: Seq<Vec<u8>>,
    img: Seq<Vec<u8>>,
    di: int,
    dj: int,
    i: int,
    c0: int,
    c1: int,
)
    requires
        is_shifted_copy(img2, img, di, dj),
    ensures
        row_moments(img2, i + di, c0 + dj, c1 + dj) == shifted_moments(
            row_moments(img, i, c0, c1),
            di,
            dj,
        ),
    decreases c1 - c0,
{
    if c1 <= c0 {
        lemma_shifted_zero(di, dj);
    } else {
        lemma_row_shift(img2, img, di, dj, i, c0, c1 - 1);
        let j = c1 - 1;
        let w = weight_at(img, i, j);
        assert(weight_at(img2, i + di, j + dj) == w);
        assert(c1 + dj - 1 == j + dj);
        crate::moments::lemma_pixel_moments_shifted(w, i, j, di, dj);
        lemma_shifted_plus(row_moments(img, i, c0, j), pixel_moments(w, i, j), di, dj);
    }
}

proof fn lemma_block_shift(
    img2: Seq<Vec<u8>>,
    img: Seq<Vec<u8>>,
    di: int,
    dj: int,
    r0: int,
    r1: int,
    c0: int,
    c1: int,
)
    requires
        is_shifted_copy(img2, img, di, dj),
    ensures
        block_moments(img2, r0 + di, r1 + di, c0 + dj, c1 + dj) == shifted_moments(
            block_moments(img, r0, r1, c0, c1),
            di,
            dj,
        ),
    decreases r1 - r0,
{
    if r1 <= r0 {
        lemma_shifted_zero(di, dj);
    } else {
        lemma_block_shift(img2, img, di, dj, r0, r1 - 1, c0, c1);
        lemma_row_shift(img2, img, di, dj, r1 - 1, c0, c1);
        assert(r1 + di - 1 == (r1 - 1) + di);
        lemma_shifted_plus(
            block_moments(img, r0, r1 - 1, c0, c1),
            row_moments(img, r1 - 1, c0, c1),
            di,
            dj,
        );
    }
}

/// The moments of a rectangular image are those of the block of its rows and columns.
proof fn lemma_rows_are_block(img: Seq<Vec<u8>>, width: int, k: int)
    requires
        is_rectangular(img, width),
        0 <= k <= img.len(),
    ensures
        rows_moments(img, k) == block_moments(img, 0, k, 0, width),
    decreases k,
{
    if k > 0 {
        lemma_rows_are_block(img, width, k - 1);
        assert(img[k - 1]@.len() == width);
    }
}

/// A rectangular image is 0 outside its rows and columns.
proof fn lemma_zero_outside_frame(img: Seq<Vec<u8>>, width: int)
    requires
        is_rectangular(img, width),
    ensures
        zero_outside(img, 0, img.len() as int, 0, width),
{
    assert forall|i: int, j: int|
        !(0 <= i < img.len() && 0 <= j < width) implies #[trigger] weight_at(img, i, j) == 0 by {
        if 0 <= i < img.len() {
            assert(img[i]@.len() == width);
        }
    }
}

/// Moving the object in an image moves its moments as `shifted_moments` says; so the
/// central moments and the orientation vector that the calibration derives from them do
/// not depend on where the object is, and the centroid moves by exactly the shift, which is
/// the offset measured from the original image to the moved one. Here `img` has `h` rows
/// and `img2` has `h2` rows of `w` and `w2` pixels; `img2` shows the content of `img`
/// moved by `di` rows and `dj` columns, none of it leaving `img2`, and 0 elsewhere. When
/// neither image's sums wrap around in the circuit's registers, the central moments
/// computed from the two sets of registers are equal too.
pub proof fn law_image_shift(
    img: Seq<Vec<u8>>,
    img2: Seq<Vec<u8>>,
    w: int,
    w2: int,
    di: int,
    dj: int,
)
    requires
        w >= 0,
        w2 >= 0,
        is_rectangular(img, w),
        is_rectangular(img2, w2),
        is_shifted_copy(img2, img, di, dj),
    ensures
        image_moments(img2) == shifted_moments(image_moments(img), di, dj),
        image_moments(img).s > 0 ==> {
            &&& central(image_moments(img2)) == central(image_moments(img))
            &&& axis(central(image_moments(img2))) == axis(central(image_moments(img)))
            &&& offset(image_moments(img), image_moments(img2)) == (di, dj)
        },
        image_moments(img).s > 0 && fits_registers(image_moments(img)) && fits_registers(
            image_moments(img2),
        ) ==> central(registers(image_moments(img2))) == central(registers(image_moments(img))),
{
    let h = img.len() as int;
    let h2 = img2.len() as int;
    let r0 = if di < 0 { di } else { 0 };
    let r1 = if h2 > h + di { h2 } else { h + di };
    let c0 = if dj < 0 { dj } else { 0 };
    let c1 = if w2 > w + dj { w2 } else { w + dj };
    lemma_rows_are_block(img, w, h);
    lemma_rows_are_block(img2, w2, h2);
    lemma_zero_outside_frame(img, w);
    lemma_zero_outside_frame(img2, w2);
    lemma_block_trim(img2, r0, r1, c0, c1, 0, h2, 0, w2);
    assert forall|i: int, j: int|
        !(di <= i < h + di && dj <= j < w + dj) implies #[trigger] weight_at(img2, i, j) == 0 by {
        assert(weight_at(img2, (i - di) + di, (j - dj) + dj) == weight_at(img, i - di, j - dj));
        assert((i - di) + di == i && (j - dj) + dj == j);
    }
    lemma_block_trim(img2, r0, r1, c0, c1, 0 + di, h + di, 0 + dj, w + dj);
    lemma_block_shift(img2, img, di, dj, 0, h, 0, w);
    if image_moments(img).s > 0 {
        lemma_central_of_shifted(image_moments(img), di, dj);
        lemma_centroid_of_shifted(image_moments(img), di, dj);
        if fits_registers(image_moments(img)) && fits_registers(image_moments(img2)) {
            crate::moments::law_registers_exact_when_in_range(image_moments(img));
            crate::moments::law_registers_exact_when_in_range(image_moments(img2));
        }
    }
}

/// An image whose only nonzero pixel has weight `v` in row `i0`, column `j0` has the
/// moments of that one pixel: mass `v`, first-order moments `(i0·v, j0·v)`, and so on.
pub proof fn law_image_moments_single_pixel(img: Seq<Vec<u8>>, w: int, i0: int, j0: int, v: int)
    requires
        is_rectangular(img, w),
        0 <= i0 < img.len(),
        0 <= j0 < w,
        forall|i: int, j: int|
            #[trigger] weight_at(img, i, j) == (if i == i0 && j == j0 { v } else { 0 }),
    ensures
        image_moments(img) == pixel_moments(v, i0, j0),
{
    lemma_rows_are_block(img, w, img.len() as int);
    assert(zero_outside(img, i0, i0 + 1, j0, j0 + 1));
    lemma_block_trim(img, 0, img.len() as int, 0, w, i0, i0 + 1, j0, j0 + 1);
    assert(row_moments(img, i0, j0, j0) == zero_moments());
    assert(block_moments(img, i0, i0, j0, j0 + 1) == zero_moments());
}

} // verus!
