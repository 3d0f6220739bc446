//! The synchronous moment circuit: two banks of fixed-width registers that accumulate,
//! pixel by pixel, the raw moments of order 0, 1 and 2 of an RGB mask and of a depth mask,
//! and the arithmetic that turns the final register values into a centroid offset
//! and an orientation for each image.
//!
//! Each clock cycle the circuit reads `(pixel_rgb, pixel_depth, x, y)` and adds
//! `m`, `x·m`, `y·m`, `x²·m`, `y²·m` and `x·y·m` to the registers of each image.
//! The registers are 10 (`sum_mask`), 16 (`sum_x`, `sum_y`) and 24 bits wide (the
//! second-order sums) and wrap around on overflow.
use crate::image_moments::{image_moments, row_moments, rows_moments};
use crate::moments::{
    axis, central, centroid, cross, dot, fits_registers, lemma_map_values_multiset,
    lemma_moments_of_concat, lemma_registers_plus, law_moments_order_independent, moments_of,
    norm_sq, offset, pixel_moments, plus, registers, zero_moments, Moments,
};
use vstd::arithmetic::div_mod::lemma_div_nonincreasing;
use vstd::prelude::*;

verus! {

/// The moment registers of one image.
#[allow(non_camel_case_types)]
#[derive(Clone, Copy, Debug, PartialEq, Eq, Structural)]
pub struct image_state {
    /// 10-bit register: `Σ m`.
    pub sum_mask: u16,
    /// 16-bit register: `Σ x·m`.
    pub sum_x: u16,
    /// 16-bit register: `Σ y·m`.
    pub sum_y: u16,
    /// 24-bit register: `Σ x²·m`.
    pub sum_x_pow_2: u32,
    /// 24-bit register: `Σ y²·m`.
    pub sum_y_pow_2: u32,
    /// 24-bit register: `Σ x·y·m`.
    pub sum_x_y: u32,
}

impl View for image_state {
    type V = Moments;

    open spec fn view(&self) -> Moments {
        Moments {
            s: self.sum_mask as int,
            sx: self.sum_x as int,
            sy: self.sum_y as int,
            sxx: self.sum_x_pow_2 as int,
            syy: self.sum_y_pow_2 as int,
            sxy: self.sum_x_y as int,
        }
    }
}

impl image_state {
    /// Every register holds a value of its width.
    pub open spec fn wf(&self) -> bool {
        fits_registers(self@)
    }
}

impl Default for image_state {
    /// All registers cleared.
    fn default() -> (s: Self)
        ensures
            s.wf(),
            s@ == zero_moments(),
    {
        image_state { sum_mask: 0, sum_x: 0, sum_y: 0, sum_x_pow_2: 0, sum_y_pow_2: 0, sum_x_y: 0 }
    }
}

/// The register banks of the circuit: one for the RGB image, one for the depth image.
#[allow(non_camel_case_types)]
#[derive(Clone, Copy, Debug, PartialEq, Eq, Structural)]
pub struct circ {
    pub rgb_state: image_state,
    pub depth_state: image_state,
}

impl circ {
    /// Both banks hold values of their registers' widths.
    pub open spec fn wf(&self) -> bool {
        self.rgb_state.wf() && self.depth_state.wf()
    }
}

impl Default for circ {
    /// The circuit right after reset: every register cleared.
    fn default() -> (c: Self)
        ensures
            c.wf(),
            c.rgb_state@ == zero_moments(),
            c.depth_state@ == zero_moments(),
    {
        circ { rgb_state: image_state::default(), depth_state: image_state::default() }
    }
}

/// Adds the pixel of weight `m` at row `x`, column `y` to the registers `s`, each register
/// wrapping around at its width.
fn accumulate(s: &image_state, m: u8, x: u8, y: u8) -> (r: image_state)
    requires
        s.wf(),
    ensures
        r.wf(),
        r@ == registers(plus(s@, pixel_moments(m as int, x as int, y as int))),
{
    let m32 = m as u32;
    let x32 = x as u32;
    let y32 = y as u32;
    assert(m32 * x32 <= 65025 && m32 * y32 <= 65025) by (nonlinear_arith)
        requires
            m32 <= 255,
            x32 <= 255,
            y32 <= 255,
    ;
    let mx = m32 * x32;
    let my = m32 * y32;
    assert(mx * x32 <= 16581375 && my * y32 <= 16581375 && mx * y32 <= 16581375)
        by (nonlinear_arith)
        requires
            mx <= 65025,
            my <= 65025,
            x32 <= 255,
            y32 <= 255,
    ;
    let mxx = mx * x32;
    let myy = my * y32;
    let mxy = mx * y32;
    let r = image_state {
        sum_mask: ((s.sum_mask as u32 + m32) % 1024) as u16,
        sum_x: ((s.sum_x as u32 + mx) % 65536) as u16,
        sum_y: ((s.sum_y as u32 + my) % 65536) as u16,
        sum_x_pow_2: (s.sum_x_pow_2 + mxx) % 16777216,
        sum_y_pow_2: (s.sum_y_pow_2 + myy) % 16777216,
        sum_x_y: (s.sum_x_y + mxy) % 16777216,
    };
    r
}

/// One clock cycle of the moment circuit. `input` is
/// `(pixel_rgb, pixel_depth, x, y)`; `q` holds the registers' current values.
/// Returns the circuit's output, the updated `(rgb, depth)` moment registers, together
/// with the values the registers take at the next clock edge (the same registers).
pub fn circ_kernel(input: (u8, u8, u8, u8), q: &circ) -> (r: ((image_state, image_state), circ))
    requires
        q.wf(),
    ensures
        r.1.wf(),
        r.0.0@ == registers(
            plus(q.rgb_state@, pixel_moments(input.0 as int, input.2 as int, input.3 as int)),
        ),
        r.0.1@ == registers(
            plus(q.depth_state@, pixel_moments(input.1 as int, input.2 as int, input.3 as int)),
        ),
        r.1.rgb_state == r.0.0,
        r.1.depth_state == r.0.1,
{
    let rgb_state = accumulate(&q.rgb_state, input.0, input.2, input.3);
    let depth_state = accumulate(&q.depth_state, input.1, input.2, input.3);
    ((rgb_state, depth_state), circ { rgb_state, depth_state })
}

/// The RGB pixels `(m, x, y)` that a sequence of circuit inputs feeds in.
pub open spec fn rgb_pixels(inputs: Seq<(u8, u8, u8, u8)>) -> Seq<(int, int, int)> {
    inputs.map_values(|t: (u8, u8, u8, u8)| (t.0 as int, t.2 as int, t.3 as int))
}

/// The depth pixels `(m, x, y)` that a sequence of circuit inputs feeds in.
pub open spec fn depth_pixels(inputs: Seq<(u8, u8, u8, u8)>) -> Seq<(int, int, int)> {
    inputs.map_values(|t: (u8, u8, u8, u8)| (t.1 as int, t.2 as int, t.3 as int))
}

/// The circuit's output after the first `k` inputs, starting from reset.
pub open spec fn output_after(inputs: Seq<(u8, u8, u8, u8)>, k: int) -> (Moments, Moments) {
    (
        registers(moments_of(rgb_pixels(inputs.take(k)))),
        registers(moments_of(depth_pixels(inputs.take(k)))),
    )
}

proof fn lemma_output_step(inputs: Seq<(u8, u8, u8, u8)>, k: int)
    requires
        0 <= k < inputs.len(),
    ensures
        output_after(inputs, k + 1).0 == registers(
            plus(
                output_after(inputs, k).0,
                pixel_moments(inputs[k].0 as int, inputs[k].2 as int, inputs[k].3 as int),
            ),
        ),
        output_after(inputs, k + 1).1 == registers(
            plus(
                output_after(inputs, k).1,
                pixel_moments(inputs[k].1 as int, inputs[k].2 as int, inputs[k].3 as int),
            ),
        ),
{
    assert(rgb_pixels(inputs.take(k + 1)).drop_last() =~= rgb_pixels(inputs.take(k)));
    assert(depth_pixels(inputs.take(k + 1)).drop_last() =~= depth_pixels(inputs.take(k)));
    lemma_registers_plus(
        moments_of(rgb_pixels(inputs.take(k))),
        pixel_moments(inputs[k].0 as int, inputs[k].2 as int, inputs[k].3 as int),
    );
    lemma_registers_plus(
        moments_of(depth_pixels(inputs.take(k))),
        pixel_moments(inputs[k].1 as int, inputs[k].2 as int, inputs[k].3 as int),
    );
}

/// Runs the circuit from reset over `inputs`, one input per clock cycle, and returns its
/// output at every cycle: entry `k` is the pair of `(rgb, depth)` registers after the
/// first `k + 1` inputs, that is the moments of those pixels reduced to the registers'
/// widths.
pub fn trace(inputs: &Vec<(u8, u8, u8, u8)>) -> (out: Vec<(image_state, image_state)>)
    ensures
        out@.len() == inputs@.len(),
        forall|k: int|
            0 <= k < inputs@.len() ==> (#[trigger] out@[k]).0@ == output_after(inputs@, k + 1).0
                && out@[k].1@ == output_after(inputs@, k + 1).1,
{
    let mut q = circ::default();
    let mut out: Vec<(image_state, image_state)> = Vec::new();
    proof {
        assert(rgb_pixels(inputs@.take(0)) =~= Seq::empty());
        assert(depth_pixels(inputs@.take(0)) =~= Seq::empty());
    }
    for k in 0..inputs.len()
        invariant
            q.wf(),
            q.rgb_state@ == output_after(inputs@, k as int).0,
            q.depth_state@ == output_after(inputs@, k as int).1,
            out@.len() == k,
            forall|j: int|
                0 <= j < k ==> (#[trigger] out@[j]).0@ == output_after(inputs@, j + 1).0
                    && out@[j].1@ == output_after(inputs@, j + 1).1,
    {
        proof {
            lemma_output_step(inputs@, k as int);
        }
        let (o, d) = circ_kernel(inputs[k], &q);
        out.push(o);
        q = d;
    }
    out
}

/// Runs the circuit from reset over `inputs` and returns its output after the last input:
/// the `(rgb, depth)` moments of all the pixels fed in, each sum reduced to its
/// register's width. With no input the registers stay cleared.
pub fn run_circuit(inputs: &Vec<(u8, u8, u8, u8)>) -> (out: (image_state, image_state))
    ensures
        out.0.wf(),
        out.1.wf(),
        out.0@ == registers(moments_of(rgb_pixels(inputs@))),
        out.1@ == registers(moments_of(depth_pixels(inputs@))),
{
    let mut q = circ::default();
    proof {
        assert(rgb_pixels(inputs@.take(0)) =~= Seq::empty());
        assert(depth_pixels(inputs@.take(0)) =~= Seq::empty());
    }
    for k in 0..inputs.len()
        invariant
            q.wf(),
            q.rgb_state@ == output_after(inputs@, k as int).0,
            q.depth_state@ == output_after(inputs@, k as int).1,
    {
        proof {
            lemma_output_step(inputs@, k as int);
        }
        let (_o, d) = circ_kernel(inputs[k], &q);
        q = d;
    }
    proof {
        assert(inputs@.take(inputs@.len() as int) =~= inputs@);
    }
    (q.rgb_state, q.depth_state)
}

/// The inputs that scanning row `i` feeds the circuit: for each column `y` of the row,
/// `(rgb[i][y], depth[i][y], i, y)`.
pub open spec fn row_inputs(rgb: Seq<Vec<u8>>, depth: Seq<Vec<u8>>, i: int) -> Seq<(u8, u8, u8, u8)> {
    Seq::new(rgb[i]@.len(), |y: int| (rgb[i]@[y], depth[i]@[y], i as u8, y as u8))
}

/// The inputs that scanning the first `rows` rows feeds the circuit, row after row.
pub open spec fn scan_inputs(rgb: Seq<Vec<u8>>, depth: Seq<Vec<u8>>, rows: int) -> Seq<(u8, u8, u8, u8)>
    decreases rows,
{
    if rows <= 0 {
        Seq::empty()
    } else {
        scan_inputs(rgb, depth, rows - 1) + row_inputs(rgb, depth, rows - 1)
    }
}

/// The two images can be scanned together: they have the same rows, of the same lengths,
/// and every row and column index fits the circuit's 8-bit coordinate inputs.
pub open spec fn scannable(rgb: Seq<Vec<u8>>, depth: Seq<Vec<u8>>) -> bool {
    &&& rgb.len() == depth.len()
    &&& rgb.len() <= 256
    &&& forall|i: int|
        0 <= i < rgb.len() ==> #[trigger] rgb[i]@.len() == depth[i]@.len() && rgb[i]@.len() <= 256
}

/// Flattens the two images into the circuit's input stream, scanning every pixel, row by
/// row and, within a row, column by column.
pub fn flatten_inputs(matrix_rgb: &Vec<Vec<u8>>, matrix_depth: &Vec<Vec<u8>>) -> (out: Vec<(u8, u8, u8, u8)>)
    requires
        scannable(matrix_rgb@, matrix_depth@),
    ensures
        out@ == scan_inputs(matrix_rgb@, matrix_depth@, matrix_rgb@.len() as int),
{
    let mut input: Vec<(u8, u8, u8, u8)> = Vec::new();
    for i in 0..matrix_rgb.len()
        invariant
            scannable(matrix_rgb@, matrix_depth@),
            input@ == scan_inputs(matrix_rgb@, matrix_depth@, i as int),
    {
        let ghost before = input@;
        let ghost row = row_inputs(matrix_rgb@, matrix_depth@, i as int);
        assert(row.take(0) =~= Seq::<(u8, u8, u8, u8)>::empty());
        assert(before + row.take(0) =~= before);
        let rgb_row = &matrix_rgb[i];
        let depth_row = &matrix_depth[i];
        assert(rgb_row@.len() == depth_row@.len());
        for y in 0..rgb_row.len()
            invariant
                0 <= i < matrix_rgb@.len(),
                scannable(matrix_rgb@, matrix_depth@),
                rgb_row@ == matrix_rgb@[i as int]@,
                depth_row@ == matrix_depth@[i as int]@,
                rgb_row@.len() == depth_row@.len(),
                row == row_inputs(matrix_rgb@, matrix_depth@, i as int),
                input@ == before + row.take(y as int),
        {
            let item = (rgb_row[y], depth_row[y], i as u8, y as u8);
            assert(before + row.take(y + 1) =~= (before + row.take(y as int)).push(item));
            input.push(item);
        }
        assert(row.take(rgb_row@.len() as int) =~= row);
    }
    input
}

/// The moments that scanning row `i` up to column `n` feeds each register bank are those of
/// the row's first `n` pixels in each image.
proof fn lemma_row_scan(rgb: Seq<Vec<u8>>, depth: Seq<Vec<u8>>, i: int, n: int)
    requires
        scannable(rgb, depth),
        0 <= i < rgb.len(),
        0 <= n <= rgb[i]@.len(),
    ensures
        moments_of(rgb_pixels(row_inputs(rgb, depth, i).take(n))) == row_moments(rgb, i, 0, n),
        moments_of(depth_pixels(row_inputs(rgb, depth, i).take(n))) == row_moments(depth, i, 0, n),
    decreases n,
{
    let row = row_inputs(rgb, depth, i);
    if n == 0 {
        assert(rgb_pixels(row.take(0)) =~= Seq::empty());
        assert(depth_pixels(row.take(0)) =~= Seq::empty());
    } else {
        lemma_row_scan(rgb, depth, i, n - 1);
        assert(rgb[i]@.len() == depth[i]@.len() && rgb[i]@.len() <= 256);
        assert(rgb_pixels(row.take(n)).drop_last() =~= rgb_pixels(row.take(n - 1)));
        assert(depth_pixels(row.take(n)).drop_last() =~= depth_pixels(row.take(n - 1)));
        assert((i as u8) as int == i && ((n - 1) as u8) as int == n - 1);
    }
}

/// The moments that scanning the first `k` rows feeds each register bank are those of
/// every pixel of these rows in each image.
proof fn lemma_scan_moments(rgb: Seq<Vec<u8>>, depth: Seq<Vec<u8>>, k: int)
    requires
        scannable(rgb, depth),
        0 <= k <= rgb.len(),
    ensures
        moments_of(rgb_pixels(scan_inputs(rgb, depth, k))) == rows_moments(rgb, k),
        moments_of(depth_pixels(scan_inputs(rgb, depth, k))) == rows_moments(depth, k),
    decreases k,
{
    if k == 0 {
        assert(rgb_pixels(scan_inputs(rgb, depth, 0)) =~= Seq::empty());
        assert(depth_pixels(scan_inputs(rgb, depth, 0)) =~= Seq::empty());
    } else {
        lemma_scan_moments(rgb, depth, k - 1);
        let prev = scan_inputs(rgb, depth, k - 1);
        let row = row_inputs(rgb, depth, k - 1);
        assert(rgb[k - 1]@.len() == depth[k - 1]@.len());
        lemma_row_scan(rgb, depth, k - 1, rgb[k - 1]@.len() as int);
        assert(row.take(rgb[k - 1]@.len() as int) =~= row);
        assert(rgb_pixels(prev + row) =~= rgb_pixels(prev) + rgb_pixels(row));
        assert(depth_pixels(prev + row) =~= depth_pixels(prev) + depth_pixels(row));
        lemma_moments_of_concat(rgb_pixels(prev), rgb_pixels(row));
        lemma_moments_of_concat(depth_pixels(prev), depth_pixels(row));
    }
}

/// Scans both images into the moment circuit (see `flatten_inputs`), runs it from reset and
/// returns its final output: for each image the moments `Σ m`, `Σ x·m`, `Σ y·m`, `Σ x²·m`,
/// `Σ y²·m`, `Σ x·y·m` over all its pixels, reduced to the registers' widths.
pub fn simulate(matrix_rgb: Vec<Vec<u8>>, matrix_depth: Vec<Vec<u8>>) -> (out: (image_state, image_state))
    requires
        scannable(matrix_rgb@, matrix_depth@),
    ensures
        out.0.wf(),
        out.1.wf(),
        out.0@ == registers(image_moments(matrix_rgb@)),
        out.1@ == registers(image_moments(matrix_depth@)),
{
    let input = flatten_inputs(&matrix_rgb, &matrix_depth);
    proof {
        lemma_scan_moments(matrix_rgb@, matrix_depth@, matrix_rgb@.len() as int);
    }
    run_circuit(&input)
}

/// The circuit's result does not depend on the order in which the pixels are streamed:
/// two input streams holding the same inputs, each as many times, leave the same
/// registers.
pub proof fn law_stream_order_independent(inputs: Seq<(u8, u8, u8, u8)>, inputs2: Seq<(u8, u8, u8, u8)>)
    requires
        inputs.to_multiset() == inputs2.to_multiset(),
    ensures
        registers(moments_of(rgb_pixels(inputs))) == registers(moments_of(rgb_pixels(inputs2))),
        registers(moments_of(depth_pixels(inputs))) == registers(
            moments_of(depth_pixels(inputs2)),
        ),
{
    let f = |t: (u8, u8, u8, u8)| (t.0 as int, t.2 as int, t.3 as int);
    let g = |t: (u8, u8, u8, u8)| (t.1 as int, t.2 as int, t.3 as int);
    lemma_map_values_multiset(inputs, inputs2, f);
    lemma_map_values_multiset(inputs, inputs2, g);
    assert(rgb_pixels(inputs) == inputs.map_values(f));
    assert(rgb_pixels(inputs2) == inputs2.map_values(f));
    assert(depth_pixels(inputs) == inputs.map_values(g));
    assert(depth_pixels(inputs2) == inputs2.map_values(g));
    law_moments_order_independent(rgb_pixels(inputs), rgb_pixels(inputs2));
    law_moments_order_independent(depth_pixels(inputs), depth_pixels(inputs2));
}

/// Streaming every pixel of two scannable images once, in any order, leaves in the
/// registers the moments of each whole image, reduced to the registers' widths.
pub proof fn law_any_scan_order(
    rgb: Seq<Vec<u8>>,
    depth: Seq<Vec<u8>>,
    inputs: Seq<(u8, u8, u8, u8)>,
)
    requires
        scannable(rgb, depth),
        inputs.to_multiset() == scan_inputs(rgb, depth, rgb.len() as int).to_multiset(),
    ensures
        registers(moments_of(rgb_pixels(inputs))) == registers(image_moments(rgb)),
        registers(moments_of(depth_pixels(inputs))) == registers(image_moments(depth)),
{
    law_stream_order_independent(inputs, scan_inputs(rgb, depth, rgb.len() as int));
    lemma_scan_moments(rgb, depth, rgb.len() as int);
}

/// Second-order central moments `Mxx`, `Myy`, `Mxy` of an image.
#[derive(Clone, Copy, Debug, PartialEq, Eq, Structural)]
pub struct SecondMoments {
    pub m_xx: i128,
    pub m_yy: i128,
    pub m_xy: i128,
}

impl SecondMoments {
    /// `(Mxx, Myy, Mxy)` as integers.
    pub open spec fn as_triple(&self) -> (int, int, int) {
        (self.m_xx as int, self.m_yy as int, self.m_xy as int)
    }

    /// Each moment is below 2^60 in magnitude, so that the orientation vector and its
    /// squared length fit in 128 bits.
    pub open spec fn in_range(&self) -> bool {
        &&& -0x1000_0000_0000_0000 < self.m_xx < 0x1000_0000_0000_0000
        &&& -0x1000_0000_0000_0000 < self.m_yy < 0x1000_0000_0000_0000
        &&& -0x1000_0000_0000_0000 < self.m_xy < 0x1000_0000_0000_0000
    }

    /// The orientation vector `[2·Mxy, Mxx − Myy]`, proportional to the direction of the
    /// principal axis (twice its angle).
    pub fn axis(&self) -> (v: (i128, i128))
        requires
            self.in_range(),
        ensures
            (v.0 as int, v.1 as int) == axis(self.as_triple()),
            v.0 == 2 * self.m_xy,
            v.1 == self.m_xx - self.m_yy,
            -0x4000_0000_0000_0000 < v.0 < 0x4000_0000_0000_0000,
            -0x4000_0000_0000_0000 < v.1 < 0x4000_0000_0000_0000,
    {
        (2 * self.m_xy, self.m_xx - self.m_yy)
    }
}

/// The squared length `v.0² + v.1²` of a vector whose coordinates are below 2^62 in
/// magnitude.
pub fn norm_squared(v: (i128, i128)) -> (n: i128)
    requires
        -0x4000_0000_0000_0000 < v.0 < 0x4000_0000_0000_0000,
        -0x4000_0000_0000_0000 < v.1 < 0x4000_0000_0000_0000,
    ensures
        n as int == norm_sq((v.0 as int, v.1 as int)),
        n == v.0 * v.0 + v.1 * v.1,
        n >= 0,
{
    assert(0 <= v.0 * v.0 <= 0x1000_0000_0000_0000_0000_0000_0000_0000) by (nonlinear_arith)
        requires
            -0x4000_0000_0000_0000 < v.0 < 0x4000_0000_0000_0000,
    ;
    assert(0 <= v.1 * v.1 <= 0x1000_0000_0000_0000_0000_0000_0000_0000) by (nonlinear_arith)
        requires
            -0x4000_0000_0000_0000 < v.1 < 0x4000_0000_0000_0000,
    ;
    v.0 * v.0 + v.1 * v.1
}

impl image_state {
    /// The centroid `(Σ x·m / Σ m, Σ y·m / Σ m)` of the registers, with integer division.
    pub fn centroid(&self) -> (c: (u16, u16))
        requires
            self.wf(),
            self.sum_mask != 0,
        ensures
            (c.0 as int, c.1 as int) == centroid(self@),
            c.0 == self.sum_x / self.sum_mask,
            c.1 == self.sum_y / self.sum_mask,
    {
        (self.sum_x / self.sum_mask, self.sum_y / self.sum_mask)
    }

    /// The central moments computed from the registers:
    /// `Mxx = Σx²m − (Σxm)²/Σm`, `Myy = Σy²m − (Σym)²/Σm`, `Mxy = Σxym − Σxm·Σym/Σm`,
    /// with integer division.
    pub fn central_moments(&self) -> (c: SecondMoments)
        requires
            self.wf(),
            self.sum_mask != 0,
        ensures
            c.as_triple() == central(self@),
            c.m_xx == self.sum_x_pow_2 - (self.sum_x * self.sum_x) / (self.sum_mask as int),
            c.m_yy == self.sum_y_pow_2 - (self.sum_y * self.sum_y) / (self.sum_mask as int),
            c.m_xy == self.sum_x_y - (self.sum_x * self.sum_y) / (self.sum_mask as int),
            -0x1_0000_0000 <= c.m_xx < 0x100_0000,
            -0x1_0000_0000 <= c.m_yy < 0x100_0000,
            -0x1_0000_0000 <= c.m_xy < 0x100_0000,
            c.in_range(),
    {
        let s = self.sum_mask as u64;
        let sx = self.sum_x as u64;
        let sy = self.sum_y as u64;
        assert(sx * sx < 0x1_0000_0000 && sy * sy < 0x1_0000_0000 && sx * sy < 0x1_0000_0000)
            by (nonlinear_arith)
            requires
                sx < 65536,
                sy < 65536,
        ;
        let qxx = sx * sx / s;
        let qyy = sy * sy / s;
        let qxy = sx * sy / s;
        proof {
            lemma_div_nonincreasing((sx * sx) as int, s as int);
            lemma_div_nonincreasing((sy * sy) as int, s as int);
            lemma_div_nonincreasing((sx * sy) as int, s as int);
        }
        SecondMoments {
            m_xx: self.sum_x_pow_2 as i128 - qxx as i128,
            m_yy: self.sum_y_pow_2 as i128 - qyy as i128,
            m_xy: self.sum_x_y as i128 - qxy as i128,
        }
    }
}

/// The offset `centroid(depth) − centroid(rgb)`: the shift that takes the RGB image's
/// centroid onto the depth image's.
pub fn centroid_offset(rgb: &image_state, depth: &image_state) -> (t: (i128, i128))
    requires
        rgb.wf(),
        depth.wf(),
        rgb.sum_mask != 0,
        depth.sum_mask != 0,
    ensures
        (t.0 as int, t.1 as int) == offset(rgb@, depth@),
        t.0 == (depth.sum_x / depth.sum_mask) as int - (rgb.sum_x / rgb.sum_mask) as int,
        t.1 == (depth.sum_y / depth.sum_mask) as int - (rgb.sum_y / rgb.sum_mask) as int,
{
    let c_rgb = rgb.centroid();
    let c_depth = depth.centroid();
    (c_depth.0 as i128 - c_rgb.0 as i128, c_depth.1 as i128 - c_rgb.1 as i128)
}

/// The dot product `u·v` of two vectors whose coordinates are below 2^62 in magnitude.
pub fn dot_product(u: (i128, i128), v: (i128, i128)) -> (d: i128)
    requires
        -0x4000_0000_0000_0000 < u.0 < 0x4000_0000_0000_0000,
        -0x4000_0000_0000_0000 < u.1 < 0x4000_0000_0000_0000,
        -0x4000_0000_0000_0000 < v.0 < 0x4000_0000_0000_0000,
        -0x4000_0000_0000_0000 < v.1 < 0x4000_0000_0000_0000,
    ensures
        d as int == dot((u.0 as int, u.1 as int), (v.0 as int, v.1 as int)),
        d == u.0 * v.0 + u.1 * v.1,
{
    proof {
        lemma_product_bound(u.0, v.0);
        lemma_product_bound(u.1, v.1);
    }
    u.0 * v.0 + u.1 * v.1
}

/// The cross product `u.0·v.1 − u.1·v.0` of two vectors whose coordinates are below 2^62
/// in magnitude: `|u|·|v|` times the sine of the angle from `u` to `v`.
pub fn cross_product(u: (i128, i128), v: (i128, i128)) -> (c: i128)
    requires
        -0x4000_0000_0000_0000 < u.0 < 0x4000_0000_0000_0000,
        -0x4000_0000_0000_0000 < u.1 < 0x4000_0000_0000_0000,
        -0x4000_0000_0000_0000 < v.0 < 0x4000_0000_0000_0000,
        -0x4000_0000_0000_0000 < v.1 < 0x4000_0000_0000_0000,
    ensures
        c as int == cross((u.0 as int, u.1 as int), (v.0 as int, v.1 as int)),
        c == u.0 * v.1 - u.1 * v.0,
{
    proof {
        lemma_product_bound(u.0, v.1);
        lemma_product_bound(u.1, v.0);
    }
    u.0 * v.1 - u.1 * v.0
}

proof fn lemma_product_bound(a: i128, b: i128)
    requires
        -0x4000_0000_0000_0000 < a < 0x4000_0000_0000_0000,
        -0x4000_0000_0000_0000 < b < 0x4000_0000_0000_0000,
    ensures
        -0x1000_0000_0000_0000_0000_0000_0000_0000 <= a * b <= 0x1000_0000_0000_0000_0000_0000_0000_0000,
{
    assert(-0x1000_0000_0000_0000_0000_0000_0000_0000 <= a * b <= 0x1000_0000_0000_0000_0000_0000_0000_0000)
        by (nonlinear_arith)
        requires
            -0x4000_0000_0000_0000 < a < 0x4000_0000_0000_0000,
            -0x4000_0000_0000_0000 < b < 0x4000_0000_0000_0000,
    ;
}

/// Everything the calibration derives, in integers, from the final moment registers. The
/// rotation from the RGB orientation to the depth orientation has cosine
/// `axis_dot / (|rgb_axis|·|depth_axis|)` and sine `axis_cross / (|rgb_axis|·|depth_axis|)`.
#[derive(Clone, Copy, Debug, PartialEq, Eq)]
pub struct Calibration {
    /// Centroid of the RGB image.
    pub rgb_centroid: (u16, u16),
    /// Centroid of the depth image.
    pub depth_centroid: (u16, u16),
    /// `centroid(depth) − centroid(rgb)`.
    pub offset: (i128, i128),
    /// Central moments of the RGB image.
    pub rgb_moments: SecondMoments,
    /// Central moments of the depth image.
    pub depth_moments: SecondMoments,
    /// Orientation vector `[2·Mxy, Mxx − Myy]` of the RGB image.
    pub rgb_axis: (i128, i128),
    /// Orientation vector `[2·Mxy, Mxx − Myy]` of the depth image.
    pub depth_axis: (i128, i128),
    /// Squared length of `rgb_axis`.
    pub rgb_axis_norm_sq: i128,
    /// Squared length of `depth_axis`.
    pub depth_axis_norm_sq: i128,
    /// `rgb_axis · depth_axis`.
    pub axis_dot: i128,
    /// `rgb_axis × depth_axis`.
    pub axis_cross: i128,
}

/// Derives the centroids, their offset, the central moments, the orientation vectors and
/// the integer terms of the relative rotation of both images from the circuit's final
/// registers. Both images must have a nonzero mass `Σ m`.
pub fn calibrate(rgb: &image_state, depth: &image_state) -> (c: Calibration)
    requires
        rgb.wf(),
        depth.wf(),
        rgb.sum_mask != 0,
        depth.sum_mask != 0,
    ensures
        (c.rgb_centroid.0 as int, c.rgb_centroid.1 as int) == centroid(rgb@),
        (c.depth_centroid.0 as int, c.depth_centroid.1 as int) == centroid(depth@),
        (c.offset.0 as int, c.offset.1 as int) == offset(rgb@, depth@),
        c.rgb_moments.as_triple() == central(rgb@),
        c.depth_moments.as_triple() == central(depth@),
        (c.rgb_axis.0 as int, c.rgb_axis.1 as int) == axis(central(rgb@)),
        (c.depth_axis.0 as int, c.depth_axis.1 as int) == axis(central(depth@)),
        c.rgb_axis_norm_sq as int == norm_sq(axis(central(rgb@))),
        c.depth_axis_norm_sq as int == norm_sq(axis(central(depth@))),
        c.axis_dot as int == dot(axis(central(rgb@)), axis(central(depth@))),
        c.axis_cross as int == cross(axis(central(rgb@)), axis(central(depth@))),
{
    let rgb_centroid = rgb.centroid();
    let depth_centroid = depth.centroid();
    let offset = centroid_offset(rgb, depth);
    let rgb_moments = rgb.central_moments();
    let depth_moments = depth.central_moments();
    let rgb_axis = rgb_moments.axis();
    let depth_axis = depth_moments.axis();
    let rgb_axis_norm_sq = norm_squared(rgb_axis);
    let depth_axis_norm_sq = norm_squared(depth_axis);
    let axis_dot = dot_product(rgb_axis, depth_axis);
    let axis_cross = cross_product(rgb_axis, depth_axis);
    Calibration {
        rgb_centroid,
        depth_centroid,
        offset,
        rgb_moments,
        depth_moments,
        rgb_axis,
        depth_axis,
        rgb_axis_norm_sq,
        depth_axis_norm_sq,
        axis_dot,
        axis_cross,
    }
}

} // verus!
