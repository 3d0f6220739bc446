use rgbd_calib::circ_seq::{
    calibrate, centroid_offset, circ, circ_kernel, cross_product, dot_product, flatten_inputs,
    image_state, norm_squared, run_circuit, simulate, trace, SecondMoments,
};

fn state(s: u16, sx: u16, sy: u16, sxx: u32, syy: u32, sxy: u32) -> image_state {
    image_state { sum_mask: s, sum_x: sx, sum_y: sy, sum_x_pow_2: sxx, sum_y_pow_2: syy, sum_x_y: sxy }
}

fn zero() -> image_state {
    state(0, 0, 0, 0, 0, 0)
}

#[test]
fn default_registers_are_cleared() {
    assert_eq!(image_state::default(), zero());
    let c = circ::default();
    assert_eq!(c.rgb_state, zero());
    assert_eq!(c.depth_state, zero());
}

#[test]
fn kernel_adds_one_pixel() {
    let q = circ::default();
    let ((rgb, depth), d) = circ_kernel((1, 2, 3, 4), &q);
    assert_eq!(rgb, state(1, 3, 4, 9, 16, 12));
    assert_eq!(depth, state(2, 6, 8, 18, 32, 24));
    assert_eq!(d.rgb_state, rgb);
    assert_eq!(d.depth_state, depth);
}

#[test]
fn kernel_accumulates_onto_registers() {
    let q = circ { rgb_state: state(10, 20, 30, 40, 50, 60), depth_state: zero() };
    let ((rgb, depth), _) = circ_kernel((1, 0, 5, 7), &q);
    assert_eq!(rgb, state(11, 25, 37, 65, 99, 95));
    assert_eq!(depth, zero());
}

#[test]
fn count_register_wraps_at_ten_bits() {
    let inputs = vec![(255u8, 0u8, 0u8, 0u8); 5];
    let (rgb, _) = run_circuit(&inputs);
    // 5 * 255 = 1275 = 1024 + 251
    assert_eq!(rgb.sum_mask, 251);
    assert_eq!(rgb.sum_x, 0);
}

#[test]
fn first_order_registers_wrap_at_sixteen_bits() {
    let inputs = vec![(255u8, 255u8, 255u8, 1u8); 2];
    let (rgb, depth) = run_circuit(&inputs);
    // 2 * 255 * 255 = 130050 = 65536 + 64514
    assert_eq!(rgb.sum_x, 64514);
    assert_eq!(depth.sum_x, 64514);
    assert_eq!(rgb.sum_y, 510);
}

#[test]
fn second_order_registers_wrap_at_twenty_four_bits() {
    let inputs = vec![(255u8, 0u8, 255u8, 255u8); 2];
    let (rgb, depth) = run_circuit(&inputs);
    // 2 * 255^3 = 33162750 = 16777216 + 16385534
    assert_eq!(rgb.sum_x_pow_2, 16385534);
    assert_eq!(rgb.sum_y_pow_2, 16385534);
    assert_eq!(rgb.sum_x_y, 16385534);
    assert_eq!(depth, zero());
}

#[test]
fn run_without_input_stays_reset() {
    let (rgb, depth) = run_circuit(&Vec::new());
    assert_eq!(rgb, zero());
    assert_eq!(depth, zero());
}

#[test]
fn trace_gives_output_after_each_cycle() {
    let inputs = vec![(1u8, 0u8, 1u8, 2u8), (1, 1, 2, 0), (0, 1, 3, 3)];
    let out = trace(&inputs);
    assert_eq!(out.len(), 3);
    assert_eq!(out[0].0, state(1, 1, 2, 1, 4, 2));
    assert_eq!(out[1].0, state(2, 3, 2, 5, 4, 2));
    assert_eq!(out[2].0, state(2, 3, 2, 5, 4, 2));
    assert_eq!(out[2].1, state(2, 5, 3, 13, 9, 9));
    assert_eq!(out[2], run_circuit(&inputs));
}

#[test]
fn flatten_scans_every_pixel_row_by_row() {
    let rgb = vec![vec![1, 2, 3], vec![4, 5, 6]];
    let depth = vec![vec![7, 8, 9], vec![10, 11, 12]];
    let inputs = flatten_inputs(&rgb, &depth);
    assert_eq!(
        inputs,
        vec![
            (1, 7, 0, 0),
            (2, 8, 0, 1),
            (3, 9, 0, 2),
            (4, 10, 1, 0),
            (5, 11, 1, 1),
            (6, 12, 1, 2),
        ]
    );
}

#[test]
fn flatten_of_empty_images_is_empty() {
    let rgb: Vec<Vec<u8>> = Vec::new();
    let depth: Vec<Vec<u8>> = Vec::new();
    assert!(flatten_inputs(&rgb, &depth).is_empty());
}

#[test]
fn simulate_reads_every_column_of_a_wide_image() {
    let (r, d) = simulate(vec![vec![0, 1, 0]], vec![vec![1, 0, 0]]);
    assert_eq!(r, state(1, 0, 1, 0, 1, 0));
    assert_eq!(d, state(1, 0, 0, 0, 0, 0));
}

#[test]
fn simulate_reads_every_row_of_a_tall_image() {
    let (r, d) = simulate(vec![vec![0], vec![0], vec![1]], vec![vec![1], vec![1], vec![0]]);
    assert_eq!(r, state(1, 2, 0, 4, 0, 0));
    assert_eq!(d, state(2, 1, 0, 1, 0, 0));
}

#[test]
fn stream_order_does_not_matter() {
    let inputs = vec![(1u8, 3u8, 1u8, 2u8), (2, 0, 5, 0), (0, 1, 3, 3), (7, 7, 9, 4)];
    let mut reversed = inputs.clone();
    reversed.reverse();
    assert_eq!(run_circuit(&inputs), run_circuit(&reversed));
}

fn square(size: usize, top: usize, left: usize, side: usize) -> Vec<Vec<u8>> {
    let mut m = vec![vec![0u8; size]; size];
    for y in top..top + side {
        for x in left..left + side {
            m[y][x] = 1;
        }
    }
    m
}

#[test]
fn simulate_sums_moments_of_both_masks() {
    let rgb = square(8, 1, 1, 2);
    let depth = square(8, 3, 4, 2);
    let (r, d) = simulate(rgb, depth);
    // rows 1,2 x cols 1,2
    assert_eq!(r, state(4, 6, 6, 10, 10, 9));
    // rows 3,4 x cols 4,5
    assert_eq!(d, state(4, 14, 18, 50, 82, 63));
}

#[test]
fn offset_between_shifted_squares() {
    let rgb = square(16, 2, 3, 4);
    let depth = square(16, 5, 9, 4);
    let (r, d) = simulate(rgb, depth);
    let t = centroid_offset(&r, &d);
    assert_eq!(t, (3, 6));
    let c = calibrate(&r, &d);
    assert_eq!(c.offset, (3, 6));
    assert_eq!(c.rgb_centroid, (3, 4));
    assert_eq!(c.depth_centroid, (6, 10));
    assert_eq!(c.rgb_moments, c.depth_moments);
    assert_eq!(c.rgb_axis, c.depth_axis);
}

#[test]
fn centroid_uses_integer_division() {
    let s = state(3, 2, 1, 2, 1, 1);
    assert_eq!(s.centroid(), (0, 0));
    let s = state(4, 6, 6, 10, 10, 9);
    assert_eq!(s.centroid(), (1, 1));
}

#[test]
fn central_moments_round_up() {
    // pixels (0,0), (1,0), (1,1): exact central moments 2/3, 2/3, 1/3
    let s = state(3, 2, 1, 2, 1, 1);
    assert_eq!(s.central_moments(), SecondMoments { m_xx: 1, m_yy: 1, m_xy: 1 });
    // 2 x 2 square: exact central moments 1, 1, 0
    let s = state(4, 6, 6, 10, 10, 9);
    assert_eq!(s.central_moments(), SecondMoments { m_xx: 1, m_yy: 1, m_xy: 0 });
}

#[test]
fn central_moments_can_be_negative_after_wrap() {
    // registers that cannot come from an unwrapped image: Sxx smaller than Sx^2 / S
    let s = state(1, 100, 0, 5, 0, 0);
    assert_eq!(s.central_moments(), SecondMoments { m_xx: 5 - 10000, m_yy: 0, m_xy: 0 });
}

#[test]
fn axis_and_norm() {
    let m = SecondMoments { m_xx: 7, m_yy: 3, m_xy: -2 };
    assert_eq!(m.axis(), (-4, 4));
    assert_eq!(norm_squared(m.axis()), 32);
    assert_eq!(norm_squared((3, 4)), 25);
}

#[test]
fn calibrate_reports_everything() {
    let rgb = state(3, 2, 1, 2, 1, 1);
    let depth = state(4, 6, 6, 10, 10, 9);
    let c = calibrate(&rgb, &depth);
    assert_eq!(c.rgb_centroid, (0, 0));
    assert_eq!(c.depth_centroid, (1, 1));
    assert_eq!(c.offset, (1, 1));
    assert_eq!(c.rgb_moments, SecondMoments { m_xx: 1, m_yy: 1, m_xy: 1 });
    assert_eq!(c.depth_moments, SecondMoments { m_xx: 1, m_yy: 1, m_xy: 0 });
    assert_eq!(c.rgb_axis, (2, 0));
    assert_eq!(c.depth_axis, (0, 0));
    assert_eq!(c.rgb_axis_norm_sq, 4);
    assert_eq!(c.depth_axis_norm_sq, 0);
    assert_eq!(c.axis_dot, 0);
    assert_eq!(c.axis_cross, 0);
}

#[test]
fn dot_and_cross_products() {
    assert_eq!(dot_product((2, 3), (4, -5)), -7);
    assert_eq!(cross_product((2, 3), (4, -5)), -22);
    assert_eq!(cross_product((1, 0), (0, 1)), 1);
}

#[test]
fn rotation_terms_of_perpendicular_objects() {
    // a horizontal bar (1 x 4) and a vertical bar (4 x 1)
    let mut h = vec![vec![0u8; 8]; 8];
    let mut v = vec![vec![0u8; 8]; 8];
    for k in 2..6 {
        h[3][k] = 1;
        v[k][3] = 1;
    }
    let (r, d) = simulate(h, v);
    let c = calibrate(&r, &d);
    // Myy - Mxx changes sign: the orientation vectors are opposite
    assert_eq!(c.rgb_moments, SecondMoments { m_xx: 0, m_yy: 5, m_xy: 0 });
    assert_eq!(c.depth_moments, SecondMoments { m_xx: 5, m_yy: 0, m_xy: 0 });
    assert_eq!(c.rgb_axis, (0, -5));
    assert_eq!(c.depth_axis, (0, 5));
    assert_eq!(c.axis_dot, -25);
    assert_eq!(c.axis_cross, 0);
}

#[test]
fn exact_sums_when_in_range() {
    // a 10 x 10 block of weight 1 at rows 0..10, cols 0..10: no register wraps
    let m = square(10, 0, 0, 10);
    let (r, _) = simulate(m.clone(), m);
    assert_eq!(r.sum_mask, 100);
    assert_eq!(r.sum_x, 450);
    assert_eq!(r.sum_x_pow_2, 2850);
    assert_eq!(r.sum_x_y, 2025);
}
