use rgbd_calib::mask::{find_centroid, mask, sim, sim_kernel, sim_kernel_comb, simulate};
use rgbd_calib::simulation::{threshold_image, ImageMatrix, TransformMatrix};

fn patch(f: impl Fn(usize, usize) -> u8) -> ImageMatrix<32, 32> {
    let mut data = vec![vec![0u8; 32]; 32];
    for y in 0..32 {
        for x in 0..32 {
            data[y][x] = f(y, x);
        }
    }
    ImageMatrix { data }
}

#[test]
fn default_patch_is_black() {
    let m: ImageMatrix<3, 2> = ImageMatrix::default();
    assert_eq!(m.data, vec![vec![0, 0, 0], vec![0, 0, 0]]);
    assert_eq!(TransformMatrix::default().data, [[0, 0], [0, 0]]);
    assert!(!sim::default().memory);
}

#[test]
fn create_copies_top_left_corner() {
    let matrix = vec![vec![1, 2, 3], vec![4, 5, 6], vec![7, 8, 9]];
    let m: ImageMatrix<2, 2> = ImageMatrix::create(matrix);
    assert_eq!(m.data, vec![vec![1, 2], vec![4, 5]]);
}

#[test]
fn threshold_splits_at_mid_gray() {
    let gray = vec![vec![0, 128, 129, 255], vec![200]];
    assert_eq!(threshold_image(&gray), vec![vec![0, 0, 1, 1], vec![1]]);
}

#[test]
fn mask_thresholds_all_rows_but_the_last() {
    let m = mask(&patch(|_, x| if x % 2 == 0 { 200 } else { 128 }));
    for y in 0..31 {
        for x in 0..32 {
            assert_eq!(m.data[y][x], if x % 2 == 0 { 1 } else { 0 });
        }
    }
    assert_eq!(m.data[31], vec![0u8; 32]);
}

#[test]
fn centroid_sums_of_small_block() {
    // ones at rows 2,3 and columns 5,6
    let p = patch(|y, x| if (2..4).contains(&y) && (5..7).contains(&x) { 1 } else { 0 });
    let r = find_centroid(&p);
    assert_eq!(r.data, vec![vec![10, 22], vec![4, 4]]);
}

#[test]
fn centroid_counts_all_values_but_sums_coordinates_of_ones() {
    // a pixel of value 2 adds to the count, not to the coordinate sums
    let p = patch(|y, x| if y == 4 && x == 4 { 2 } else if y == 1 && x == 3 { 1 } else { 0 });
    let r = find_centroid(&p);
    assert_eq!(r.data, vec![vec![1, 3], vec![3, 3]]);
}

#[test]
fn centroid_accumulators_wrap_at_eight_bits() {
    let m = mask(&patch(|_, _| 255));
    let r = find_centroid(&m);
    // 31 rows of 32 ones: count 992 = 3 * 256 + 224
    // rows: 32 * (0 + ... + 30) = 14880 = 58 * 256 + 32
    // cols: 31 * (0 + ... + 31) = 15376 = 60 * 256 + 16
    assert_eq!(r.data, vec![vec![32, 16], vec![224, 224]]);
}

#[test]
fn transposing_swaps_row_and_column_sums() {
    let p = patch(|y, x| if (y == 2 && x == 9) || (y == 17 && x == 4) || (y == 5 && x == 5) { 1 } else { (y * x % 3) as u8 * 2 });
    let t = patch(|y, x| p.data[x][y]);
    let r = find_centroid(&p);
    let rt = find_centroid(&t);
    assert_eq!(rt.data[0][0], r.data[0][1]);
    assert_eq!(rt.data[0][1], r.data[0][0]);
    assert_eq!(rt.data[1], r.data[1]);
    assert_eq!(r.data[0], vec![24, 18]);
}

#[test]
fn sim_kernel_subtracts_with_wrap() {
    let rgb = patch(|y, x| if y == 1 && x == 1 { 255 } else { 0 });
    let depth = patch(|y, x| if y == 3 && x == 5 { 255 } else { 0 });
    let r = sim_kernel(&[rgb, depth]);
    // (1 - 3) mod 256 = 254, (1 - 5) mod 256 = 252
    assert_eq!(r.data, vec![vec![254, 252], vec![0, 0]]);
}

#[test]
fn sim_kernel_comb_reads_the_depth_patch() {
    let rgb = patch(|_, _| 255);
    let depth = patch(|y, x| if y == 2 && x == 7 { 200 } else { 0 });
    let r = sim_kernel_comb(&[rgb, depth]);
    assert_eq!(r.data, vec![vec![2, 7], vec![1, 1]]);
}

#[test]
fn mask_simulate_crops_and_masks_depth() {
    let mut depth = vec![vec![0u8; 40]; 40];
    depth[5][6] = 255;
    depth[35][35] = 255; // outside the 32 x 32 corner
    let rgb = vec![vec![255u8; 32]; 32];
    let r = simulate(rgb, depth);
    assert_eq!(r.data, vec![vec![5, 6], vec![1, 1]]);
}
