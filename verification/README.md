# rgbd_calib

Extrinsic calibration of a depth (lidar) camera against an RGB camera from a synthetic
2 x 2 black-and-white target, restricted to a planar rotation and shift.

Both images are thresholded into binary masks and streamed, pixel by pixel, through a
synchronous circuit that accumulates the raw image moments `Σ m`, `Σ x·m`, `Σ y·m`,
`Σ x²·m`, `Σ y²·m`, `Σ x·y·m` in fixed-width registers. From the final registers the
library derives each image's centroid, the centroid offset between the images, the
second-order central moments, the orientation vector `[2·Mxy, Mxx − Myy]`, and the dot
and cross products of the two orientation vectors from which the relative rotation
follows.

- `src/moments.rs`: the mathematical model of the moments and the proved laws
  (register wrap-around, rounding of the integer central moments, invariance under
  shifts, recovery of a shift from the centroids, independence of the pixel order).
- `src/image_moments.rs`: the moments of whole images and the law that moving the object
  in an image moves its moments, keeps its central moments and moves its centroid.
- `src/circ_seq.rs`: the moment circuit, its input scan, and the calibration arithmetic.
- `src/mask.rs`: a combinational threshold-and-centroid circuit on 32 x 32 patches, and the
  law that transposing a patch swaps its row and column sums.
- `src/simulation.rs`: image patches and the grayscale thresholding.
- `app/main.rs`: loads the PNG images, runs the library and prints the results,
  including the floating-point rotation `R` and the offset `t = c_depth − R·c_rgb`.
