use vstd::prelude::*;

verus! {

/// A `WIDTH` x `HEIGHT` patch of an 8-bit image: `data[y][x]` is the pixel in row `y`,
/// column `x`.
#[derive(Clone, Debug, PartialEq, Eq)]
pub struct ImageMatrix<const WIDTH: usize, const HEIGHT: usize> {
    pub data: Vec<Vec<u8>>,
}

impl<const WIDTH: usize, const HEIGHT: usize> ImageMatrix<WIDTH, HEIGHT> {
    /// The patch has exactly `HEIGHT` rows of `WIDTH` pixels each.
    pub open spec fn wf(&self) -> bool {
        &&& self.data@.len() == HEIGHT
        &&& forall|y: int| 0 <= y < HEIGHT ==> #[trigger] self.data@[y]@.len() == WIDTH
    }

    /// The pixel in row `y`, column `x`.
    pub open spec fn pixel(&self, y: int, x: int) -> u8 {
        self.data@[y]@[x]
    }

    /// The pixels, row by row.
    pub open spec fn rows(&self) -> Seq<Seq<u8>> {
        self.data@.map_values(|r: Vec<u8>| r@)
    }
}

/// The top-left `width` x `height` corner of `matrix`, row by row.
pub open spec fn top_left(matrix: Seq<Vec<u8>>, width: int, height: int) -> Seq<Seq<u8>> {
    Seq::new(height as nat, |y: int| matrix[y]@.take(width))
}

/// A row of `width` zero pixels.
fn zero_row(width: usize) -> (row: Vec<u8>)
    ensures
        row@.len() == width,
        forall|x: int| 0 <= x < width ==> row@[x] == 0,
{
    let mut row: Vec<u8> = Vec::new();
    for x in 0..width
        invariant
            row@.len() == x,
            forall|k: int| 0 <= k < x ==> row@[k] == 0,
    {
        row.push(0);
    }
    row
}

impl<const WIDTH: usize, const HEIGHT: usize> Default for ImageMatrix<WIDTH, HEIGHT> {
    /// The all-black patch.
    fn default() -> (m: Self)
        ensures
            m.wf(),
            forall|y: int, x: int| 0 <= y < HEIGHT && 0 <= x < WIDTH ==> m.pixel(y, x) == 0,
    {
        let mut data: Vec<Vec<u8>> = Vec::new();
        for y in 0..HEIGHT
            invariant
                data@.len() == y,
                forall|k: int| 0 <= k < y ==> #[trigger] data@[k]@.len() == WIDTH,
                forall|k: int, x: int| 0 <= k < y && 0 <= x < WIDTH ==> data@[k]@[x] == 0,
        {
            data.push(zero_row(WIDTH));
        }
        ImageMatrix { data }
    }
}

impl<const WIDTH: usize, const HEIGHT: usize> ImageMatrix<WIDTH, HEIGHT> {
    /// Copies the top-left `WIDTH` x `HEIGHT` corner of `matrix` (rows first) into a patch.
    /// `matrix` must have at least `HEIGHT` rows, each of the first `HEIGHT` with at least
    /// `WIDTH` pixels.
    pub fn create(matrix: Vec<Vec<u8>>) -> (m: Self)
        requires
            matrix@.len() >= HEIGHT,
            forall|y: int| 0 <= y < HEIGHT ==> #[trigger] matrix@[y]@.len() >= WIDTH,
        ensures
            m.wf(),
            forall|y: int, x: int|
                0 <= y < HEIGHT && 0 <= x < WIDTH ==> m.pixel(y, x) == matrix@[y]@[x],
            m.rows() == top_left(matrix@, WIDTH as int, HEIGHT as int),
    {
        let mut data: Vec<Vec<u8>> = Vec::new();
        for y in 0..HEIGHT
            invariant
                matrix@.len() >= HEIGHT,
                forall|k: int| 0 <= k < HEIGHT ==> #[trigger] matrix@[k]@.len() >= WIDTH,
                data@.len() == y,
                forall|k: int| 0 <= k < y ==> #[trigger] data@[k]@.len() == WIDTH,
                forall|k: int, x: int|
                    0 <= k < y && 0 <= x < WIDTH ==> data@[k]@[x] == matrix@[k]@[x],
        {
            let src = &matrix[y];
            let mut row: Vec<u8> = Vec::new();
            for x in 0..WIDTH
                invariant
                    src@.len() >= WIDTH,
                    row@.len() == x,
                    forall|k: int| 0 <= k < x ==> row@[k] == src@[k],
            {
                row.push(src[x]);
            }
            data.push(row);
        }
        let m = ImageMatrix { data };
        assert forall|y: int| 0 <= y < HEIGHT implies #[trigger] m.rows()[y] =~= top_left(
            matrix@,
            WIDTH as int,
            HEIGHT as int,
        )[y] by {}
        assert(m.rows() =~= top_left(matrix@, WIDTH as int, HEIGHT as int));
        m
    }
}

/// The binary value of a gray level: 1 above mid-gray (128), else 0.
pub open spec fn binary_level(v: u8) -> u8 {
    if v > 128 {
        1
    } else {
        0
    }
}

/// A gray level is binarised to 0 or 1, and to 1 exactly when it is above mid-gray (128);
/// a brighter level never gives a lower binary value.
pub proof fn law_binary_level(v: u8, w: u8)
    ensures
        binary_level(v) <= 1,
        binary_level(v) == 1 <==> v > 128,
        v <= w ==> binary_level(v) <= binary_level(w),
{
}

/// Turns a grayscale image (rows of gray levels) into a binary mask of the same shape:
/// each pixel becomes 1 when its gray level is above 128, else 0.
pub fn threshold_image(gray: &Vec<Vec<u8>>) -> (mask: Vec<Vec<u8>>)
    ensures
        mask@.len() == gray@.len(),
        forall|y: int|
            0 <= y < gray@.len() ==> #[trigger] mask@[y]@ == gray@[y]@.map_values(
                |v: u8| binary_level(v),
            ),
        forall|y: int, x: int|
            0 <= y < gray@.len() && 0 <= x < gray@[y]@.len() ==> (#[trigger] mask@[y]@[x] == 1
                <==> gray@[y]@[x] > 128) && mask@[y]@[x] <= 1,
{
    let mut mask: Vec<Vec<u8>> = Vec::new();
    for y in 0..gray.len()
        invariant
            mask@.len() == y,
            forall|k: int|
                0 <= k < y ==> #[trigger] mask@[k]@ == gray@[k]@.map_values(
                    |v: u8| binary_level(v),
                ),
    {
        let src = &gray[y];
        let mut row: Vec<u8> = Vec::new();
        for x in 0..src.len()
            invariant
                row@.len() == x,
                forall|k: int| 0 <= k < x ==> row@[k] == binary_level(src@[k]),
        {
            let v: u8 = if src[x] > 128 {
                1
            } else {
                0
            };
            row.push(v);
        }
        assert(row@ =~= src@.map_values(|v: u8| binary_level(v)));
        mask.push(row);
    }
    mask
}

/// A 2 x 2 transform (rotation) matrix of 8-bit entries.
#[derive(Clone, Copy, Debug, PartialEq, Eq)]
pub struct TransformMatrix {
    pub data: [[u8; 2]; 2],
}

impl Default for TransformMatrix {
    /// The all-zero matrix.
    fn default() -> (m: Self)
        ensures
            forall|r: int, c: int| 0 <= r < 2 && 0 <= c < 2 ==> m.data[r][c] == 0,
    {
        TransformMatrix { data: [[0, 0], [0, 0]] }
    }
}

} // verus!
