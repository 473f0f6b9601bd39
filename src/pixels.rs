use vstd::prelude::*;

verus! {

/// One output pixel: four 8-bit channels.
#[derive(Clone, Copy, Debug, PartialEq, Eq, Structural)]
pub struct Rgba8 {
    pub r: u8,
    pub g: u8,
    pub b: u8,
    pub a: u8,
}

/// Images with more pixels than this are filled row-parallel.
pub const PARALLEL_THRESHOLD: u64 = 262144;

/// Length in bytes of a `width` by `height` RGBA8 buffer.
pub open spec fn byte_len(width: u32, height: u32) -> int {
    width as int * height as int * 4
}

/// The pixel stored at pixel index `i` of a byte buffer.
pub open spec fn pixel_at(bytes: Seq<u8>, i: int) -> Rgba8 {
    Rgba8 { r: bytes[4 * i], g: bytes[4 * i + 1], b: bytes[4 * i + 2], a: bytes[4 * i + 3] }
}

/// `row` holds, pixel by pixel, what `shade` gives for row `y` of an image
/// `width` pixels wide.
pub open spec fn row_shaded<F: Fn(u32, u32) -> Rgba8>(
    shade: F,
    row: Seq<u8>,
    y: u32,
    width: u32,
) -> bool {
    &&& row.len() == 4 * width as int
    &&& forall|x: u32| x < width ==> #[trigger] shade.ensures((x, y), pixel_at(row, x as int))
}

/// `buf` holds, in row-major order from the top left, what `shade` gives for
/// every pixel of a `width` by `height` image.
pub open spec fn image_shaded<F: Fn(u32, u32) -> Rgba8>(
    shade: F,
    buf: Seq<u8>,
    width: u32,
    height: u32,
) -> bool {
    &&& buf.len() == byte_len(width, height)
    &&& forall|x: u32, y: u32|
        x < width && y < height ==> #[trigger] shade.ensures(
            (x, y),
            pixel_at(buf, y as int * width as int + x as int),
        )
}

/// `shade` gives one pixel for each coordinate pair: two results for the same
/// pixel are equal.
pub open spec fn shade_is_function<F: Fn(u32, u32) -> Rgba8>(shade: F) -> bool {
    forall|x: u32, y: u32, p: Rgba8, q: Rgba8|
        #[trigger] shade.ensures((x, y), p) && #[trigger] shade.ensures((x, y), q) ==> p == q
}

/// `shade` accepts every pixel of a `width` by `height` image.
pub open spec fn shade_accepts<F: Fn(u32, u32) -> Rgba8>(shade: F, width: u32, height: u32) -> bool {
    forall|x: u32, y: u32| x < width && y < height ==> #[trigger] shade.requires((x, y))
}

proof fn lemma_pixel_count_fits(width: u32, height: u32)
    ensures
        width as int * height as int <= u64::MAX,
{
    assert(width as int * height as int <= u32::MAX as int * u32::MAX as int) by (nonlinear_arith);
}

/// Length in bytes of a `width` by `height` RGBA8 buffer, or `None` where it
/// exceeds the addressable length.
pub fn buffer_len(width: u32, height: u32) -> (r: Option<usize>)
    ensures
        r == (if byte_len(width, height) <= usize::MAX {
            Some(byte_len(width, height) as usize)
        } else {
            None::<usize>
        }),
{
    proof {
        lemma_pixel_count_fits(width, height);
    }
    let pixels: u64 = width as u64 * height as u64;
    match pixels.checked_mul(4) {
        Some(n) => {
            if n <= usize::MAX as u64 {
                Some(n as usize)
            } else {
                None
            }
        },
        None => None,
    }
}

/// Whether an image of this size is filled row-parallel rather than row by
/// row on one thread; both fills give the same bytes.
pub fn uses_parallel(width: u32, height: u32) -> (r: bool)
    ensures
        r == (width as int * height as int > PARALLEL_THRESHOLD),
{
    proof {
        lemma_pixel_count_fits(width, height);
    }
    (width as u64) * (height as u64) > PARALLEL_THRESHOLD
}

/// Shades row `y` of an image `width` pixels wide: four bytes per pixel,
/// left to right.
pub fn shade_row<F: Fn(u32, u32) -> Rgba8>(y: u32, width: u32, shade: &F) -> (r: Vec<u8>)
    requires
        forall|x: u32| x < width ==> #[trigger] shade.requires((x, y)),
    ensures
        row_shaded(*shade, r@, y, width),
{
    let mut row: Vec<u8> = Vec::new();
    let mut x: u32 = 0;
    while x < width
        invariant
            x <= width,
            row@.len() == 4 * x as int,
            forall|k: u32| k < width ==> #[trigger] shade.requires((k, y)),
            forall|k: u32| k < x ==> #[trigger] shade.ensures((k, y), pixel_at(row@, k as int)),
        decreases width - x,
    {
        let p = shade(x, y);
        let ghost before = row@;
        row.push(p.r);
        row.push(p.g);
        row.push(p.b);
        row.push(p.a);
        assert forall|k: u32| k < x + 1 implies #[trigger] shade.ensures(
            (k, y),
            pixel_at(row@, k as int),
        ) by {
            if k < x {
                assert(pixel_at(row@, k as int) == pixel_at(before, k as int));
            } else {
                assert(pixel_at(row@, k as int) == p);
            }
        }
        x = x + 1;
    }
    row
}

/// Fills a `width` by `height` RGBA8 buffer row by row, top to bottom, with
/// what `shade` gives for each pixel. An image with no pixels gives an empty
/// buffer.
pub fn render<F: Fn(u32, u32) -> Rgba8>(width: u32, height: u32, shade: &F) -> (r: Vec<u8>)
    requires
        byte_len(width, height) <= usize::MAX,
        shade_accepts(*shade, width, height),
    ensures
        image_shaded(*shade, r@, width, height),
{
    let mut buf: Vec<u8> = Vec::new();
    let mut y: u32 = 0;
    while y < height
        invariant
            y <= height,
            buf@.len() == 4 * width as int * y as int,
            shade_accepts(*shade, width, height),
            forall|x: u32, k: u32|
                x < width && k < y ==> #[trigger] shade.ensures(
                    (x, k),
                    pixel_at(buf@, k as int * width as int + x as int),
                ),
        decreases height - y,
    {
        assert forall|x: u32| x < width implies #[trigger] shade.requires((x, y)) by {}
        let mut row = shade_row(y, width, shade);
        let ghost before = buf@;
        let ghost line = row@;
        buf.append(&mut row);
        assert forall|x: u32, k: u32| x < width && k < y + 1 implies #[trigger] shade.ensures(
            (x, k),
            pixel_at(buf@, k as int * width as int + x as int),
        ) by {
            let i = k as int * width as int + x as int;
            if k < y {
                assert(k as int * width as int + width as int <= y as int * width as int)
                    by (nonlinear_arith)
                    requires
                        k < y,
                ;
                assert(4 * width as int * y as int == 4 * (y as int * width as int))
                    by (nonlinear_arith);
                assert(pixel_at(buf@, i) == pixel_at(before, i));
            } else {
                assert(4 * i == 4 * width as int * y as int + 4 * x as int) by (nonlinear_arith)
                    requires
                        i == k as int * width as int + x as int,
                        k == y,
                ;
                assert(pixel_at(buf@, i) == pixel_at(line, x as int));
            }
        }
        proof {
            assert(4 * width as int * (y as int + 1) == 4 * width as int * y as int + 4
                * width as int) by (nonlinear_arith);
        }
        y = y + 1;
    }
    assert(4 * width as int * height as int == byte_len(width, height)) by (nonlinear_arith);
    buf
}

proof fn lemma_split_index(j: int, width: int, y: int)
    requires
        0 <= j,
        0 < width,
        0 <= y,
    ensures
        ({
            &&& 4 * (y * width) + j == 4 * (y * width + j / 4) + j % 4
            &&& 0 <= j % 4 < 4
            &&& (j / 4) / width * width + (j / 4) % width == j / 4
            &&& 0 <= (j / 4) % width < width
            &&& 0 <= (j / 4) / width
        }),
{
    vstd::arithmetic::div_mod::lemma_fundamental_div_mod(j, 4);
    vstd::arithmetic::div_mod::lemma_fundamental_div_mod(j / 4, width);
    vstd::arithmetic::div_mod::lemma_mod_bound(j / 4, width);
    vstd::arithmetic::div_mod::lemma_div_pos_is_pos(j / 4, width);
    assert(4 * (y * width) + j == 4 * (y * width + j / 4) + j % 4) by (nonlinear_arith)
        requires
            j == 4 * (j / 4) + j % 4,
    ;
    assert((j / 4) / width * width == width * ((j / 4) / width)) by (nonlinear_arith);
}

/// Filling is deterministic: for a shade that gives one pixel per
/// coordinate pair, any two buffers that hold its image are the same bytes.
pub proof fn lemma_render_deterministic<F: Fn(u32, u32) -> Rgba8>(
    shade: F,
    width: u32,
    height: u32,
    a: Seq<u8>,
    b: Seq<u8>,
)
    requires
        shade_is_function(shade),
        image_shaded(shade, a, width, height),
        image_shaded(shade, b, width, height),
    ensures
        a == b,
{
    assert forall|j: int| 0 <= j < a.len() implies a[j] == b[j] by {
        assert(width > 0 && height > 0) by (nonlinear_arith)
            requires
                0 <= j < width as int * height as int * 4,
        ;
        let i = j / 4;
        lemma_split_index(j, width as int, 0);
        let xi = i % width as int;
        let yi = i / width as int;
        assert(i < width as int * height as int);
        assert(yi * width as int + xi == i);
        assert(yi < height) by (nonlinear_arith)
            requires
                yi * width as int + xi == i,
                i < width as int * height as int,
                0 <= xi,
                0 < width,
        ;
        let x = xi as u32;
        let y = yi as u32;
        assert(shade.ensures((x, y), pixel_at(a, i)));
        assert(shade.ensures((x, y), pixel_at(b, i)));
        assert(pixel_at(a, i) == pixel_at(b, i));
    }
    assert(a =~= b);
}

/// A row shaded on its own holds the same bytes as that row of the whole
/// image: filling rows on separate workers and filling the image row by row on
/// one thread give identical buffers.
pub proof fn lemma_row_matches_image<F: Fn(u32, u32) -> Rgba8>(
    shade: F,
    width: u32,
    height: u32,
    buf: Seq<u8>,
    y: u32,
    row: Seq<u8>,
)
    requires
        shade_is_function(shade),
        image_shaded(shade, buf, width, height),
        y < height,
        row_shaded(shade, row, y, width),
    ensures
        4 * width as int * (y as int + 1) <= buf.len(),
        buf.subrange(4 * width as int * y as int, 4 * width as int * (y as int + 1)) == row,
{
    assert(4 * width as int * (y as int + 1) <= byte_len(width, height)) by (nonlinear_arith)
        requires
            y < height,
    ;
    let start = 4 * width as int * y as int;
    let line = buf.subrange(start, 4 * width as int * (y as int + 1));
    assert(4 * width as int * (y as int + 1) == start + 4 * width as int) by (nonlinear_arith)
        requires
            start == 4 * width as int * y as int,
    ;
    assert forall|j: int| 0 <= j < row.len() implies line[j] == row[j] by {
        let x = (j / 4) as u32;
        lemma_split_index(j, width as int, y as int);
        assert(start == 4 * (y as int * width as int)) by (nonlinear_arith)
            requires
                start == 4 * width as int * y as int,
        ;
        assert(j / 4 < width);
        assert(shade.ensures((x, y), pixel_at(buf, y as int * width as int + x as int)));
        assert(shade.ensures((x, y), pixel_at(row, x as int)));
        assert(pixel_at(buf, y as int * width as int + x as int) == pixel_at(row, x as int));
        assert(line[j] == buf[start + j]);
    }
    assert(line =~= row);
}

} // verus!
