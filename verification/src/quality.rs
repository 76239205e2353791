//! Blur detection: the spread of the Laplacian over a greyscale picture. A sharp
//! photo has strong edges, so its Laplacian swings widely; a soft one barely moves.
use vstd::prelude::*;

verus! {

/// Whether pixel `i` of a `width` by `height` picture has a full neighbourhood.
pub open spec fn is_interior(width: int, height: int, i: int) -> bool {
    1 <= i % width < width - 1 && 1 <= i / width < height - 1
}

/// The 4-neighbour Laplacian at interior pixel `i`:
/// up + left - 4 × centre + right + down.
pub open spec fn laplacian_at(pixels: Seq<u8>, width: int, i: int) -> int {
    pixels[i - width] + pixels[i - 1] - 4 * pixels[i] + pixels[i + 1] + pixels[i + width]
}

/// The count, sum and sum of squares of the Laplacian over the interior pixels
/// among the first `k`.
pub open spec fn moments_upto(pixels: Seq<u8>, width: int, height: int, k: int) -> (int, int, int)
    decreases k,
{
    if k <= 0 {
        (0, 0, 0)
    } else {
        let (n, s, q) = moments_upto(pixels, width, height, k - 1);
        if is_interior(width, height, k - 1) {
            let r = laplacian_at(pixels, width, k - 1);
            (n + 1, s + r, q + r * r)
        } else {
            (n, s, q)
        }
    }
}

proof fn lemma_moments_bounds(pixels: Seq<u8>, width: int, height: int, k: int)
    requires
        0 <= k,
        width >= 3,
        k <= pixels.len() == width * height,
    ensures
        0 <= moments_upto(pixels, width, height, k).0 <= k,
        -1020 * moments_upto(pixels, width, height, k).0 <= moments_upto(pixels, width, height, k).1 <= 1020
            * moments_upto(pixels, width, height, k).0,
        0 <= moments_upto(pixels, width, height, k).2 <= 1040400 * moments_upto(pixels, width, height, k).0,
    decreases k,
{
    if k > 0 {
        lemma_moments_bounds(pixels, width, height, k - 1);
        let (n0, s0, q0) = moments_upto(pixels, width, height, k - 1);
        if is_interior(width, height, k - 1) {
            let i = k - 1;
            assert(width <= i < pixels.len() - width) by (nonlinear_arith)
                requires
                    1 <= i / width < height - 1,
                    width >= 3,
                    pixels.len() == width * height,
                    0 <= i,
            ;
            let r = laplacian_at(pixels, width, i);
            assert(-1020 <= r <= 1020);
            assert(0 <= r * r <= 1040400) by (nonlinear_arith)
                requires
                    -1020 <= r <= 1020,
            ;
            assert(moments_upto(pixels, width, height, k) == (n0 + 1, s0 + r, q0 + r * r));
        } else {
            assert(moments_upto(pixels, width, height, k) == (n0, s0, q0));
        }
    }
}

/// The count, sum and sum of squares of the Laplacian over the pixels with a full
/// neighbourhood; a picture too small to have one gives zeros. `pixels` holds
/// one byte a pixel, row by row. The variance is `q / n - (s / n)²`.
pub fn laplacian_moments(pixels: &Vec<u8>, width: u32, height: u32) -> (r: (i64, i64, i64))
    requires
        pixels@.len() == width * height,
        pixels@.len() <= 0x800_0000_0000,
    ensures
        width < 3 || height < 3 ==> r == (0i64, 0i64, 0i64),
        width >= 3 && height >= 3 ==> (r.0 as int, r.1 as int, r.2 as int) == moments_upto(
            pixels@,
            width as int,
            height as int,
            pixels@.len() as int,
        ),
{
    if width < 3 || height < 3 {
        return (0, 0, 0);
    }
    let w = width as usize;
    let len = pixels.len();
    let mut count: i64 = 0;
    let mut sum: i64 = 0;
    let mut squares: i64 = 0;
    let mut i: usize = 0;
    while i < len
        invariant
            w == width,
            width >= 3,
            height >= 3,
            len == pixels@.len() == width * height,
            len <= 0x800_0000_0000,
            i <= len,
            (count as int, sum as int, squares as int) == moments_upto(pixels@, width as int, height as int, i as int),
        decreases len - i,
    {
        proof {
            lemma_moments_bounds(pixels@, width as int, height as int, i as int);
        }
        let x = i % w;
        let y = i / w;
        if 1 <= x && x < w - 1 && 1 <= y && y < (height as usize) - 1 {
            assert(w <= i < len - w) by (nonlinear_arith)
                requires
                    1 <= i / w < height - 1,
                    w >= 3,
                    len == w * height,
            ;
            let r: i64 = pixels[i - w] as i64 + pixels[i - 1] as i64 - 4 * (pixels[i] as i64) + pixels[i + 1] as i64
                + pixels[i + w] as i64;
            assert(0 <= r * r <= 1040400) by (nonlinear_arith)
                requires
                    -1020 <= r <= 1020,
            ;
            proof {
                assert(squares + r * r <= 1040400 * (count + 1)) by (nonlinear_arith)
                    requires
                        squares <= 1040400 * count,
                        r * r <= 1040400,
                ;
                assert(1040400 * (count + 1) <= 1040400 * 0x800_0000_0000) by (nonlinear_arith)
                    requires
                        count + 1 <= 0x800_0000_0000,
                ;
            }
            count = count + 1;
            sum = sum + r;
            squares = squares + r * r;
        }
        i = i + 1;
    }
    (count, sum, squares)
}

} // verus!
