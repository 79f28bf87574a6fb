//! Box blur of a packed `rgb24` frame: every channel of every pixel becomes
//! the integer mean of that channel over the pixel's square neighbourhood,
//! clipped at the frame border. Used by the denoise fallback (radius `r`) and
//! as the low-pass of the deblur unsharp mask (radius 1).

use vstd::prelude::*;

use crate::arith::{lemma_index_bound, lemma_split_index};

verus! {

/// First row (or column) of the neighbourhood of `i` with radius `r`.
pub open spec fn window_lo(i: int, r: int) -> int {
    if i >= r {
        i - r
    } else {
        0
    }
}

/// One past the last row (or column) of the neighbourhood of `i` with radius
/// `r`, in a frame of `n` rows (or columns).
pub open spec fn window_hi(i: int, r: int, n: int) -> int {
    if i + r <= n - 1 {
        i + r + 1
    } else {
        n
    }
}

/// Sum of channel `c` over columns `x0..x1` of row `y`.
pub open spec fn row_sum(src: Seq<u8>, w: int, c: int, y: int, x0: int, x1: int) -> int
    decreases x1 - x0,
{
    if x1 <= x0 {
        0
    } else {
        row_sum(src, w, c, y, x0, x1 - 1) + src[(y * w + x1 - 1) * 3 + c]
    }
}

/// Sum of channel `c` over rows `y0..y1` and columns `x0..x1`.
pub open spec fn window_sum(src: Seq<u8>, w: int, c: int, y0: int, y1: int, x0: int, x1: int) -> int
    decreases y1 - y0,
{
    if y1 <= y0 {
        0
    } else {
        window_sum(src, w, c, y0, y1 - 1, x0, x1) + row_sum(src, w, c, y1 - 1, x0, x1)
    }
}

/// The blurred value of channel `c` of pixel `(y, x)`: the integer mean over
/// its clipped neighbourhood.
pub open spec fn blurred(src: Seq<u8>, w: int, h: int, r: int, y: int, x: int, c: int) -> int {
    let y0 = window_lo(y, r);
    let y1 = window_hi(y, r, h);
    let x0 = window_lo(x, r);
    let x1 = window_hi(x, r, w);
    window_sum(src, w, c, y0, y1, x0, x1) / ((y1 - y0) * (x1 - x0))
}

/// The blurred value at flat position `k` of the output.
pub open spec fn blurred_at(src: Seq<u8>, w: int, h: int, r: int, k: int) -> int {
    blurred(src, w, h, r, (k / 3) / w, (k / 3) % w, k % 3)
}

proof fn lemma_row_sum_bound(src: Seq<u8>, w: int, c: int, y: int, x0: int, x1: int)
    ensures
        0 <= row_sum(src, w, c, y, x0, x1) <= 255 * (if x1 > x0 { x1 - x0 } else { 0 }),
    decreases x1 - x0,
{
    if x1 > x0 {
        lemma_row_sum_bound(src, w, c, y, x0, x1 - 1);
    }
}

proof fn lemma_window_sum_bound(src: Seq<u8>, w: int, c: int, y0: int, y1: int, x0: int, x1: int)
    requires
        x0 <= x1,
    ensures
        0 <= window_sum(src, w, c, y0, y1, x0, x1) <= 255 * ((if y1 > y0 { y1 - y0 } else { 0 }) * (x1
            - x0)),
    decreases y1 - y0,
{
    if y1 > y0 {
        lemma_window_sum_bound(src, w, c, y0, y1 - 1, x0, x1);
        lemma_row_sum_bound(src, w, c, y1 - 1, x0, x1);
        assert((y1 - y0) * (x1 - x0) == (y1 - 1 - y0) * (x1 - x0) + (x1 - x0)) by (nonlinear_arith);
        if y1 - 1 <= y0 {
            assert(0int * (x1 - x0) == 0) by (nonlinear_arith);
        }
    }
}

/// Index bounds of a pixel channel inside a frame of `h` rows of `w` pixels.
proof fn lemma_pixel_index(w: int, h: int, y: int, x: int, c: int)
    requires
        0 <= y < h,
        0 <= x < w,
        0 <= c < 3,
    ensures
        0 <= (y * w + x) * 3 + c < h * w * 3,
{
    lemma_index_bound(y, h, w, x);
    assert(0 <= (y * w + x) * 3 + c < h * w * 3) by (nonlinear_arith)
        requires
            0 <= y * w + x < h * w,
            0 <= c < 3,
    ;
}

/// Channel `c` of every pixel of the `w × h` frame holds `v`.
pub open spec fn channel_is_flat(src: Seq<u8>, w: int, h: int, c: int, v: int) -> bool {
    forall|y: int, x: int| 0 <= y < h && 0 <= x < w ==> #[trigger] src[(y * w + x) * 3 + c] == v
}

proof fn lemma_row_sum_flat(src: Seq<u8>, w: int, h: int, c: int, v: int, y: int, x0: int, x1: int)
    requires
        channel_is_flat(src, w, h, c, v),
        0 <= y < h,
        0 <= x0 <= x1 <= w,
    ensures
        row_sum(src, w, c, y, x0, x1) == v * (x1 - x0),
    decreases x1 - x0,
{
    if x1 > x0 {
        lemma_row_sum_flat(src, w, h, c, v, y, x0, x1 - 1);
        assert(src[(y * w + (x1 - 1)) * 3 + c] == v);
        assert(v * (x1 - 1 - x0) + v == v * (x1 - x0)) by (nonlinear_arith);
    } else {
        assert(v * 0 == 0) by (nonlinear_arith);
    }
}

proof fn lemma_window_sum_flat(src: Seq<u8>, w: int, h: int, c: int, v: int, y0: int, y1: int, x0: int, x1: int)
    requires
        channel_is_flat(src, w, h, c, v),
        0 <= y0 <= y1 <= h,
        0 <= x0 <= x1 <= w,
    ensures
        window_sum(src, w, c, y0, y1, x0, x1) == v * ((y1 - y0) * (x1 - x0)),
    decreases y1 - y0,
{
    if y1 > y0 {
        lemma_window_sum_flat(src, w, h, c, v, y0, y1 - 1, x0, x1);
        lemma_row_sum_flat(src, w, h, c, v, y1 - 1, x0, x1);
        assert(v * ((y1 - 1 - y0) * (x1 - x0)) + v * (x1 - x0) == v * ((y1 - y0) * (x1 - x0)))
            by (nonlinear_arith);
    } else {
        assert(v * (0 * (x1 - x0)) == 0) by (nonlinear_arith);
    }
}

/// The blur keeps channels apart and flat regions flat: where channel `c`
/// holds the same value `v` over the whole frame, every blurred pixel holds
/// `v` in that channel, whatever the other channels hold.
pub proof fn lemma_blur_keeps_flat_channel(src: Seq<u8>, w: int, h: int, r: int, c: int, v: int, y: int, x: int)
    requires
        channel_is_flat(src, w, h, c, v),
        r >= 0,
        0 <= y < h,
        0 <= x < w,
    ensures
        blurred(src, w, h, r, y, x, c) == v,
{
    let y0 = window_lo(y, r);
    let y1 = window_hi(y, r, h);
    let x0 = window_lo(x, r);
    let x1 = window_hi(x, r, w);
    lemma_window_sum_flat(src, w, h, c, v, y0, y1, x0, x1);
    let n = (y1 - y0) * (x1 - x0);
    assert(n >= 1) by (nonlinear_arith)
        requires
            n == (y1 - y0) * (x1 - x0),
            y0 < y1,
            x0 < x1,
    ;
    vstd::arithmetic::div_mod::lemma_div_multiples_vanish(v, n);
    assert(v * n == n * v) by (nonlinear_arith);
}

/// Sum of channel `c` down column `x` over rows `y0..y1`.
pub open spec fn col_sum(src: Seq<u8>, w: int, c: int, x: int, y0: int, y1: int) -> int
    decreases y1 - y0,
{
    if y1 <= y0 {
        0
    } else {
        col_sum(src, w, c, x, y0, y1 - 1) + src[((y1 - 1) * w + x) * 3 + c]
    }
}

/// Sum of channel `c` over the block of rows `y0..y1` and columns `x0..x1`,
/// column by column.
pub open spec fn block_sum_by_columns(src: Seq<u8>, w: int, c: int, y0: int, y1: int, x0: int, x1: int) -> int
    decreases x1 - x0,
{
    if x1 <= x0 {
        0
    } else {
        block_sum_by_columns(src, w, c, y0, y1, x0, x1 - 1) + col_sum(src, w, c, x1 - 1, y0, y1)
    }
}

/// The frame with rows and columns swapped: a frame of `w` rows of `h`
/// pixels whose pixel `(x, y)` is pixel `(y, x)` of `src`.
pub open spec fn transposed(src: Seq<u8>, w: int, h: int) -> Seq<u8> {
    Seq::new(
        (w * h * 3) as nat,
        |k: int| src[(((k / 3) % h) * w + (k / 3) / h) * 3 + k % 3],
    )
}

proof fn lemma_columns_empty(src: Seq<u8>, w: int, c: int, y0: int, y1: int, x0: int, x1: int)
    requires
        y1 <= y0,
    ensures
        block_sum_by_columns(src, w, c, y0, y1, x0, x1) == 0,
    decreases x1 - x0,
{
    if x1 > x0 {
        lemma_columns_empty(src, w, c, y0, y1, x0, x1 - 1);
    }
}

proof fn lemma_columns_last_row(src: Seq<u8>, w: int, c: int, y0: int, y1: int, x0: int, x1: int)
    requires
        y1 > y0,
    ensures
        block_sum_by_columns(src, w, c, y0, y1, x0, x1) == block_sum_by_columns(src, w, c, y0, y1 - 1, x0, x1)
            + row_sum(src, w, c, y1 - 1, x0, x1),
    decreases x1 - x0,
{
    if x1 > x0 {
        lemma_columns_last_row(src, w, c, y0, y1, x0, x1 - 1);
    }
}

/// Summing a block row by row or column by column gives the same total.
proof fn lemma_rows_then_columns(src: Seq<u8>, w: int, c: int, y0: int, y1: int, x0: int, x1: int)
    ensures
        window_sum(src, w, c, y0, y1, x0, x1) == block_sum_by_columns(src, w, c, y0, y1, x0, x1),
    decreases y1 - y0,
{
    if y1 > y0 {
        lemma_rows_then_columns(src, w, c, y0, y1 - 1, x0, x1);
        lemma_columns_last_row(src, w, c, y0, y1, x0, x1);
    } else {
        lemma_columns_empty(src, w, c, y0, y1, x0, x1);
    }
}

/// Pixel `(x, y)` of the transposed frame is pixel `(y, x)` of the frame.
proof fn lemma_transposed_pixel(src: Seq<u8>, w: int, h: int, x: int, y: int, c: int)
    requires
        0 <= y < h,
        0 <= x < w,
        0 <= c < 3,
    ensures
        transposed(src, w, h)[(x * h + y) * 3 + c] == src[(y * w + x) * 3 + c],
{
    lemma_pixel_index(h, w, x, y, c);
    assert(w * h == h * w) by (nonlinear_arith);
    lemma_split_index(x * h + y, 3, c);
    lemma_split_index(x, h, y);
}

/// A row of the transposed frame is a column of the frame.
proof fn lemma_transposed_row(src: Seq<u8>, w: int, h: int, c: int, x: int, y0: int, y1: int)
    requires
        0 <= x < w,
        0 <= y0,
        y1 <= h,
        0 <= c < 3,
    ensures
        row_sum(transposed(src, w, h), h, c, x, y0, y1) == col_sum(src, w, c, x, y0, y1),
    decreases y1 - y0,
{
    if y1 > y0 {
        lemma_transposed_row(src, w, h, c, x, y0, y1 - 1);
        lemma_transposed_pixel(src, w, h, x, y1 - 1, c);
    }
}

/// A block of the transposed frame sums as the mirrored block of the frame.
proof fn lemma_transposed_block(src: Seq<u8>, w: int, h: int, c: int, y0: int, y1: int, x0: int, x1: int)
    requires
        0 <= x0,
        x1 <= w,
        0 <= y0,
        y1 <= h,
        0 <= c < 3,
    ensures
        window_sum(transposed(src, w, h), h, c, x0, x1, y0, y1) == block_sum_by_columns(src, w, c, y0, y1, x0, x1),
    decreases x1 - x0,
{
    if x1 > x0 {
        lemma_transposed_block(src, w, h, c, y0, y1, x0, x1 - 1);
        lemma_transposed_row(src, w, h, c, x1 - 1, y0, y1);
    }
}

/// Law: the blur treats rows and columns alike: blurring the transposed
/// frame gives the transposed blurred frame, pixel for pixel.
pub proof fn lemma_blur_commutes_with_transpose(src: Seq<u8>, w: int, h: int, r: int, y: int, x: int, c: int)
    requires
        r >= 0,
        0 <= y < h,
        0 <= x < w,
        0 <= c < 3,
    ensures
        blurred(transposed(src, w, h), h, w, r, x, y, c) == blurred(src, w, h, r, y, x, c),
{
    let y0 = window_lo(y, r);
    let y1 = window_hi(y, r, h);
    let x0 = window_lo(x, r);
    let x1 = window_hi(x, r, w);
    lemma_transposed_block(src, w, h, c, y0, y1, x0, x1);
    lemma_rows_then_columns(src, w, c, y0, y1, x0, x1);
    assert((x1 - x0) * (y1 - y0) == (y1 - y0) * (x1 - x0)) by (nonlinear_arith);
}

/// Law: each blurred value is the mean, rounded down, of the channel over
/// the pixels at most `r` rows and at most `r` columns away, summed column
/// by column.
pub proof fn lemma_blur_is_clipped_mean(src: Seq<u8>, w: int, h: int, r: int, y: int, x: int, c: int)
    requires
        r >= 0,
        0 <= y < h,
        0 <= x < w,
        0 <= c < 3,
    ensures
        ({
            let top = if y - r < 0 { 0 } else { y - r };
            let bottom = if y + r > h - 1 { h - 1 } else { y + r };
            let left = if x - r < 0 { 0 } else { x - r };
            let right = if x + r > w - 1 { w - 1 } else { x + r };
            blurred(src, w, h, r, y, x, c) == block_sum_by_columns(src, w, c, top, bottom + 1, left, right + 1)
                / ((bottom + 1 - top) * (right + 1 - left))
        }),
{
    lemma_rows_then_columns(src, w, c, window_lo(y, r), window_hi(y, r, h), window_lo(x, r), window_hi(x, r, w));
}

/// Sum of channel `c` over rows `y0..y1`, columns `x0..x1`.
fn channel_sum(src: &Vec<u8>, w: usize, h: usize, c: usize, y0: usize, y1: usize, x0: usize, x1: usize) -> (s: u64)
    requires
        src.len() == h * w * 3,
        h * w * 255 <= u64::MAX,
        c < 3,
        y0 <= y1 <= h,
        x0 <= x1 <= w,
    ensures
        s == window_sum(src@, w as int, c as int, y0 as int, y1 as int, x0 as int, x1 as int),
{
    let mut s: u64 = 0;
    let mut dy = y0;
    while dy < y1
        invariant
            src.len() == h * w * 3,
            h * w * 255 <= u64::MAX,
            c < 3,
            y0 <= dy <= y1 <= h,
            x0 <= x1 <= w,
            s == window_sum(src@, w as int, c as int, y0 as int, dy as int, x0 as int, x1 as int),
        decreases y1 - dy,
    {
        let mut row: u64 = 0;
        let mut dx = x0;
        while dx < x1
            invariant
                src.len() == h * w * 3,
                h * w * 255 <= u64::MAX,
                c < 3,
                y0 <= dy < y1 <= h,
                x0 <= dx <= x1 <= w,
                s == window_sum(src@, w as int, c as int, y0 as int, dy as int, x0 as int, x1 as int),
                row == row_sum(src@, w as int, c as int, dy as int, x0 as int, dx as int),
            decreases x1 - dx,
        {
            proof {
                lemma_pixel_index(w as int, h as int, dy as int, dx as int, c as int);
                lemma_row_sum_bound(src@, w as int, c as int, dy as int, x0 as int, dx as int + 1);
                lemma_window_sum_bound(src@, w as int, c as int, y0 as int, dy as int + 1, x0 as int, x1 as int);
                assert(255 * (dx + 1 - x0) <= 255 * w);
                assert(255 * ((dy + 1 - y0) * (x1 - x0)) <= h * w * 255) by (nonlinear_arith)
                    requires
                        0 <= dy + 1 - y0 <= h,
                        0 <= x1 - x0 <= w,
                ;
                assert(255 * w <= h * w * 255) by (nonlinear_arith)
                    requires
                        1 <= h,
                        0 <= w,
                ;
            }
            let p = (dy * w + dx) * 3 + c;
            row = row + src[p] as u64;
            dx += 1;
        }
        proof {
            lemma_window_sum_bound(src@, w as int, c as int, y0 as int, dy as int + 1, x0 as int, x1 as int);
            assert(255 * ((dy + 1 - y0) * (x1 - x0)) <= h * w * 255) by (nonlinear_arith)
                requires
                    0 <= dy + 1 - y0 <= h,
                    0 <= x1 - x0 <= w,
            ;
        }
        s = s + row;
        dy += 1;
    }
    s
}

/// Box blur of a packed `rgb24` frame of `h` rows of `w` pixels with radius
/// `r`: output channel `c` of pixel `(y, x)` is the integer mean (rounded
/// down) of channel `c` over rows `y-r ..= y+r` and columns `x-r ..= x+r`,
/// clipped to the frame.
pub fn box_blur(src: &Vec<u8>, w: usize, h: usize, r: usize) -> (out: Vec<u8>)
    requires
        src.len() == h * w * 3,
        h * w * 255 <= u64::MAX,
    ensures
        out.len() == src.len(),
        forall|y: int, x: int, c: int|
            0 <= y < h && 0 <= x < w && 0 <= c < 3 ==> #[trigger] out@[(y * w + x) * 3 + c] == blurred(
                src@,
                w as int,
                h as int,
                r as int,
                y,
                x,
                c,
            ),
{
    let mut out: Vec<u8> = Vec::new();
    let mut y: usize = 0;
    while y < h
        invariant
            src.len() == h * w * 3,
            h * w * 255 <= u64::MAX,
            y <= h,
            out.len() == y * w * 3,
            forall|k: int| 0 <= k < out.len() ==> #[trigger] out@[k] == blurred_at(src@, w as int, h as int, r as int, k),
        decreases h - y,
    {
        let y0: usize = if y >= r { y - r } else { 0 };
        let y1: usize = if r <= h - 1 - y { y + r + 1 } else { h };
        let mut x: usize = 0;
        while x < w
            invariant
                src.len() == h * w * 3,
                h * w * 255 <= u64::MAX,
                y < h,
                x <= w,
                y0 == window_lo(y as int, r as int),
                y1 == window_hi(y as int, r as int, h as int),
                out.len() == (y * w + x) * 3,
                forall|k: int| 0 <= k < out.len() ==> #[trigger] out@[k] == blurred_at(src@, w as int, h as int, r as int, k),
            decreases w - x,
        {
            let x0: usize = if x >= r { x - r } else { 0 };
            let x1: usize = if r <= w - 1 - x { x + r + 1 } else { w };
            let ghost n: int = (y1 - y0) * (x1 - x0);
            proof {
                assert(1 <= n) by (nonlinear_arith)
                    requires
                        n == (y1 - y0) * (x1 - x0),
                        y0 < y1,
                        x0 < x1,
                ;
                assert(n <= h * w) by (nonlinear_arith)
                    requires
                        n == (y1 - y0) * (x1 - x0),
                        y1 - y0 <= h,
                        x1 - x0 <= w,
                        y0 < y1,
                        x0 < x1,
                ;
            }
            let count: u64 = ((y1 - y0) as u64) * ((x1 - x0) as u64);
            let mut c: usize = 0;
            while c < 3
                invariant
                    src.len() == h * w * 3,
                    h * w * 255 <= u64::MAX,
                    y < h,
                    x < w,
                    c <= 3,
                    y0 == window_lo(y as int, r as int),
                    y1 == window_hi(y as int, r as int, h as int),
                    x0 == window_lo(x as int, r as int),
                    x1 == window_hi(x as int, r as int, w as int),
                    count == (y1 - y0) * (x1 - x0),
                    1 <= count,
                    out.len() == (y * w + x) * 3 + c,
                    forall|k: int| 0 <= k < out.len() ==> #[trigger] out@[k] == blurred_at(src@, w as int, h as int, r as int, k),
                decreases 3 - c,
            {
                let s = channel_sum(src, w, h, c, y0, y1, x0, x1);
                proof {
                    lemma_window_sum_bound(src@, w as int, c as int, y0 as int, y1 as int, x0 as int, x1 as int);
                    assert(s / count <= 255) by (nonlinear_arith)
                        requires
                            0 <= s <= 255 * count,
                            1 <= count,
                    ;
                    let k = (y * w + x) * 3 + c;
                    lemma_split_index(y * w + x, 3, c as int);
                    lemma_split_index(y as int, w as int, x as int);
                    assert(blurred_at(src@, w as int, h as int, r as int, k) == s / count);
                }
                out.push((s / count) as u8);
                c += 1;
            }
            x += 1;
        }
        proof {
            assert((y * w + w) * 3 == (y + 1) * w * 3) by (nonlinear_arith);
        }
        y += 1;
    }
    proof {
        assert forall|y: int, x: int, c: int|
            0 <= y < h && 0 <= x < w && 0 <= c < 3 implies #[trigger] out@[(y * w + x) * 3 + c]
            == blurred(src@, w as int, h as int, r as int, y, x, c) by {
            lemma_pixel_index(w as int, h as int, y, x, c);
            lemma_index_bound(y, h as int, w as int, x);
            lemma_split_index(y * w + x, 3, c);
            lemma_split_index(y, w as int, x);
            assert(h * w * 3 == out.len()) by (nonlinear_arith)
                requires
                    out.len() == h * w * 3,
            ;
        }
    }
    out
}

} // verus!
