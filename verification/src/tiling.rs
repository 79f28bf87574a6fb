//! Tile geometry for tiled inference: edge-replicated padding, cropping,
//! uniform tile extraction and the feather ramp used to blend tile seams.

use vstd::prelude::*;

use crate::arith::{lemma_index_bound, lemma_mul_le, lemma_split_index};
use crate::tensor::{copy_tensor, Tensor};

verus! {

/// The coordinate that edge replication reads for `i` on an axis of length `n`.
pub open spec fn clamp_coord(i: int, n: int) -> int {
    if i < n {
        i
    } else {
        n - 1
    }
}

/// Flat source index (in a `c × h × w` canvas) that padded position
/// `(ci, y, x)` replicates.
pub open spec fn pad_source(h: int, w: int, ci: int, y: int, x: int) -> int {
    (ci * h + clamp_coord(y, h)) * w + clamp_coord(x, w)
}

/// Row-major position of `(ci, y, x)` in a `_ × ph × pw` canvas.
pub open spec fn flat3(ph: int, pw: int, ci: int, y: int, x: int) -> int {
    (ci * ph + y) * pw + x
}

/// The source index feeding flat output position `k` of a padded canvas.
pub open spec fn pad_source_flat(h: int, w: int, ph: int, pw: int, k: int) -> int {
    pad_source(h, w, (k / pw) / ph, (k / pw) % ph, k % pw)
}

proof fn lemma_flat3_split(ph: int, pw: int, ci: int, y: int, x: int)
    requires
        ph > 0,
        pw > 0,
        ci >= 0,
        0 <= y < ph,
        0 <= x < pw,
    ensures
        (flat3(ph, pw, ci, y, x) / pw) / ph == ci,
        (flat3(ph, pw, ci, y, x) / pw) % ph == y,
        flat3(ph, pw, ci, y, x) % pw == x,
{
    assert(ci * ph + y >= 0) by (nonlinear_arith)
        requires
            ci >= 0,
            y >= 0,
            ph > 0,
    ;
    lemma_split_index(ci * ph + y, pw, x);
    lemma_split_index(ci, ph, y);
}

proof fn lemma_flat3_bound(c: int, ph: int, pw: int, ci: int, y: int, x: int)
    requires
        0 <= ci < c,
        0 <= y < ph,
        0 <= x < pw,
    ensures
        0 <= flat3(ph, pw, ci, y, x) < c * ph * pw,
{
    lemma_index_bound(ci, c, ph, y);
    lemma_index_bound(ci * ph + y, c * ph, pw, x);
    assert(c * ph * pw == (c * ph) * pw) by (nonlinear_arith);
}

proof fn lemma_pad_source_bound(c: int, h: int, w: int, ph: int, pw: int, ci: int, y: int, x: int)
    requires
        h > 0,
        w > 0,
        0 <= ci < c,
        0 <= y < ph,
        0 <= x < pw,
    ensures
        0 <= ci * h <= ci * h + clamp_coord(y, h),
        ci * h + clamp_coord(y, h) <= (ci * h + clamp_coord(y, h)) * w,
        0 <= pad_source(h, w, ci, y, x) <= pad_source(h, w, c - 1, ph - 1, pw - 1),
{
    let sy = clamp_coord(y, h);
    let sx = clamp_coord(x, w);
    let my = clamp_coord(ph - 1, h);
    let mx = clamp_coord(pw - 1, w);
    lemma_mul_le(0, ci, h);
    lemma_mul_le(ci, c - 1, h);
    assert(ci * h + sy <= (c - 1) * h + my);
    lemma_mul_le(ci * h + sy, (c - 1) * h + my, w);
    assert((ci * h + sy) * 1 <= (ci * h + sy) * w) by (nonlinear_arith)
        requires
            ci * h + sy >= 0,
            w >= 1,
    ;
}

/// `r` is `t` edge-padded (or cut, on an axis that shrinks) to `ph × pw`:
/// unchanged when the size already matches; otherwise `[1, c, ph, pw]` where
/// every pixel copies the nearest source pixel of the same channel.
pub open spec fn padded_from<T>(t: Tensor<T>, ph: int, pw: int, r: Tensor<T>) -> bool {
    let (c, h, w) = (t.shape@[1] as int, t.shape@[2] as int, t.shape@[3] as int);
    if h == ph && w == pw {
        r.shape@ == t.shape@ && r.data@ == t.data@
    } else {
        &&& r.shape@ == seq![1usize, c as usize, ph as usize, pw as usize]
        &&& r.data.len() == c * ph * pw
        &&& forall|ci: int, y: int, x: int|
            0 <= ci < c && 0 <= y < ph && 0 <= x < pw ==> #[trigger] r.data@[flat3(ph, pw, ci, y, x)]
                == t.data@[pad_source(h, w, ci, y, x)]
    }
}

/// `r` is the top-left `oh × ow` region of every channel of `t`: unchanged
/// when the size already matches; otherwise `[1, c, oh, ow]`.
pub open spec fn cropped_from<T>(t: Tensor<T>, oh: int, ow: int, r: Tensor<T>) -> bool {
    let (c, h, w) = (t.shape@[1] as int, t.shape@[2] as int, t.shape@[3] as int);
    if h == oh && w == ow {
        r.shape@ == t.shape@ && r.data@ == t.data@
    } else {
        &&& r.shape@ == seq![1usize, c as usize, oh as usize, ow as usize]
        &&& r.data.len() == c * oh * ow
        &&& forall|ci: int, y: int, x: int|
            0 <= ci < c && 0 <= y < oh && 0 <= x < ow ==> #[trigger] r.data@[flat3(oh, ow, ci, y, x)]
                == t.data@[(ci * h + y) * w + x]
    }
}

/// Edge-replicated padding (or cropping, on an axis that shrinks) of the
/// canvas to `ph × pw`: every output pixel copies the nearest source pixel of
/// the same channel, clamped to the last row / column.
pub fn pad_to<T: Copy>(t: &Tensor<T>, ph: usize, pw: usize) -> (r: Tensor<T>)
    requires
        t.shape.len() >= 4,
        ({
            let (c, h, w) = (t.shape@[1] as int, t.shape@[2] as int, t.shape@[3] as int);
            (h != ph || w != pw) ==> {
                &&& (c > 0 && ph > 0) ==> h > 0
                &&& (c > 0 && ph > 0 && pw > 0) ==> w > 0
                &&& (c > 0 && ph > 0 && pw > 0) ==> pad_source(h, w, c - 1, ph - 1, pw - 1)
                    < t.data.len()
                &&& c * ph * pw <= usize::MAX
            }
        }),
    ensures
        padded_from(*t, ph as int, pw as int, r),
{
    let c = t.shape[1];
    let h = t.shape[2];
    let w = t.shape[3];
    if h == ph && w == pw {
        return copy_tensor(t);
    }
    let ghost (ci_, ph_, pw_) = (c as int, ph as int, pw as int);
    let mut data: Vec<T> = Vec::new();
    let mut ci: usize = 0;
    assert(0 * ph * pw == 0) by (nonlinear_arith);
    while ci < c
        invariant
            t.shape.len() >= 4,
            c == t.shape@[1],
            h == t.shape@[2],
            w == t.shape@[3],
            h != ph || w != pw,
            (c > 0 && ph > 0) ==> h > 0,
            (c > 0 && ph > 0 && pw > 0) ==> w > 0,
            (c > 0 && ph > 0 && pw > 0) ==> pad_source(h as int, w as int, c - 1, ph - 1, pw - 1)
                < t.data.len(),
            c * ph * pw <= usize::MAX,
            ci <= c,
            data.len() == ci * ph * pw,
            forall|k: int|
                0 <= k < data.len() ==> #[trigger] data@[k] == t.data@[pad_source_flat(
                    h as int,
                    w as int,
                    ph as int,
                    pw as int,
                    k,
                )],
        decreases c - ci,
    {
        let mut yy: usize = 0;
        while yy < ph
            invariant
                t.shape.len() >= 4,
                c == t.shape@[1],
                h == t.shape@[2],
                w == t.shape@[3],
                (c > 0 && ph > 0) ==> h > 0,
                (c > 0 && ph > 0 && pw > 0) ==> w > 0,
                (c > 0 && ph > 0 && pw > 0) ==> pad_source(h as int, w as int, c - 1, ph - 1, pw - 1)
                    < t.data.len(),
                c * ph * pw <= usize::MAX,
                ci < c,
                yy <= ph,
                data.len() == (ci * ph + yy) * pw,
                forall|k: int|
                    0 <= k < data.len() ==> #[trigger] data@[k] == t.data@[pad_source_flat(
                        h as int,
                        w as int,
                        ph as int,
                        pw as int,
                        k,
                    )],
            decreases ph - yy,
        {
            let sy = if yy < h {
                yy
            } else {
                h - 1
            };
            let mut xx: usize = 0;
            while xx < pw
                invariant
                    t.shape.len() >= 4,
                    c == t.shape@[1],
                    h == t.shape@[2],
                    w == t.shape@[3],
                    h > 0,
                    (c > 0 && ph > 0 && pw > 0) ==> w > 0,
                    (c > 0 && ph > 0 && pw > 0) ==> pad_source(h as int, w as int, c - 1, ph - 1, pw - 1)
                        < t.data.len(),
                    c * ph * pw <= usize::MAX,
                    ci < c,
                    yy < ph,
                    sy == clamp_coord(yy as int, h as int),
                    xx <= pw,
                    data.len() == (ci * ph + yy) * pw + xx,
                    forall|k: int|
                        0 <= k < data.len() ==> #[trigger] data@[k] == t.data@[pad_source_flat(
                            h as int,
                            w as int,
                            ph as int,
                            pw as int,
                            k,
                        )],
                decreases pw - xx,
            {
                let sx = if xx < w {
                    xx
                } else {
                    w - 1
                };
                proof {
                    lemma_pad_source_bound(
                        c as int,
                        h as int,
                        w as int,
                        ph as int,
                        pw as int,
                        ci as int,
                        yy as int,
                        xx as int,
                    );
                    lemma_flat3_split(ph as int, pw as int, ci as int, yy as int, xx as int);
                    lemma_flat3_bound(c as int, ph as int, pw as int, ci as int, yy as int, xx as int);
                }
                let src = (ci * h + sy) * w + sx;
                let ghost old_data = data@;
                data.push(t.data[src]);
                proof {
                    assert forall|k: int| 0 <= k < data.len() implies #[trigger] data@[k]
                        == t.data@[pad_source_flat(h as int, w as int, ph as int, pw as int, k)] by {
                        if k < old_data.len() {
                            assert(data@[k] == old_data[k]);
                        }
                    }
                }
                xx += 1;
            }
            assert((ci * ph + yy) * pw + pw == (ci * ph + yy + 1) * pw) by (nonlinear_arith);
            yy += 1;
        }
        assert((ci * ph + ph) * pw == (ci + 1) * ph * pw) by (nonlinear_arith);
        assert(ci * ph * pw == (ci * ph + 0) * pw) by (nonlinear_arith);
        ci += 1;
    }
    proof {
        assert forall|ci: int, y: int, x: int|
            0 <= ci < c && 0 <= y < ph && 0 <= x < pw implies #[trigger] data@[flat3(
                ph as int,
                pw as int,
                ci,
                y,
                x,
            )] == t.data@[pad_source(h as int, w as int, ci, y, x)] by {
            lemma_flat3_split(ph as int, pw as int, ci, y, x);
            lemma_flat3_bound(c as int, ph as int, pw as int, ci, y, x);
        }
    }
    Tensor { shape: vec![1, c, ph, pw], data }
}


/// Flat index of window position `(ci, y, x)` in a `c × h × w` canvas whose
/// window starts at row `y0`, column `x0`.
pub open spec fn window_source(h: int, w: int, y0: int, x0: int, ci: int, y: int, x: int) -> int {
    (ci * h + y0 + y) * w + x0 + x
}

/// The source index feeding flat position `k` of a `_ × wh × ww` window.
pub open spec fn window_source_flat(h: int, w: int, y0: int, x0: int, wh: int, ww: int, k: int) -> int {
    window_source(h, w, y0, x0, (k / ww) / wh, (k / ww) % wh, k % ww)
}

/// What reading a `c × wh × ww` window at `(y0, x0)` out of a `c × h × w`
/// canvas needs: the rows it walks fit a machine word and every element it
/// reads lies inside the data.
pub open spec fn window_readable(len: int, c: int, h: int, w: int, y0: int, x0: int, wh: int, ww: int) -> bool {
    (c > 0 && wh > 0 && ww > 0) ==> {
        &&& (c - 1) * h + y0 + wh - 1 <= usize::MAX
        &&& window_source(h, w, y0, x0, c - 1, wh - 1, ww - 1) < len
    }
}

proof fn lemma_window_bound(c: int, h: int, w: int, y0: int, x0: int, wh: int, ww: int, ci: int, y: int, x: int)
    requires
        h >= 0,
        w >= 0,
        y0 >= 0,
        x0 >= 0,
        0 <= ci < c,
        0 <= y < wh,
        0 <= x < ww,
    ensures
        0 <= ci * h <= ci * h + y0 + y <= (c - 1) * h + y0 + wh - 1,
        0 <= (ci * h + y0 + y) * w <= window_source(h, w, y0, x0, ci, y, x),
        window_source(h, w, y0, x0, ci, y, x) <= window_source(h, w, y0, x0, c - 1, wh - 1, ww - 1),
{
    lemma_mul_le(0, ci, h);
    lemma_mul_le(ci, c - 1, h);
    lemma_mul_le(0, ci * h + y0 + y, w);
    lemma_mul_le(ci * h + y0 + y, (c - 1) * h + y0 + wh - 1, w);
}

/// Copy the `c × wh × ww` window at `(y0, x0)` out of a row-major
/// `c × h × w` canvas, channel by channel and row by row.
pub fn extract_window<T: Copy>(
    src: &Vec<T>,
    c: usize,
    h: usize,
    w: usize,
    y0: usize,
    x0: usize,
    wh: usize,
    ww: usize,
) -> (r: Vec<T>)
    requires
        window_readable(src.len() as int, c as int, h as int, w as int, y0 as int, x0 as int, wh as int, ww as int),
        c * wh * ww <= usize::MAX,
    ensures
        r.len() == c * wh * ww,
        forall|ci: int, y: int, x: int|
            0 <= ci < c && 0 <= y < wh && 0 <= x < ww ==> #[trigger] r@[flat3(wh as int, ww as int, ci, y, x)]
                == src@[window_source(h as int, w as int, y0 as int, x0 as int, ci, y, x)],
{
    let mut data: Vec<T> = Vec::new();
    let mut ci: usize = 0;
    assert(0 * wh * ww == 0) by (nonlinear_arith);
    while ci < c
        invariant
            window_readable(src.len() as int, c as int, h as int, w as int, y0 as int, x0 as int, wh as int, ww as int),
            c * wh * ww <= usize::MAX,
            ci <= c,
            data.len() == ci * wh * ww,
            forall|k: int|
                0 <= k < data.len() ==> #[trigger] data@[k] == src@[window_source_flat(
                    h as int, w as int, y0 as int, x0 as int, wh as int, ww as int, k)],
        decreases c - ci,
    {
        let mut yy: usize = 0;
        while yy < wh
            invariant
                window_readable(src.len() as int, c as int, h as int, w as int, y0 as int, x0 as int, wh as int, ww as int),
                c * wh * ww <= usize::MAX,
                ci < c,
                yy <= wh,
                data.len() == (ci * wh + yy) * ww,
                forall|k: int|
                    0 <= k < data.len() ==> #[trigger] data@[k] == src@[window_source_flat(
                        h as int, w as int, y0 as int, x0 as int, wh as int, ww as int, k)],
            decreases wh - yy,
        {
            let mut xx: usize = 0;
            while xx < ww
                invariant
                    window_readable(src.len() as int, c as int, h as int, w as int, y0 as int, x0 as int, wh as int, ww as int),
                    c * wh * ww <= usize::MAX,
                    ci < c,
                    yy < wh,
                    xx <= ww,
                    data.len() == (ci * wh + yy) * ww + xx,
                    forall|k: int|
                        0 <= k < data.len() ==> #[trigger] data@[k] == src@[window_source_flat(
                            h as int, w as int, y0 as int, x0 as int, wh as int, ww as int, k)],
                decreases ww - xx,
            {
                proof {
                    lemma_window_bound(c as int, h as int, w as int, y0 as int, x0 as int, wh as int, ww as int,
                        ci as int, yy as int, xx as int);
                    lemma_flat3_split(wh as int, ww as int, ci as int, yy as int, xx as int);
                }
                let idx = (ci * h + y0 + yy) * w + x0 + xx;
                let ghost old_data = data@;
                data.push(src[idx]);
                proof {
                    assert forall|k: int| 0 <= k < data.len() implies #[trigger] data@[k]
                        == src@[window_source_flat(h as int, w as int, y0 as int, x0 as int, wh as int, ww as int, k)] by {
                        if k < old_data.len() {
                            assert(data@[k] == old_data[k]);
                        }
                    }
                }
                xx += 1;
            }
            assert((ci * wh + yy) * ww + ww == (ci * wh + yy + 1) * ww) by (nonlinear_arith);
            yy += 1;
        }
        assert((ci * wh + wh) * ww == (ci + 1) * wh * ww) by (nonlinear_arith);
        assert(ci * wh * ww == (ci * wh + 0) * ww) by (nonlinear_arith);
        ci += 1;
    }
    proof {
        assert forall|ci: int, y: int, x: int|
            0 <= ci < c && 0 <= y < wh && 0 <= x < ww implies #[trigger] data@[flat3(wh as int, ww as int, ci, y, x)]
                == src@[window_source(h as int, w as int, y0 as int, x0 as int, ci, y, x)] by {
            lemma_flat3_split(wh as int, ww as int, ci, y, x);
            lemma_flat3_bound(c as int, wh as int, ww as int, ci, y, x);
        }
    }
    data
}

/// Crop the canvas to the top-left `oh × ow` region of every channel (drops
/// padded rows and columns).
pub fn crop<T: Copy>(t: &Tensor<T>, oh: usize, ow: usize) -> (r: Tensor<T>)
    requires
        t.shape.len() >= 4,
        ({
            let (c, h, w) = (t.shape@[1] as int, t.shape@[2] as int, t.shape@[3] as int);
            (h != oh || w != ow) ==> {
                &&& window_readable(t.data.len() as int, c, h, w, 0, 0, oh as int, ow as int)
                &&& c * oh * ow <= usize::MAX
            }
        }),
    ensures
        cropped_from(*t, oh as int, ow as int, r),
{
    let c = t.shape[1];
    let h = t.shape[2];
    let w = t.shape[3];
    if h == oh && w == ow {
        return copy_tensor(t);
    }
    let data = extract_window(&t.data, c, h, w, 0, 0, oh, ow);
    Tensor { shape: vec![1, c, oh, ow], data }
}

/// Cropping an edge-padded canvas back to the source size gives the source
/// back: for a `[1, c, h, w]` tensor padded to `ph × pw` (`h ≤ ph`, `w ≤
/// pw`), the crop to `h × w` has the source's shape and elements.
pub proof fn lemma_pad_crop_roundtrip<T>(t: Tensor<T>, ph: usize, pw: usize, padded: Tensor<T>, back: Tensor<T>)
    requires
        t.shape.len() == 4,
        t.shape@[0] == 1,
        t.data.len() == t.shape@[1] * t.shape@[2] * t.shape@[3],
        t.shape@[2] <= ph,
        t.shape@[3] <= pw,
        padded_from(t, ph as int, pw as int, padded),
        cropped_from(padded, t.shape@[2] as int, t.shape@[3] as int, back),
    ensures
        back.shape@ == t.shape@,
        back.data@ == t.data@,
{
    let (c, h, w) = (t.shape@[1] as int, t.shape@[2] as int, t.shape@[3] as int);
    if h == ph && w == pw {
        return;
    }
    assert(padded.shape@[2] == ph && padded.shape@[3] == pw);
    assert(back.shape@ =~= t.shape@);
    assert forall|k: int| 0 <= k < back.data.len() implies #[trigger] back.data@[k] == t.data@[k] by {
        assert(h > 0 && w > 0) by {
            if h == 0 || w == 0 {
                assert(c * h * w == 0) by (nonlinear_arith)
                    requires
                        h == 0 || w == 0,
                ;
            }
        }
        let x = k % w;
        let r = k / w;
        let y = r % h;
        let ci = r / h;
        vstd::arithmetic::div_mod::lemma_fundamental_div_mod(k, w);
        vstd::arithmetic::div_mod::lemma_mod_bound(k, w);
        vstd::arithmetic::div_mod::lemma_div_pos_is_pos(k, w);
        vstd::arithmetic::div_mod::lemma_fundamental_div_mod(r, h);
        vstd::arithmetic::div_mod::lemma_mod_bound(r, h);
        vstd::arithmetic::div_mod::lemma_div_pos_is_pos(r, h);
        assert(k == flat3(h, w, ci, y, x)) by (nonlinear_arith)
            requires
                k == w * r + x,
                r == h * ci + y,
        ;
        assert(ci < c) by (nonlinear_arith)
            requires
                k == flat3(h, w, ci, y, x),
                k < c * h * w,
                0 <= y < h,
                0 <= x < w,
                ci >= 0,
        ;
        assert(back.data@[flat3(h, w, ci, y, x)] == padded.data@[(ci * ph + y) * pw + x]);
        assert((ci * ph + y) * pw + x == flat3(ph as int, pw as int, ci, y, x));
        assert(pad_source(h, w, ci, y, x) == flat3(h, w, ci, y, x));
    }
    assert(back.data@ =~= t.data@);
}

/// Crop a packed rgb24 canvas (`src_w` pixels per row) to its top-left
/// `oh × ow` region.
pub fn crop_rgb24(src: &Vec<u8>, src_w: usize, oh: usize, ow: usize) -> (r: Vec<u8>)
    requires
        oh * (3 * ow) <= usize::MAX,
        window_readable(src.len() as int, 1, 0, 3 * src_w, 0, 0, oh as int, 3 * ow),
    ensures
        r.len() == oh * (3 * ow),
        forall|y: int, k: int|
            0 <= y < oh && 0 <= k < 3 * ow ==> #[trigger] r@[y * (3 * ow) + k] == src@[y * (3 * src_w) + k],
{
    if oh == 0 {
        return Vec::new();
    }
    assert(3 * ow <= usize::MAX) by (nonlinear_arith)
        requires
            oh * (3 * ow) <= usize::MAX,
            oh >= 1,
            ow >= 0,
    ;
    proof {
        if oh > 1 && ow > 0 {
            assert(3 * src_w <= usize::MAX) by (nonlinear_arith)
                requires
                    (oh - 1) * (3 * src_w) + 3 * ow - 1 < src.len(),
                    src.len() <= usize::MAX,
                    oh > 1,
                    ow > 0,
            ;
        }
    }
    let row = if oh > 1 && ow > 0 { 3 * src_w } else { 0 };
    assert(1 * oh * (3 * ow) == oh * (3 * ow)) by (nonlinear_arith);
    let r = extract_window(src, 1, 0, row, 0, 0, oh, 3 * ow);
    proof {
        assert forall|y: int, k: int| 0 <= y < oh && 0 <= k < 3 * ow implies #[trigger] r@[y * (3 * ow) + k]
            == src@[y * (3 * src_w) + k] by {
            assert(flat3(oh as int, 3 * ow, 0, y, k) == y * (3 * ow) + k);
            if oh > 1 {
                assert(ow > 0);
                assert(row == 3 * src_w);
                assert(window_source(0, row as int, 0, 0, 0, y, k) == y * (3 * src_w) + k);
            } else {
                assert(y == 0);
                assert(0 * (3 * src_w) == 0 && 0 * row == 0) by (nonlinear_arith);
                assert(window_source(0, row as int, 0, 0, 0, y, k) == y * (3 * src_w) + k);
            }
        }
    }
    r
}


/// How many full tiles of size `tile` fit along an axis of length `n` when
/// they start at `0, step, 2·step, …` (the grid stops before a partial tile).
pub open spec fn grid_count(n: int, tile: int, step: int) -> int {
    if tile > n {
        0
    } else {
        (n - tile) / step + 1
    }
}

/// The `j`-th grid position fits a full tile exactly when `j` is below the
/// grid count.
pub proof fn lemma_grid_count(n: int, tile: int, step: int, j: int)
    requires
        step > 0,
        tile >= 0,
        n >= 0,
        j >= 0,
    ensures
        j * step + tile <= n <==> j < grid_count(n, tile, step),
        grid_count(n, tile, step) >= 0,
{
    if tile <= n {
        let q = (n - tile) / step;
        let r = (n - tile) % step;
        vstd::arithmetic::div_mod::lemma_fundamental_div_mod(n - tile, step);
        assert(0 <= r < step) by {
            vstd::arithmetic::div_mod::lemma_mod_bound(n - tile, step);
        }
        assert(q >= 0) by {
            vstd::arithmetic::div_mod::lemma_div_pos_is_pos(n - tile, step);
        }
        assert(n - tile == step * q + r);
        if j <= q {
            assert(j * step <= q * step) by (nonlinear_arith)
                requires
                    0 <= j <= q,
                    step > 0,
            ;
        } else {
            assert(j * step >= (q + 1) * step) by (nonlinear_arith)
                requires
                    j >= q + 1,
                    step > 0,
            ;
            assert((q + 1) * step == q * step + step) by (nonlinear_arith);
        }
        assert(step * q == q * step) by (nonlinear_arith);
    } else {
        assert(j * step >= 0) by (nonlinear_arith)
            requires
                j >= 0,
                step > 0,
        ;
    }
}

/// What tiling a `c × h × w` canvas with `tile`-sized tiles at `step`
/// spacing needs: a positive step whenever a tile row exists, no overflow of
/// the positions walked, and every tile inside the data.
pub open spec fn uniform_tile_ok(len: int, c: int, h: int, w: int, tile: int, step: int) -> bool {
    let ny = grid_count(h, tile, step);
    let nx = grid_count(w, tile, step);
    &&& tile <= h ==> step > 0
    &&& tile <= h ==> h + step <= usize::MAX
    &&& tile <= h && tile <= w ==> w + step <= usize::MAX
    &&& c * tile * tile <= usize::MAX
    &&& (ny > 0 && nx > 0) ==> window_readable(len, c, h, w, (ny - 1) * step, (nx - 1) * step, tile, tile)
}

/// The tile at grid cell `(jy, jx)`: its position and its pixels.
pub open spec fn is_grid_tile<T>(
    e: (usize, usize, Tensor<T>),
    src: Seq<T>,
    c: int,
    h: int,
    w: int,
    tile: int,
    step: int,
    jy: int,
    jx: int,
) -> bool {
    &&& e.0 == jx * step
    &&& e.1 == jy * step
    &&& e.2.shape@ == seq![1usize, c as usize, tile as usize, tile as usize]
    &&& e.2.data.len() == c * tile * tile
    &&& forall|ci: int, y: int, x: int|
        0 <= ci < c && 0 <= y < tile && 0 <= x < tile ==> #[trigger] e.2.data@[flat3(tile, tile, ci, y, x)]
            == src[window_source(h, w, jy * step, jx * step, ci, y, x)]
}

proof fn lemma_window_readable_mono(len: int, c: int, h: int, w: int, y0: int, x0: int, y1: int, x1: int, wh: int, ww: int)
    requires
        h >= 0,
        w >= 0,
        0 <= y0 <= y1,
        0 <= x0 <= x1,
        window_readable(len, c, h, w, y1, x1, wh, ww),
    ensures
        window_readable(len, c, h, w, y0, x0, wh, ww),
{
    if c > 0 && wh > 0 && ww > 0 {
        lemma_mul_le((c - 1) * h + y0 + wh - 1, (c - 1) * h + y1 + wh - 1, w);
        assert(0 <= (c - 1) * h) by (nonlinear_arith)
            requires
                c >= 1,
                h >= 0,
        ;
    }
}

/// Tile the canvas with full `tile × tile` tiles at `step` spacing, row by
/// row, stopping before a partial tile would be produced. Each entry is the
/// tile's `(x, y)` position and its pixels.
pub fn uniform_tile<T: Copy>(t: &Tensor<T>, tile: usize, step: usize) -> (r: Vec<(usize, usize, Tensor<T>)>)
    requires
        t.shape.len() >= 4,
        uniform_tile_ok(t.data.len() as int, t.shape@[1] as int, t.shape@[2] as int, t.shape@[3] as int,
            tile as int, step as int),
    ensures
        ({
            let (c, h, w) = (t.shape@[1] as int, t.shape@[2] as int, t.shape@[3] as int);
            let ny = grid_count(h, tile as int, step as int);
            let nx = grid_count(w, tile as int, step as int);
            &&& r.len() == ny * nx
            &&& forall|jy: int, jx: int|
                0 <= jy < ny && 0 <= jx < nx ==> is_grid_tile(
                    #[trigger] r@[jy * nx + jx],
                    t.data@,
                    c,
                    h,
                    w,
                    tile as int,
                    step as int,
                    jy,
                    jx,
                )
        }),
{
    let c = t.shape[1];
    let h = t.shape[2];
    let w = t.shape[3];
    let ghost ny = grid_count(h as int, tile as int, step as int);
    let ghost nx = grid_count(w as int, tile as int, step as int);
    let ghost len = t.data.len() as int;
    let mut tiles: Vec<(usize, usize, Tensor<T>)> = Vec::new();
    let mut y: usize = 0;
    let ghost mut jy: int = 0;
    if tile <= h {
        proof {
            lemma_grid_count(h as int, tile as int, step as int, 0);
        }
    }
    while y + tile <= h
        invariant
            t.shape.len() >= 4,
            c == t.shape@[1],
            h == t.shape@[2],
            w == t.shape@[3],
            len == t.data.len(),
            ny == grid_count(h as int, tile as int, step as int),
            nx == grid_count(w as int, tile as int, step as int),
            uniform_tile_ok(len, c as int, h as int, w as int, tile as int, step as int),
            0 <= jy,
            y == jy * step,
            tile <= h ==> jy <= ny,
            tile > h ==> jy == 0,
            tile <= h ==> y + tile <= h + step,
            tiles.len() == jy * nx,
            forall|a: int, b: int|
                0 <= a < jy && 0 <= b < nx ==> is_grid_tile(
                    #[trigger] tiles@[a * nx + b],
                    t.data@,
                    c as int,
                    h as int,
                    w as int,
                    tile as int,
                    step as int,
                    a,
                    b,
                ),
        decreases h + step - y,
    {
        proof {
            lemma_grid_count(h as int, tile as int, step as int, jy);
        }
        let mut x: usize = 0;
        let ghost mut jx: int = 0;
        if tile <= w {
            proof {
                lemma_grid_count(w as int, tile as int, step as int, 0);
            }
        }
        while x + tile <= w
            invariant
                t.shape.len() >= 4,
                c == t.shape@[1],
                h == t.shape@[2],
                w == t.shape@[3],
                len == t.data.len(),
                ny == grid_count(h as int, tile as int, step as int),
                nx == grid_count(w as int, tile as int, step as int),
                uniform_tile_ok(len, c as int, h as int, w as int, tile as int, step as int),
                tile <= h,
                0 <= jy < ny,
                y == jy * step,
                y + tile <= h,
                0 <= jx,
                x == jx * step,
                tile <= w ==> jx <= nx,
                tile > w ==> jx == 0,
                tile <= w ==> x + tile <= w + step,
                tiles.len() == jy * nx + jx,
                forall|a: int, b: int|
                    0 <= a < jy && 0 <= b < nx ==> is_grid_tile(
                        #[trigger] tiles@[a * nx + b],
                        t.data@,
                        c as int,
                        h as int,
                        w as int,
                        tile as int,
                        step as int,
                        a,
                        b,
                    ),
                forall|b: int|
                    0 <= b < jx ==> is_grid_tile(
                        #[trigger] tiles@[jy * nx + b],
                        t.data@,
                        c as int,
                        h as int,
                        w as int,
                        tile as int,
                        step as int,
                        jy,
                        b,
                    ),
            decreases w + step - x,
        {
            proof {
                lemma_grid_count(w as int, tile as int, step as int, jx);
                lemma_mul_le(jy, ny - 1, step as int);
                lemma_mul_le(jx, nx - 1, step as int);
                lemma_window_readable_mono(len, c as int, h as int, w as int, y as int, x as int,
                    (ny - 1) * step, (nx - 1) * step, tile as int, tile as int);
            }
            let data = extract_window(&t.data, c, h, w, y, x, tile, tile);
            let ghost old_tiles = tiles@;
            tiles.push((x, y, Tensor { shape: vec![1, c, tile, tile], data }));
            proof {
                assert(is_grid_tile(tiles@[jy * nx + jx], t.data@, c as int, h as int, w as int,
                    tile as int, step as int, jy, jx));
                assert forall|a: int, b: int| 0 <= a < jy && 0 <= b < nx implies is_grid_tile(
                    #[trigger] tiles@[a * nx + b], t.data@, c as int, h as int, w as int,
                    tile as int, step as int, a, b) by {
                    lemma_index_bound(a, jy, nx, b);
                    assert(tiles@[a * nx + b] == old_tiles[a * nx + b]);
                }
                assert forall|b: int| 0 <= b < jx + 1 implies is_grid_tile(
                    #[trigger] tiles@[jy * nx + b], t.data@, c as int, h as int, w as int,
                    tile as int, step as int, jy, b) by {
                    if b < jx {
                        assert(tiles@[jy * nx + b] == old_tiles[jy * nx + b]);
                    }
                }
                assert((jx + 1) * step == jx * step + step) by (nonlinear_arith);
            }
            x = x + step;
            proof {
                jx = jx + 1;
            }
        }
        proof {
            if tile <= w {
                lemma_grid_count(w as int, tile as int, step as int, jx);
                assert(jx == nx);
            } else {
                assert(nx == 0);
            }
            assert(tiles.len() == (jy + 1) * nx) by (nonlinear_arith)
                requires
                    tiles.len() == jy * nx + jx,
                    jx == nx,
            ;
            assert forall|a: int, b: int| 0 <= a < jy + 1 && 0 <= b < nx implies is_grid_tile(
                #[trigger] tiles@[a * nx + b], t.data@, c as int, h as int, w as int,
                tile as int, step as int, a, b) by {
                if a == jy {
                    assert(tiles@[a * nx + b] == tiles@[jy * nx + b]);
                }
            }
            assert((jy + 1) * step == jy * step + step) by (nonlinear_arith);
        }
        y = y + step;
        proof {
            jy = jy + 1;
        }
    }
    proof {
        if tile <= h {
            lemma_grid_count(h as int, tile as int, step as int, jy);
            assert(jy == ny);
        } else {
            assert(ny == 0);
            assert(0 * nx == 0) by (nonlinear_arith);
        }
    }
    tiles
}


/// Feather weight, as a numerator over `ov + 1`, at position `i` of a tile
/// edge of length `n`: an edge that borders a neighbour (`low` at the start,
/// `high` at the end) ramps `1, 2, …` across the overlap `ov`; elsewhere the
/// weight is the full `ov + 1`. The `high` ramp wins where both ramps meet.
pub open spec fn feather_num(n: int, low: bool, high: bool, ov: int, i: int) -> int {
    let o = if ov < n { ov } else { n };
    if high && n - 1 - i < o {
        n - i
    } else if low && i < o {
        i + 1
    } else {
        ov + 1
    }
}

/// The feather ramp of a tile edge of length `n` against overlap `ov`, as
/// numerators over the common denominator `ov + 1`.
pub fn feather_numerators(n: usize, low: bool, high: bool, ov: usize) -> (r: Vec<usize>)
    requires
        ov < usize::MAX,
    ensures
        r.len() == n,
        forall|i: int| 0 <= i < n ==> #[trigger] r@[i] == feather_num(n as int, low, high, ov as int, i),
{
    let o = if ov < n { ov } else { n };
    let mut r: Vec<usize> = Vec::new();
    let mut i: usize = 0;
    while i < n
        invariant
            ov < usize::MAX,
            o == (if ov < n { ov } else { n }),
            i <= n,
            r.len() == i,
            forall|k: int| 0 <= k < i ==> #[trigger] r@[k] == feather_num(n as int, low, high, ov as int, k),
        decreases n - i,
    {
        let v = if high && n - 1 - i < o {
            n - i
        } else if low && i < o {
            i + 1
        } else {
            ov + 1
        };
        r.push(v);
        i += 1;
    }
    r
}

/// Feather weight (over `ov + 1`) that tile `j` of a one-axis grid gives
/// position `i`: tiles start at `j · step`, are `tile` long, cover a padded
/// axis of `(count − 1) · step + tile`, and ramp only on edges that border a
/// neighbour. Zero where tile `j` does not cover `i`.
pub open spec fn tile_weight(count: int, tile: int, step: int, j: int, i: int) -> int {
    let start = j * step;
    let padded = (count - 1) * step + tile;
    if start <= i < start + tile {
        feather_num(tile, start > 0, start + tile < padded, tile - step, i - start)
    } else {
        0
    }
}

/// Total feather weight that tiles `0 .. j_end` give position `i`.
pub open spec fn coverage(count: int, tile: int, step: int, j_end: int, i: int) -> int
    decreases j_end,
{
    if j_end <= 0 {
        0
    } else {
        coverage(count, tile, step, j_end - 1, i) + tile_weight(count, tile, step, j_end - 1, i)
    }
}

proof fn lemma_coverage_two(count: int, tile: int, step: int, j_end: int, i: int, jj: int)
    requires
        forall|j: int| 0 <= j < j_end && j != jj && j != jj - 1 ==> tile_weight(count, tile, step, j, i) == 0,
    ensures
        coverage(count, tile, step, j_end, i) == (if 0 <= jj - 1 < j_end {
            tile_weight(count, tile, step, jj - 1, i)
        } else {
            0
        }) + (if 0 <= jj < j_end {
            tile_weight(count, tile, step, jj, i)
        } else {
            0
        }),
    decreases j_end,
{
    if j_end > 0 {
        lemma_coverage_two(count, tile, step, j_end - 1, i, jj);
    }
}

/// Partition of unity: on a uniform tile grid whose overlap `tile − step`
/// is at most `step` (so at most two tiles meet anywhere), the feather weights
/// of the tiles covering any position add up to exactly `ov + 1`, the common
/// denominator — the stitched canvas is an exact weighted average, with no
/// brightness drift at the seams.
pub proof fn lemma_feather_partition_of_unity(count: int, tile: int, step: int, i: int)
    requires
        count >= 1,
        0 < step <= tile,
        tile - step <= step,
        0 <= i < (count - 1) * step + tile,
    ensures
        coverage(count, tile, step, count, i) == tile - step + 1,
{
    let ov = tile - step;
    let padded = (count - 1) * step + tile;
    let q = i / step;
    vstd::arithmetic::div_mod::lemma_fundamental_div_mod(i, step);
    vstd::arithmetic::div_mod::lemma_mod_bound(i, step);
    vstd::arithmetic::div_mod::lemma_div_pos_is_pos(i, step);
    assert(step * q == q * step) by (nonlinear_arith);
    let jj = if q < count - 1 { q } else { count - 1 };
    let o = i - jj * step;
    assert(jj * step <= i) by (nonlinear_arith)
        requires
            0 <= jj <= q,
            q * step <= i,
            step > 0,
    ;
    assert(o < tile) by {
        if q < count - 1 {
            assert(o < step);
        } else {
            assert(jj * step + tile == padded);
        }
    }
    assert(o < step || jj == count - 1);
    // No tile other than `jj` and `jj - 1` covers `i`.
    assert forall|j: int| 0 <= j < count && j != jj && j != jj - 1 implies tile_weight(
        count,
        tile,
        step,
        j,
        i,
    ) == 0 by {
        if j > jj {
            assert(j * step >= (jj + 1) * step) by (nonlinear_arith)
                requires
                    j >= jj + 1,
                    step > 0,
            ;
            assert((jj + 1) * step == jj * step + step) by (nonlinear_arith);
            assert(jj < count - 1);
            assert(i < (jj + 1) * step);
        } else {
            assert(j * step + 2 * step <= jj * step) by (nonlinear_arith)
                requires
                    j + 2 <= jj,
                    step > 0,
            ;
        }
    }
    lemma_coverage_two(count, tile, step, count, i, jj);
    assert((jj - 1) * step == jj * step - step) by (nonlinear_arith);
    assert(jj > 0 ==> jj * step > 0) by (nonlinear_arith)
        requires
            step > 0,
            jj >= 0,
    ;
    assert(jj == 0 ==> jj * step == 0) by (nonlinear_arith);
    if jj < count - 1 {
        assert(jj * step + tile < padded) by (nonlinear_arith)
            requires
                jj < count - 1,
                padded == (count - 1) * step + tile,
                step > 0,
        ;
    }
    if jj > 0 {
        assert(((jj - 1) * step) + tile < padded) by (nonlinear_arith)
            requires
                jj <= count - 1,
                padded == (count - 1) * step + tile,
                step > 0,
        ;
    }
}

} // verus!
