//! Engine-facing decisions of tiled inference: the tile grid, when to tile at
//! all, the batch shape check and the VRAM guard of the fused RGB8 path.

use vstd::prelude::*;
use vstd::string::StringExecFns;

use crate::tensor::Tensor;
use crate::text::{decimal, push_numeral};
use crate::tiling::grid_count;

verus! {

/// What an engine can do.
#[derive(Clone, Copy)]
pub struct EngineCaps {
    pub tiles: bool,
}

/// Per-call inference options.
#[derive(Clone, Copy)]
pub struct InferOptions {
    pub tile_size: Option<u32>,
}

/// Inputs whose pixel count is at most this run as one full-frame pass.
pub const FULL_FRAME_PIXELS: usize = 2073600;

/// Tile size used when neither the settings nor the environment set one.
pub const DEFAULT_TILE_SIZE: usize = 640;

/// Crash-safe ceiling of the fused path's peak allocation (2.5 GiB).
pub const FUSED_PEAK_CEILING: u64 = 2684354560;

/// Share (in percent) of the free VRAM the fused path may claim.
pub const VRAM_THRESHOLD_PCT: u64 = 85;

/// A uniform tile grid over a canvas padded so the grid ends exactly.
#[derive(Clone, Copy)]
pub struct TileGrid {
    pub tile: usize,
    pub overlap: usize,
    pub step: usize,
    pub num_y: usize,
    pub num_x: usize,
    pub ph: usize,
    pub pw: usize,
}

/// `⌈a / b⌉`.
pub open spec fn ceil_div(a: int, b: int) -> int {
    (a + b - 1) / b
}

/// Tiles needed along an axis of length `n`: `⌈max(n − tile, 0) / step⌉ + 1`.
pub open spec fn tiles_along(n: int, tile: int, step: int) -> int {
    ceil_div(if n > tile { n - tile } else { 0 }, step) + 1
}

/// The grid the tiled paths use for an `h × w` input and `tile`-sized tiles:
/// a quarter-tile overlap, and the canvas padded up to the end of the last
/// tile on each axis.
pub open spec fn spec_tile_grid(h: int, w: int, tile: int) -> TileGrid {
    let overlap = tile / 4;
    let step = tile - overlap;
    let num_y = tiles_along(h, tile, step);
    let num_x = tiles_along(w, tile, step);
    TileGrid {
        tile: tile as usize,
        overlap: overlap as usize,
        step: step as usize,
        num_y: num_y as usize,
        num_x: num_x as usize,
        ph: ((num_y - 1) * step + tile) as usize,
        pw: ((num_x - 1) * step + tile) as usize,
    }
}

fn div_ceil(a: usize, b: usize) -> (r: usize)
    requires
        b > 0,
    ensures
        r == ceil_div(a as int, b as int),
        r * b >= a,
        a > 0 ==> (r - 1) * b < a,
        r <= a,
{
    let q = a / b;
    let m = a % b;
    proof {
        vstd::arithmetic::div_mod::lemma_fundamental_div_mod(a as int, b as int);
        vstd::arithmetic::div_mod::lemma_mod_bound(a as int, b as int);
        assert(b * q == q * b) by (nonlinear_arith);
        assert(q * b >= q) by (nonlinear_arith)
            requires
                q >= 0,
                b >= 1,
        ;
        if m != 0 {
            assert(a + b - 1 == (q + 1) * b + (m - 1)) by (nonlinear_arith)
                requires
                    a == q * b + m,
            ;
            vstd::arithmetic::div_mod::lemma_fundamental_div_mod_converse(
                a + b - 1, b as int, q + 1, m - 1);
            assert((q + 1) * b == q * b + b) by (nonlinear_arith);
        } else {
            assert(a + b - 1 == q * b + (b - 1));
            vstd::arithmetic::div_mod::lemma_fundamental_div_mod_converse(
                a + b - 1, b as int, q as int, b - 1);
            if a > 0 {
                assert(q > 0) by (nonlinear_arith)
                    requires
                        a == q * b + m,
                        m == 0,
                        a > 0,
                        q >= 0,
                ;
                assert((q - 1) * b == q * b - b) by (nonlinear_arith);
            }
        }
    }
    if m != 0 {
        q + 1
    } else {
        q
    }
}

/// Compute the tile grid for an `h × w` input (see [`spec_tile_grid`]).
pub fn tile_grid(h: usize, w: usize, tile: usize) -> (g: TileGrid)
    requires
        tile > 0,
        h + tile <= usize::MAX,
        w + tile <= usize::MAX,
    ensures
        g == spec_tile_grid(h as int, w as int, tile as int),
        g.overlap <= g.step,
        g.overlap + g.step == tile,
        g.step > 0,
        g.num_y >= 1,
        g.num_x >= 1,
        g.ph >= h,
        g.pw >= w,
        g.ph >= tile,
        g.pw >= tile,
        g.num_y > 1 ==> g.ph - g.step < h,
        g.num_x > 1 ==> g.pw - g.step < w,
        grid_count(g.ph as int, tile as int, g.step as int) == g.num_y,
        grid_count(g.pw as int, tile as int, g.step as int) == g.num_x,
{
    let overlap = tile / 4;
    let step = tile - overlap;
    let ay = if h > tile { h - tile } else { 0 };
    let ax = if w > tile { w - tile } else { 0 };
    let cy = div_ceil(ay, step);
    let cx = div_ceil(ax, step);
    proof {
        assert(cy * step <= ay + step) by (nonlinear_arith)
            requires
                ay > 0 ==> (cy - 1) * step < ay,
                ay == 0 ==> cy == 0,
                step > 0,
        ;
        assert(cx * step <= ax + step) by (nonlinear_arith)
            requires
                ax > 0 ==> (cx - 1) * step < ax,
                ax == 0 ==> cx == 0,
                step > 0,
        ;
        assert(ay == 0 ==> cy == 0) by {
            if ay == 0 {
                vstd::arithmetic::div_mod::lemma_fundamental_div_mod_converse(
                    step - 1, step as int, 0, step - 1);
            }
        }
        assert(ax == 0 ==> cx == 0) by {
            if ax == 0 {
                vstd::arithmetic::div_mod::lemma_fundamental_div_mod_converse(
                    step - 1, step as int, 0, step - 1);
            }
        }
    }
    let ph = cy * step + tile;
    let pw = cx * step + tile;
    proof {
        // The padded axis holds exactly `cy + 1` grid positions.
        vstd::arithmetic::div_mod::lemma_fundamental_div_mod_converse(
            (cy * step) as int, step as int, cy as int, 0);
        vstd::arithmetic::div_mod::lemma_fundamental_div_mod_converse(
            (cx * step) as int, step as int, cx as int, 0);
        assert((cy + 1 - 1) * step == cy * step);
        assert((cx + 1 - 1) * step == cx * step);
        if cy > 0 {
            assert((cy + 1 - 1) * step + tile - step == (cy - 1) * step + tile) by (nonlinear_arith);
        }
        if cx > 0 {
            assert((cx + 1 - 1) * step + tile - step == (cx - 1) * step + tile) by (nonlinear_arith);
        }
        assert(cy * step >= 0 && cx * step >= 0) by (nonlinear_arith)
            requires
                cy >= 0,
                cx >= 0,
                step >= 0,
        ;
    }
    TileGrid { tile, overlap, step, num_y: cy + 1, num_x: cx + 1, ph, pw }
}

/// How a tiled call runs.
pub enum TilePlan {
    /// One pass over the whole input.
    Whole,
    /// Pad to the grid's canvas, infer tile by tile, stitch, crop back.
    Tiled(TileGrid),
}

/// When tiling happens at all: a tile size is set, the engine tiles, the
/// input exceeds the tile on some axis and is larger than full HD.
pub open spec fn wants_tiling(caps: EngineCaps, opts: InferOptions, h: int, w: int) -> bool {
    match opts.tile_size {
        None => false,
        Some(t) => caps.tiles && !(h <= t && w <= t) && h * w > FULL_FRAME_PIXELS,
    }
}

/// Whether the tiling decision gets as far as the input's area: a tile size
/// is set, the engine tiles and the input exceeds the tile on some axis.
pub open spec fn reaches_area(caps: EngineCaps, opts: InferOptions, h: int, w: int) -> bool {
    match opts.tile_size {
        None => false,
        Some(t) => caps.tiles && !(h <= t && w <= t),
    }
}

/// The inputs on which planning cannot go on: the area overflows a machine
/// word, or tiling is wanted with a zero tile (the grid step would be zero)
/// or with a canvas that would overflow a machine word.
pub open spec fn plan_fails(caps: EngineCaps, opts: InferOptions, h: int, w: int) -> bool {
    &&& reaches_area(caps, opts, h, w)
    &&& {
        ||| h * w > usize::MAX
        ||| h * w > FULL_FRAME_PIXELS && {
            let t = opts.tile_size->0 as int;
            t == 0 || h + t > usize::MAX || w + t > usize::MAX
        }
    }
}


/// full HD, always run whole: no per-tile GPU sync).
pub fn plan_tiled(caps: EngineCaps, opts: InferOptions, h: usize, w: usize) -> (p: TilePlan)
    requires
        reaches_area(caps, opts, h as int, w as int) ==> h * w <= usize::MAX,
        wants_tiling(caps, opts, h as int, w as int) ==> {
            let t = opts.tile_size->0 as int;
            &&& t > 0
            &&& h + t <= usize::MAX
            &&& w + t <= usize::MAX
        },
    ensures
        match p {
            TilePlan::Whole => !wants_tiling(caps, opts, h as int, w as int),
            TilePlan::Tiled(g) => wants_tiling(caps, opts, h as int, w as int) && g == spec_tile_grid(
                h as int,
                w as int,
                opts.tile_size->0 as int,
            ),
        },
{
    let tile_size = match opts.tile_size {
        None => return TilePlan::Whole,
        Some(t) => t,
    };
    if !caps.tiles {
        return TilePlan::Whole;
    }
    let tile = tile_size as usize;
    if h <= tile && w <= tile {
        return TilePlan::Whole;
    }
    if h * w <= FULL_FRAME_PIXELS {
        return TilePlan::Whole;
    }
    TilePlan::Tiled(tile_grid(h, w, tile))
}

/// Plan tiling for any input: `None` exactly on the inputs where planning
/// cannot go on (see `plan_fails`), else the plan of `plan_tiled`.
pub fn try_plan_tiled(caps: EngineCaps, opts: InferOptions, h: usize, w: usize) -> (r: Option<TilePlan>)
    ensures
        r is None <==> plan_fails(caps, opts, h as int, w as int),
        r matches Some(p) ==> match p {
            TilePlan::Whole => !wants_tiling(caps, opts, h as int, w as int),
            TilePlan::Tiled(g) => wants_tiling(caps, opts, h as int, w as int) && g == spec_tile_grid(
                h as int,
                w as int,
                opts.tile_size->0 as int,
            ),
        },
{
    if let Some(t) = opts.tile_size {
        let tile = t as usize;
        if caps.tiles && !(h <= tile && w <= tile) {
            match h.checked_mul(w) {
                None => return None,
                Some(area) => {
                    if area > FULL_FRAME_PIXELS && (tile == 0 || h.checked_add(tile).is_none()
                        || w.checked_add(tile).is_none()) {
                        return None;
                    }
                },
            }
        }
    }
    Some(plan_tiled(caps, opts, h, w))
}

/// `x · pct / 100` with the product saturating at `u64::MAX`.
pub open spec fn saturating_share(x: int, pct: int) -> int {
    if x * pct > u64::MAX {
        u64::MAX as int / 100
    } else {
        x * pct / 100
    }
}

/// The crash-safe cap, or half the GPU's total VRAM when that is tighter.
pub open spec fn spec_fused_peak_limit(total_vram: Option<u64>) -> int {
    match total_vram {
        Some(t) => {
            let half = saturating_share(t as int, 50);
            if half < FUSED_PEAK_CEILING {
                half
            } else {
                FUSED_PEAK_CEILING as int
            }
        },
        None => FUSED_PEAK_CEILING as int,
    }
}

/// Effective fused-path peak ceiling: the crash-safe cap, or half the GPU's
/// total VRAM when that is tighter.
pub fn fused_peak_limit(total_vram: Option<u64>) -> (r: u64)
    ensures
        r == spec_fused_peak_limit(total_vram),
{
    match total_vram {
        Some(t) => {
            let scaled = match t.checked_mul(50) {
                Some(v) => v,
                None => u64::MAX,
            };
            let half = scaled / 100;
            if half < FUSED_PEAK_CEILING {
                half
            } else {
                FUSED_PEAK_CEILING
            }
        },
        None => FUSED_PEAK_CEILING,
    }
}

/// Peak-allocation estimate (bytes) of the fused RGB8 path for `n` frames of
/// `out_h × out_w` with `c` channels: the f16 accumulation canvases plus the
/// f32 rgb24 readback, with a 4× safety factor.
pub open spec fn spec_fused_peak_allocation(n: int, out_h: int, out_w: int, c: int) -> int {
    (n * out_h * out_w * c * 2 + n * out_h * out_w * 3 * 4) * 4
}

/// Compute [`spec_fused_peak_allocation`].
pub fn fused_peak_allocation(n: usize, out_h: usize, out_w: usize, c: usize) -> (r: u64)
    requires
        n * out_h * out_w * c * 2 <= usize::MAX,
        n * out_h * out_w * 3 * 4 <= usize::MAX,
        spec_fused_peak_allocation(n as int, out_h as int, out_w as int, c as int) <= u64::MAX,
    ensures
        r == spec_fused_peak_allocation(n as int, out_h as int, out_w as int, c as int),
{
    proof {
        assert(0 <= n * out_h * out_w && n * out_h * out_w <= n * out_h * out_w * c * 2 + n * out_h
            * out_w * 3 * 4) by (nonlinear_arith)
            requires
                n >= 0,
                out_h >= 0,
                out_w >= 0,
                c >= 0,
        ;
        assert(0 <= n * out_h && n * out_h <= n * out_h * out_w || out_w == 0) by (nonlinear_arith)
            requires
                n >= 0,
                out_h >= 0,
                out_w >= 0,
        ;
        assert(n * out_h * out_w * c <= n * out_h * out_w * c * 2) by (nonlinear_arith)
            requires
                n * out_h * out_w * c >= 0,
        ;
        assert(n * out_h * out_w * c >= 0) by (nonlinear_arith)
            requires
                n >= 0,
                out_h >= 0,
                out_w >= 0,
                c >= 0,
        ;
        assert(n * out_h * out_w * 3 <= n * out_h * out_w * 3 * 4) by (nonlinear_arith)
            requires
                n * out_h * out_w >= 0,
        ;
        if n > 0 && out_h > 0 {
            assert(n * out_h <= n * out_h * out_w || out_w == 0) by (nonlinear_arith)
                requires
                    n > 0,
                    out_h > 0,
                    out_w >= 0,
            ;
        }
        if n * out_h * out_w > 0 {
            assert(n * out_h * out_w <= n * out_h * out_w * c || c == 0) by (nonlinear_arith)
                requires
                    n * out_h * out_w > 0,
                    c >= 0,
            ;
        }
    }
    let hw = if out_w == 0 { 0 } else { n * out_h * out_w };
    assert(hw == n * out_h * out_w) by (nonlinear_arith)
        requires
            out_w == 0 ==> hw == 0,
            out_w != 0 ==> hw == n * out_h * out_w,
    ;
    let canvas = (if c == 0 { 0 } else { hw * c * 2 }) as u64;
    let readback = (hw * 3 * 4) as u64;
    proof {
        assert(c == 0 ==> hw * c * 2 == 0) by (nonlinear_arith);
    }
    (canvas + readback) * 4
}

/// Outcome of the fused path's VRAM guard.
pub enum FusedGuard {
    /// The estimate fits; proceed.
    Fits,
    /// The estimate exceeds the effective peak ceiling.
    OverLimit { expected: u64, limit: u64 },
    /// The estimate exceeds the allowed share of the currently free VRAM.
    OverFree { expected: u64, free: u64 },
}

/// Bytes per mebibyte, for the guard's messages.
pub const MIB: u64 = 1048576;

/// The message of a guard rejection (`None` when the estimate fits), sizes
/// in whole MiB rounded down.
pub open spec fn guard_message(g: FusedGuard) -> Option<Seq<char>> {
    match g {
        FusedGuard::Fits => None,
        FusedGuard::OverLimit { expected, limit } => Some(
            "fused RGB8 path needs ~"@ + decimal((expected / MIB) as nat) + " MB peak (limit ~"@
                + decimal((limit / MIB) as nat)
                + " MB) \u{2014} use a lower scale (e.g. x2) or smaller resolution"@,
        ),
        FusedGuard::OverFree { expected, free } => Some(
            "fused RGB8 path needs ~"@ + decimal((expected / MIB) as nat) + " MB VRAM ("@ + decimal(
                (free / MIB) as nat,
            ) + " MB free) \u{2014} close GPU apps or lower scale/resolution"@,
        ),
    }
}

impl FusedGuard {
    /// The error message of a rejection; `None` when the estimate fits.
    pub fn message(&self) -> (r: Option<String>)
        ensures
            match r {
                Some(m) => guard_message(*self) == Some(m@),
                None => guard_message(*self) is None,
            },
    {
        match self {
            FusedGuard::Fits => None,
            FusedGuard::OverLimit { expected, limit } => {
                let mut m = String::from_str("fused RGB8 path needs ~");
                push_numeral(&mut m, *expected / MIB, 10);
                m.append(" MB peak (limit ~");
                push_numeral(&mut m, *limit / MIB, 10);
                m.append(" MB) \u{2014} use a lower scale (e.g. x2) or smaller resolution");
                Some(m)
            },
            FusedGuard::OverFree { expected, free } => {
                let mut m = String::from_str("fused RGB8 path needs ~");
                push_numeral(&mut m, *expected / MIB, 10);
                m.append(" MB VRAM (");
                push_numeral(&mut m, *free / MIB, 10);
                m.append(" MB free) \u{2014} close GPU apps or lower scale/resolution");
                Some(m)
            },
        }
    }
}

/// The fused path's VRAM guard: reject an `expected` peak above the ceiling
/// for the GPU's total VRAM, then one above 85 % of the free VRAM (when the
/// free amount is known).
pub fn fused_vram_guard(expected: u64, total_vram: Option<u64>, free_vram: Option<u64>) -> (g: FusedGuard)
    ensures
        ({
            let limit = spec_fused_peak_limit(total_vram);
            if expected > limit {
                g == (FusedGuard::OverLimit { expected, limit: limit as u64 })
            } else {
                match free_vram {
                    Some(f) => if expected > saturating_share(f as int, VRAM_THRESHOLD_PCT as int) {
                        g == (FusedGuard::OverFree { expected, free: f })
                    } else {
                        g == FusedGuard::Fits
                    },
                    None => g == FusedGuard::Fits,
                }
            }
        }),
{
    let limit = fused_peak_limit(total_vram);
    if expected > limit {
        return FusedGuard::OverLimit { expected, limit };
    }
    match free_vram {
        Some(free) => {
            let scaled = match free.checked_mul(VRAM_THRESHOLD_PCT) {
                Some(v) => v,
                None => u64::MAX,
            };
            if expected > scaled / 100 {
                FusedGuard::OverFree { expected, free }
            } else {
                FusedGuard::Fits
            }
        },
        None => FusedGuard::Fits,
    }
}

/// The fused path's tile size: the settings override when set (non-zero),
/// else the environment's value when it parses, else 640.
pub fn resolve_tile_size(override_px: u32, env_px: Option<usize>) -> (r: usize)
    ensures
        r == (if override_px > 0 {
            override_px as usize
        } else {
            match env_px {
                Some(v) => v,
                None => DEFAULT_TILE_SIZE,
            }
        }),
{
    if override_px > 0 {
        override_px as usize
    } else {
        match env_px {
            Some(v) => v,
            None => DEFAULT_TILE_SIZE,
        }
    }
}

/// Round an axis up to even (pixel-shuffle ×2 needs even sizes).
pub fn even_pad(n: usize) -> (r: usize)
    requires
        n < usize::MAX,
    ensures
        r == (if n % 2 == 1 { n + 1 } else { n as int }),
{
    proof {
        assert(n & 1 == n % 2) by (bit_vector);
    }
    n + (n & 1)
}

/// Why a batch cannot take the fused path.
pub enum BatchError {
    /// No frames at all.
    Empty,
    /// The first input is not four-dimensional.
    NotNchw,
    /// The inputs do not share channel count and spatial size.
    Mismatch,
}

impl BatchError {
    /// The error message.
    pub fn message(&self) -> (r: &'static str)
        ensures
            r == match *self {
                BatchError::Empty => "empty batch",
                BatchError::NotNchw => "expected NCHW input",
                BatchError::Mismatch => "batch inputs must share NCHW dims",
            },
    {
        match self {
            BatchError::Empty => "empty batch",
            BatchError::NotNchw => "expected NCHW input",
            BatchError::Mismatch => "batch inputs must share NCHW dims",
        }
    }
}

/// The common `(c, h, w)` of a batch: every input is NCHW with the first
/// input's channel count, height and width.
pub fn batch_dims<T>(inputs: &Vec<Tensor<T>>) -> (r: Result<(usize, usize, usize), BatchError>)
    requires
        inputs.len() > 0 ==> inputs@[0].shape.len() >= 4,
    ensures
        inputs.len() == 0 ==> r is Err && r->Err_0 == BatchError::Empty,
        inputs.len() > 0 ==> ({
            let s0 = inputs@[0].shape@;
            let all_match = forall|i: int|
                0 <= i < inputs.len() ==> {
                    let s = #[trigger] inputs@[i].shape@;
                    s.len() == 4 && s[1] == s0[1] && s[2] == s0[2] && s[3] == s0[3]
                };
            if s0.len() != 4 {
                r is Err && r->Err_0 == BatchError::NotNchw
            } else if !all_match {
                r is Err && r->Err_0 == BatchError::Mismatch
            } else {
                r == Ok::<(usize, usize, usize), BatchError>((s0[1], s0[2], s0[3]))
            }
        }),
{
    if inputs.len() == 0 {
        return Err(BatchError::Empty);
    }
    let c = inputs[0].shape[1];
    let h = inputs[0].shape[2];
    let w = inputs[0].shape[3];
    if inputs[0].shape.len() != 4 {
        return Err(BatchError::NotNchw);
    }
    let mut i: usize = 0;
    while i < inputs.len()
        invariant
            0 < inputs.len(),
            inputs@[0].shape.len() == 4,
            c == inputs@[0].shape@[1],
            h == inputs@[0].shape@[2],
            w == inputs@[0].shape@[3],
            i <= inputs.len(),
            forall|k: int|
                0 <= k < i ==> {
                    let s = #[trigger] inputs@[k].shape@;
                    s.len() == 4 && s[1] == c && s[2] == h && s[3] == w
                },
        decreases inputs.len() - i,
    {
        let s = &inputs[i].shape;
        if s.len() != 4 || s[1] != c || s[2] != h || s[3] != w {
            return Err(BatchError::Mismatch);
        }
        i += 1;
    }
    Ok((c, h, w))
}


/// Tiles inferred per engine call on the tiled path.
pub const TILE_BATCH: usize = 4;

/// The elements of tiles `start..end`, one tile after the other.
pub open spec fn concat_data<T>(tiles: Seq<(usize, usize, Tensor<T>)>, start: int, end: int) -> Seq<T>
    decreases end - start,
{
    if end <= start {
        Seq::empty()
    } else {
        concat_data(tiles, start, end - 1) + tiles[end - 1].2.data@
    }
}

/// One engine batch of tiles `start..end`: shape `[n, c, tile, tile]` and
/// the tiles' elements one after the other.
pub fn batch_of_tiles<T: Copy>(
    tiles: &Vec<(usize, usize, Tensor<T>)>,
    start: usize,
    end: usize,
    c: usize,
    tile: usize,
) -> (r: Tensor<T>)
    requires
        start <= end <= tiles.len(),
    ensures
        r.shape@ == seq![(end - start) as usize, c, tile, tile],
        r.data@ == concat_data(tiles@, start as int, end as int),
{
    let mut data: Vec<T> = Vec::new();
    let mut i = start;
    while i < end
        invariant
            start <= i <= end <= tiles.len(),
            data@ == concat_data(tiles@, start as int, i as int),
        decreases end - i,
    {
        let t = &tiles[i].2.data;
        let mut j: usize = 0;
        while j < t.len()
            invariant
                start <= i < end <= tiles.len(),
                *t == tiles@[i as int].2.data,
                j <= t.len(),
                data@ == concat_data(tiles@, start as int, i as int) + t@.take(j as int),
            decreases t.len() - j,
        {
            data.push(t[j]);
            j += 1;
            proof {
                assert(t@.take(j as int) =~= t@.take(j - 1).push(t@[j - 1]));
            }
        }
        proof {
            assert(t@.take(t.len() as int) =~= t@);
        }
        i += 1;
    }
    let mut shape: Vec<usize> = Vec::new();
    shape.push(end - start);
    shape.push(c);
    shape.push(tile);
    shape.push(tile);
    proof {
        assert(shape@ =~= seq![(end - start) as usize, c, tile, tile]);
    }
    Tensor { shape, data }
}

/// `r` is engine batch `out` split back into the tiles `start..end` it was
/// made of: tile `i` is `[1, oc, oh, ow]`, holds the `i`-th run of
/// `oc · oh · ow` elements, and sits at the origin of input tile `start + i`.
pub open spec fn split_of<T>(
    out: Tensor<T>,
    tiles: Seq<(usize, usize, Tensor<T>)>,
    start: int,
    end: int,
    r: Seq<(usize, usize, Tensor<T>)>,
) -> bool {
    &&& r.len() == end - start
    &&& forall|i: int|
        0 <= i < end - start ==> {
            let per = out.shape@[1] * out.shape@[2] * out.shape@[3];
            &&& (#[trigger] r[i]).0 == tiles[start + i].0
            &&& r[i].1 == tiles[start + i].1
            &&& r[i].2.shape@ == seq![1usize, out.shape@[1], out.shape@[2], out.shape@[3]]
            &&& r[i].2.data@ == out.data@.subrange(i * per, (i + 1) * per)
        }
}

/// Split an engine batch `[n, oc, oh, ow]` back into its `n` tiles, each
/// `[1, oc, oh, ow]` at the origin of the input tile it came from.
pub fn split_batch<T: Copy>(
    out: &Tensor<T>,
    tiles: &Vec<(usize, usize, Tensor<T>)>,
    start: usize,
    end: usize,
) -> (r: Vec<(usize, usize, Tensor<T>)>)
    requires
        start <= end <= tiles.len(),
        out.shape.len() >= 4,
        (end - start) * (out.shape@[1] * out.shape@[2] * out.shape@[3]) <= out.data.len(),
    ensures
        split_of(*out, tiles@, start as int, end as int, r@),
{
    let oc = out.shape[1];
    let oh = out.shape[2];
    let ow = out.shape[3];
    let n = end - start;
    proof {
        if n > 0 {
            assert(oc * oh * ow <= n * (oc * oh * ow)) by (nonlinear_arith)
                requires
                    n >= 1,
            ;
        } else {
            assert(0 <= oc * oh * ow) by (nonlinear_arith);
        }
    }
    let ghost per_g: int = oc * oh * ow;
    let mut r: Vec<(usize, usize, Tensor<T>)> = Vec::new();
    let mut i: usize = 0;
    while i < n
        invariant
            start <= end <= tiles.len(),
            n == end - start,
            out.shape.len() >= 4,
            oc == out.shape@[1],
            oh == out.shape@[2],
            ow == out.shape@[3],
            per_g == oc * oh * ow,
            n * per_g <= out.data.len(),
            i <= n,
            r.len() == i,
            forall|k: int|
                0 <= k < i ==> {
                    &&& (#[trigger] r@[k]).0 == tiles@[start + k].0
                    &&& r@[k].1 == tiles@[start + k].1
                    &&& r@[k].2.shape@ == seq![1usize, oc, oh, ow]
                    &&& r@[k].2.data@ == out.data@.subrange(k * per_g, (k + 1) * per_g)
                },
        decreases n - i,
    {
        proof {
            assert((i + 1) * per_g <= n * per_g) by (nonlinear_arith)
                requires
                    i + 1 <= n,
                    0 <= per_g,
            ;
            assert(i * per_g + per_g == (i + 1) * per_g) by (nonlinear_arith);
        }
        let per = if oc == 0 || oh == 0 || ow == 0 {
            0
        } else {
            proof {
                assert(oc * oh <= oc * oh * ow) by (nonlinear_arith)
                    requires
                        ow >= 1,
                        oc * oh >= 0,
                ;
                assert(per_g <= n * per_g) by (nonlinear_arith)
                    requires
                        n >= 1,
                        per_g >= 0,
                ;
            }
            oc * oh * ow
        };
        proof {
            if oc == 0 || oh == 0 || ow == 0 {
                assert(per_g == 0) by (nonlinear_arith)
                    requires
                        per_g == oc * oh * ow,
                        oc == 0 || oh == 0 || ow == 0,
                ;
            }
        }
        let s = i * per;
        let mut data: Vec<T> = Vec::new();
        let mut j: usize = 0;
        while j < per
            invariant
                per == per_g,
                s == i * per_g,
                s + per <= out.data.len(),
                j <= per,
                data@ == out.data@.subrange(s as int, s + j),
            decreases per - j,
        {
            data.push(out.data[s + j]);
            j += 1;
            proof {
                assert(data@ =~= out.data@.subrange(s as int, s + j));
            }
        }
        let mut shape: Vec<usize> = Vec::new();
        shape.push(1);
        shape.push(oc);
        shape.push(oh);
        shape.push(ow);
        proof {
            assert(shape@ =~= seq![1usize, oc, oh, ow]);
        }
        let x = tiles[start + i].0;
        let y = tiles[start + i].1;
        r.push((x, y, Tensor { shape, data }));
        i += 1;
    }
    r
}

proof fn lemma_concat_data<T>(tiles: Seq<(usize, usize, Tensor<T>)>, start: int, k: int, per: int)
    requires
        0 <= start <= k <= tiles.len(),
        per >= 0,
        forall|j: int| start <= j < k ==> (#[trigger] tiles[j]).2.data.len() == per,
    ensures
        concat_data(tiles, start, k).len() == (k - start) * per,
    decreases k - start,
{
    if k > start {
        lemma_concat_data(tiles, start, k - 1, per);
        assert((k - 1 - start) * per + per == (k - start) * per) by (nonlinear_arith);
    } else {
        assert(0 * per == 0) by (nonlinear_arith);
    }
}

proof fn lemma_concat_prefix<T>(tiles: Seq<(usize, usize, Tensor<T>)>, start: int, k: int, m: int)
    requires
        0 <= start <= k <= m <= tiles.len(),
    ensures
        concat_data(tiles, start, k).len() <= concat_data(tiles, start, m).len(),
        concat_data(tiles, start, m).subrange(0, concat_data(tiles, start, k).len() as int) == concat_data(
            tiles,
            start,
            k,
        ),
    decreases m - k,
{
    if m > k {
        lemma_concat_prefix(tiles, start, k, m - 1);
        let a = concat_data(tiles, start, m - 1);
        let b = tiles[m - 1].2.data@;
        assert((a + b).subrange(0, concat_data(tiles, start, k).len() as int) =~= a.subrange(
            0,
            concat_data(tiles, start, k).len() as int,
        ));
    } else {
        assert(concat_data(tiles, start, m).subrange(0, concat_data(tiles, start, m).len() as int)
            =~= concat_data(tiles, start, m));
    }
}

/// Batching is transparent: a batch made of tiles `start..end` (each
/// `[1, c, tile, tile]` with `c · tile · tile` elements), split back as the
/// output of an engine that hands its input back, gives exactly those tiles
/// at their origins, so the batched tiled path matches tile-by-tile calls.
pub proof fn lemma_batch_split_roundtrip<T>(
    tiles: Seq<(usize, usize, Tensor<T>)>,
    start: usize,
    end: usize,
    c: usize,
    tile: usize,
    batch: Tensor<T>,
    back: Seq<(usize, usize, Tensor<T>)>,
)
    requires
        0 <= start <= end <= tiles.len(),
        forall|j: int|
            start <= j < end ==> (#[trigger] tiles[j]).2.shape@ == seq![1usize, c, tile, tile]
                && tiles[j].2.data.len() == c * tile * tile,
        batch.shape@ == seq![(end - start) as usize, c, tile, tile],
        batch.data@ == concat_data(tiles, start as int, end as int),
        split_of(batch, tiles, start as int, end as int, back),
    ensures
        back.len() == end - start,
        forall|i: int|
            0 <= i < end - start ==> (#[trigger] back[i]).0 == tiles[start + i].0 && back[i].1 == tiles[start
                + i].1 && back[i].2.shape@ == tiles[start + i].2.shape@ && back[i].2.data@ == tiles[start
                + i].2.data@,
{
    let per = c * tile * tile;
    assert(c * tile * tile >= 0) by (nonlinear_arith);
    assert forall|i: int| 0 <= i < end - start implies (#[trigger] back[i]).0 == tiles[start + i].0 && back[i].1
        == tiles[start + i].1 && back[i].2.shape@ == tiles[start + i].2.shape@ && back[i].2.data@ == tiles[start
        + i].2.data@ by {
        assert(batch.shape@[1] * batch.shape@[2] * batch.shape@[3] == per);
        let k = start + i;
        lemma_concat_data(tiles, start as int, k, per);
        lemma_concat_data(tiles, start as int, k + 1, per);
        lemma_concat_prefix(tiles, start as int, k + 1, end as int);
        assert(i * per + per == (i + 1) * per) by (nonlinear_arith);
        let whole = concat_data(tiles, start as int, end as int);
        let upto = concat_data(tiles, start as int, k + 1);
        assert(upto == concat_data(tiles, start as int, k) + tiles[k].2.data@);
        assert(whole.subrange(i * per, (i + 1) * per) =~= tiles[k].2.data@) by {
            assert forall|j: int| 0 <= j < per implies whole.subrange(i * per, (i + 1) * per)[j]
                == tiles[k].2.data@[j] by {
                assert(whole.subrange(0, upto.len() as int)[i * per + j] == upto[i * per + j]);
            }
        }
    }
}

} // verus!
