use senmei::engine::{
    batch_dims, batch_of_tiles, even_pad, fused_peak_allocation, fused_peak_limit, fused_vram_guard,
    plan_tiled, resolve_tile_size, split_batch, tile_grid, try_plan_tiled, BatchError, FusedGuard, TilePlan,
    FUSED_PEAK_CEILING, TILE_BATCH,
};
use senmei::{pad_to, uniform_tile, EngineCaps, InferOptions, Tensor};

#[test]
fn fused_vram_guard_window() {
    const LIMIT: u64 = (2 * 1024 + 512) * 1024 * 1024;
    assert!(fused_peak_allocation(1, 5120, 8320, 3) > LIMIT);
    assert!(fused_peak_allocation(1, 4480, 8320, 3) <= LIMIT);
    assert!(fused_peak_allocation(1, 4480, 6400, 3) <= LIMIT);
    assert!(fused_peak_allocation(1, 2880, 5120, 3) <= LIMIT);
    assert!(fused_peak_allocation(1, 2240, 4160, 3) <= LIMIT);
    assert_eq!(fused_peak_limit(None), LIMIT);
    assert_eq!(fused_peak_limit(Some(16 * 1024 * 1024 * 1024)), LIMIT);
    assert_eq!(
        fused_peak_limit(Some(4 * 1024 * 1024 * 1024)),
        2 * 1024 * 1024 * 1024
    );
}

#[test]
fn peak_allocation_formula() {
    // (n·h·w·c·2 + n·h·w·3·4) · 4
    assert_eq!(fused_peak_allocation(2, 10, 20, 3), (2 * 10 * 20 * 3 * 2 + 2 * 10 * 20 * 12) * 4);
    assert_eq!(FUSED_PEAK_CEILING, 2684354560);
}

#[test]
fn vram_guard_checks_limit_then_free_share() {
    let gib = 1024 * 1024 * 1024u64;
    match fused_vram_guard(3 * gib, None, Some(100 * gib)) {
        FusedGuard::OverLimit { expected, limit } => {
            assert_eq!(expected, 3 * gib);
            assert_eq!(limit, FUSED_PEAK_CEILING);
        }
        _ => panic!("expected over-limit"),
    }
    match fused_vram_guard(gib, Some(16 * gib), Some(gib)) {
        FusedGuard::OverFree { expected, free } => {
            assert_eq!((expected, free), (gib, gib));
        }
        _ => panic!("expected over-free"),
    }
    assert!(matches!(fused_vram_guard(gib, Some(16 * gib), Some(2 * gib)), FusedGuard::Fits));
    assert!(matches!(fused_vram_guard(gib, None, None), FusedGuard::Fits));
}

#[test]
fn vram_guard_messages() {
    let mib = 1024 * 1024u64;
    let g = FusedGuard::OverLimit { expected: 3000 * mib + 5, limit: 2560 * mib };
    assert_eq!(
        g.message().unwrap(),
        "fused RGB8 path needs ~3000 MB peak (limit ~2560 MB) \u{2014} use a lower scale (e.g. x2) or smaller resolution"
    );
    let g = FusedGuard::OverFree { expected: 900 * mib, free: 1000 * mib };
    assert_eq!(
        g.message().unwrap(),
        "fused RGB8 path needs ~900 MB VRAM (1000 MB free) \u{2014} close GPU apps or lower scale/resolution"
    );
    assert!(FusedGuard::Fits.message().is_none());
}

#[test]
fn small_input_plans_single_pass() {
    let caps = EngineCaps { tiles: true };
    assert!(matches!(plan_tiled(caps, InferOptions { tile_size: Some(16) }, 8, 8), TilePlan::Whole));
    assert!(matches!(plan_tiled(caps, InferOptions { tile_size: None }, 4000, 4000), TilePlan::Whole));
    let no_tiles = EngineCaps { tiles: false };
    assert!(matches!(plan_tiled(no_tiles, InferOptions { tile_size: Some(8) }, 4000, 4000), TilePlan::Whole));
}

#[test]
fn hd_input_plans_single_pass() {
    let caps = EngineCaps { tiles: true };
    assert!(matches!(plan_tiled(caps, InferOptions { tile_size: Some(512) }, 720, 1280), TilePlan::Whole));
    assert!(matches!(plan_tiled(caps, InferOptions { tile_size: Some(512) }, 1080, 1920), TilePlan::Whole));
}

#[test]
fn large_input_plans_batched_grid() {
    let caps = EngineCaps { tiles: true };
    match plan_tiled(caps, InferOptions { tile_size: Some(512) }, 1080, 2048) {
        TilePlan::Tiled(g) => {
            assert_eq!((g.tile, g.overlap, g.step), (512, 128, 384));
            assert_eq!((g.num_y, g.num_x), (3, 5));
            assert_eq!((g.ph, g.pw), (1280, 2048));
            // 15 tiles in batches of 4 → 4 engine calls.
            assert_eq!((g.num_y * g.num_x).div_ceil(TILE_BATCH), 4);
        }
        TilePlan::Whole => panic!("expected tiling"),
    }
}

#[test]
fn tile_grid_small_input_is_one_tile() {
    let g = tile_grid(100, 50, 640);
    assert_eq!((g.num_y, g.num_x, g.ph, g.pw), (1, 1, 640, 640));
}

#[test]
fn batches_split_back_into_tiles() {
    let data: Vec<u16> = (0..2 * 6 * 6).collect();
    let t = Tensor::new(vec![1, 2, 6, 6], data);
    let padded = pad_to(&t, 6, 6);
    let tiles = uniform_tile(&padded, 4, 2);
    assert_eq!(tiles.len(), 4);
    let batch = batch_of_tiles(&tiles, 1, 4, 2, 4);
    assert_eq!(batch.shape, vec![3, 2, 4, 4]);
    let mut expected = Vec::new();
    for (_, _, tt) in &tiles[1..4] {
        expected.extend_from_slice(&tt.data);
    }
    assert_eq!(batch.data, expected);
    let back = split_batch(&batch, &tiles, 1, 4);
    assert_eq!(back.len(), 3);
    for (i, (x, y, tt)) in back.iter().enumerate() {
        assert_eq!((*x, *y), (tiles[1 + i].0, tiles[1 + i].1));
        assert_eq!(tt.shape, vec![1, 2, 4, 4]);
        assert_eq!(tt.data, tiles[1 + i].2.data);
    }
}

#[test]
fn batch_dims_checks_shapes() {
    let a: Tensor<f32> = Tensor::new(vec![1, 3, 4, 4], vec![0.0; 48]);
    let b: Tensor<f32> = Tensor::new(vec![1, 3, 4, 4], vec![0.0; 48]);
    let c: Tensor<f32> = Tensor::new(vec![1, 3, 4, 5], vec![0.0; 60]);
    assert!(matches!(batch_dims(&vec![a, b]), Ok((3, 4, 4))));
    let a: Tensor<f32> = Tensor::new(vec![1, 3, 4, 4], vec![0.0; 48]);
    let r = batch_dims(&vec![a, c]);
    assert!(matches!(r, Err(BatchError::Mismatch)));
    let empty: Vec<Tensor<f32>> = Vec::new();
    assert!(matches!(batch_dims(&empty), Err(BatchError::Empty)));
    let five: Tensor<f32> = Tensor::new(vec![1, 3, 4, 4, 1], vec![0.0; 48]);
    assert!(matches!(batch_dims(&vec![five]), Err(BatchError::NotNchw)));
    assert_eq!(BatchError::Mismatch.message(), "batch inputs must share NCHW dims");
    assert_eq!(BatchError::Empty.message(), "empty batch");
}

#[test]
fn tile_size_resolution_order() {
    assert_eq!(resolve_tile_size(256, Some(800)), 256);
    assert_eq!(resolve_tile_size(0, Some(800)), 800);
    assert_eq!(resolve_tile_size(0, None), 640);
}

#[test]
fn even_pad_rounds_up_odd() {
    assert_eq!(even_pad(7), 8);
    assert_eq!(even_pad(8), 8);
    assert_eq!(even_pad(0), 0);
}

#[test]
fn try_plan_tiled_refuses_what_cannot_be_planned() {
    let caps = EngineCaps { tiles: true };
    let tiled = InferOptions { tile_size: Some(512) };
    // Small input: whole frame.
    assert!(matches!(try_plan_tiled(caps, tiled, 720, 1280), Some(TilePlan::Whole)));
    // Large input: the same plan as `plan_tiled`.
    match (try_plan_tiled(caps, tiled, 2160, 3840), plan_tiled(caps, tiled, 2160, 3840)) {
        (Some(TilePlan::Tiled(a)), TilePlan::Tiled(b)) => {
            assert_eq!((a.tile, a.step, a.overlap, a.num_y, a.num_x, a.ph, a.pw), (b.tile, b.step, b.overlap, b.num_y, b.num_x, b.ph, b.pw));
            assert_eq!((a.ph, a.pw), (2432, 3968));
        }
        _ => panic!("expected a tiled plan"),
    }
    // A zero tile on a large input cannot be stepped.
    assert!(try_plan_tiled(caps, InferOptions { tile_size: Some(0) }, 2160, 3840).is_none());
    // A zero tile on an empty input never reaches the grid.
    assert!(matches!(try_plan_tiled(caps, InferOptions { tile_size: Some(0) }, 0, 0), Some(TilePlan::Whole)));
    // The area overflows a machine word.
    assert!(try_plan_tiled(caps, tiled, usize::MAX, 2).is_none());
    // Without a tile size or tiling support the area is never taken.
    assert!(matches!(try_plan_tiled(caps, InferOptions { tile_size: None }, usize::MAX, 2), Some(TilePlan::Whole)));
    let no_tiles = EngineCaps { tiles: false };
    assert!(matches!(try_plan_tiled(no_tiles, tiled, usize::MAX, 2), Some(TilePlan::Whole)));
}
