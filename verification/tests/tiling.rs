use senmei::tiling::feather_numerators;
use senmei::{crop, crop_rgb24, pad_to, uniform_tile, Tensor};

fn tensor(h: usize, w: usize) -> Tensor<f32> {
    let mut data = vec![0f32; 3 * h * w];
    for i in 0..data.len() {
        data[i] = i as f32;
    }
    Tensor::new(vec![1, 3, h, w], data)
}

#[test]
fn pad_crop_roundtrip() {
    let t = tensor(6, 6);
    let p = pad_to(&t, 8, 8);
    assert_eq!(p.shape, vec![1, 3, 8, 8]);
    let c = crop(&p, 6, 6);
    assert_eq!(c.shape, vec![1, 3, 6, 6]);
    assert_eq!(c.data, t.data);
}

#[test]
fn pad_edge_replicates() {
    let t = tensor(2, 2);
    let p = pad_to(&t, 3, 3);
    assert_eq!(p.data[2 * 9 + 8], t.data[2 * 4 + 3]);
}

/// The feather ramp of the fused path, as weights in [0, 1].
fn feather(n: usize, low: bool, high: bool, ov: usize) -> Vec<f32> {
    feather_numerators(n, low, high, ov)
        .iter()
        .map(|&k| k as f32 / (ov as f32 + 1.0))
        .collect()
}

#[test]
fn feather_is_partition_of_unity() {
    let tile = 16usize;
    let overlap = tile / 4;
    let step = tile - overlap;
    let h = 40usize;
    let w = 52usize;
    let num_y = (h.saturating_sub(tile)).div_ceil(step) + 1;
    let num_x = (w.saturating_sub(tile)).div_ceil(step) + 1;
    let ph = (num_y - 1) * step + tile;
    let pw = (num_x - 1) * step + tile;
    let ov = overlap;
    let mut cov = vec![0f32; ph * pw];
    let mut ty = 0;
    while ty + tile <= ph {
        let mut tx = 0;
        while tx + tile <= pw {
            let wy = feather(tile, ty > 0, ty + tile < ph, ov);
            let wx = feather(tile, tx > 0, tx + tile < pw, ov);
            for yy in 0..tile {
                for xx in 0..tile {
                    cov[(ty + yy) * pw + tx + xx] += wy[yy] * wx[xx];
                }
            }
            tx += step;
        }
        ty += step;
    }
    for (i, v) in cov.iter().enumerate() {
        assert!((v - 1.0).abs() < 1e-5, "coverage at pixel {i} is {v}, not 1");
    }
}

#[test]
fn feather_numerators_ramp_on_shared_edges_only() {
    assert_eq!(feather_numerators(8, true, true, 2), vec![1, 2, 3, 3, 3, 3, 2, 1]);
    assert_eq!(feather_numerators(6, false, true, 2), vec![3, 3, 3, 3, 2, 1]);
    assert_eq!(feather_numerators(6, true, false, 2), vec![1, 2, 3, 3, 3, 3]);
    assert_eq!(feather_numerators(4, false, false, 3), vec![4, 4, 4, 4]);
}

#[test]
fn feather_integer_coverage_is_exact() {
    // One axis, three tiles of 8 at step 6 (overlap 2): every position sums to 3.
    let (tile, step, count) = (8usize, 6usize, 3usize);
    let padded = (count - 1) * step + tile;
    let mut cov = vec![0usize; padded];
    for j in 0..count {
        let start = j * step;
        let w = feather_numerators(tile, start > 0, start + tile < padded, tile - step);
        for k in 0..tile {
            cov[start + k] += w[k];
        }
    }
    assert!(cov.iter().all(|&c| c == tile - step + 1), "{cov:?}");
}

#[test]
fn uniform_tile_covers_padded_grid() {
    let t = tensor(8, 8);
    let tiles = uniform_tile(&t, 4, 2);
    // 3 rows × 3 columns of origins, y outer, x inner.
    let origins: Vec<(usize, usize)> = tiles.iter().map(|(x, y, _)| (*x, *y)).collect();
    assert_eq!(
        origins,
        vec![(0, 0), (2, 0), (4, 0), (0, 2), (2, 2), (4, 2), (0, 4), (2, 4), (4, 4)]
    );
    let (_, _, t11) = &tiles[4];
    assert_eq!(t11.shape, vec![1, 3, 4, 4]);
    // Channel 1, row 0 of the tile at (2, 2) = source (1, 2, 2).
    assert_eq!(t11.data[16], t.data[64 + 2 * 8 + 2]);
}

#[test]
fn pad_same_size_is_copy_and_crop_keeps_top_left() {
    let t = tensor(3, 4);
    assert_eq!(pad_to(&t, 3, 4).data, t.data);
    let c = crop(&t, 2, 2);
    assert_eq!(c.data, vec![0.0, 1.0, 4.0, 5.0, 12.0, 13.0, 16.0, 17.0, 24.0, 25.0, 28.0, 29.0]);
}

#[test]
fn crop_rgb24_takes_top_left_pixels() {
    // 3×2 packed canvas, pixel (x, y) holds bytes 10*y + x in all channels.
    let mut src = Vec::new();
    for y in 0..2u8 {
        for x in 0..3u8 {
            src.extend_from_slice(&[10 * y + x; 3]);
        }
    }
    let out = crop_rgb24(&src, 3, 2, 2);
    assert_eq!(out, vec![0, 0, 0, 1, 1, 1, 10, 10, 10, 11, 11, 11]);
}

#[test]
fn crop_rgb24_with_no_rows_is_empty() {
    let src: Vec<u8> = Vec::new();
    assert!(crop_rgb24(&src, 0, 0, usize::MAX).is_empty());
    assert!(crop_rgb24(&vec![1, 2, 3], 1, 0, 1).is_empty());
}
