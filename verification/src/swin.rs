//! Index tables of the windowed self-attention (8×8 Swin windows) used by
//! the SCUNet denoiser: the relative-position bias gather index and the
//! shifted-window cross-boundary masks.

use vstd::prelude::*;

use crate::arith::{lemma_index_bound, lemma_split_index};

verus! {

/// Window side.
pub const WS: usize = 8;

/// Tokens per window (`WS * WS`).
pub const NP: usize = 64;

/// Side of the relative-position table (`2 * WS - 1`).
pub const BIAS_BASE: usize = 15;

/// Entry of the relative-position gather index for query token `p` and key
/// token `q`: `(pi - qi + ws-1) * 15 + (pj - qj + ws-1)` with `(pi, pj)` the
/// row and column of `p` in its window.
pub open spec fn relative_offset(p: int, q: int) -> int {
    (p / 8 - q / 8 + 7) * 15 + (p % 8 - q % 8 + 7)
}

/// Query and key rows straddle the shifted-window boundary (row 4).
pub open spec fn crosses_rows(p: int, q: int) -> bool {
    (p / 8 < 4 && q / 8 >= 4) || (p / 8 >= 4 && q / 8 < 4)
}

/// Query and key columns straddle the shifted-window boundary (column 4).
pub open spec fn crosses_cols(p: int, q: int) -> bool {
    (p % 8 < 4 && q % 8 >= 4) || (p % 8 >= 4 && q % 8 < 4)
}

/// Flat gather index (len NP·NP) for the (heads, 15, 15) relative table:
/// entry `p * NP + q` is `relative_offset(p, q)`.
pub fn relative_index() -> (r: Vec<i64>)
    ensures
        r.len() == NP * NP,
        forall|p: int, q: int|
            0 <= p < NP && 0 <= q < NP ==> #[trigger] r@[p * NP + q] == relative_offset(p, q),
{
    let mut idx: Vec<i64> = Vec::new();
    let mut p: usize = 0;
    while p < NP
        invariant
            p <= NP,
            idx.len() == p * NP,
            forall|k: int| 0 <= k < idx.len() ==> #[trigger] idx@[k] == relative_offset(k / 64, k % 64),
        decreases NP - p,
    {
        let pi = (p / WS) as i64;
        let pj = (p % WS) as i64;
        let mut q: usize = 0;
        while q < NP
            invariant
                p < NP,
                q <= NP,
                pi == p / 8,
                pj == p % 8,
                idx.len() == p * NP + q,
                forall|k: int| 0 <= k < idx.len() ==> #[trigger] idx@[k] == relative_offset(k / 64, k % 64),
            decreases NP - q,
        {
            let qi = (q / WS) as i64;
            let qj = (q % WS) as i64;
            let di = pi - qi + 7;
            let dj = pj - qj + 7;
            proof {
                lemma_split_index(p as int, 64, q as int);
            }
            idx.push(di * 15 + dj);
            q += 1;
        }
        p += 1;
    }
    proof {
        assert forall|p: int, q: int| 0 <= p < NP && 0 <= q < NP implies #[trigger] idx@[p * NP + q]
            == relative_offset(p, q) by {
            lemma_split_index(p, 64, q);
            lemma_index_bound(p, 64, 64, q);
        }
    }
    idx
}

/// SW-MSA cross-boundary patterns (flat len NP·NP): entry `p * NP + q` of
/// the first tells whether the rows of query `p` and key `q` straddle the
/// shift, of the second whether their columns do. Only windows on the last
/// row / last column use them.
pub fn sw_cross_patterns() -> (r: (Vec<bool>, Vec<bool>))
    ensures
        r.0.len() == NP * NP,
        r.1.len() == NP * NP,
        forall|p: int, q: int|
            0 <= p < NP && 0 <= q < NP ==> #[trigger] r.0@[p * NP + q] == crosses_rows(p, q),
        forall|p: int, q: int|
            0 <= p < NP && 0 <= q < NP ==> #[trigger] r.1@[p * NP + q] == crosses_cols(p, q),
{
    let s: usize = WS / 2;
    let mut row: Vec<bool> = Vec::new();
    let mut col: Vec<bool> = Vec::new();
    let mut p: usize = 0;
    while p < NP
        invariant
            s == 4,
            p <= NP,
            row.len() == p * NP,
            col.len() == p * NP,
            forall|k: int| 0 <= k < row.len() ==> #[trigger] row@[k] == crosses_rows(k / 64, k % 64),
            forall|k: int| 0 <= k < col.len() ==> #[trigger] col@[k] == crosses_cols(k / 64, k % 64),
        decreases NP - p,
    {
        let pi = p / WS;
        let pj = p % WS;
        let mut q: usize = 0;
        while q < NP
            invariant
                s == 4,
                p < NP,
                q <= NP,
                pi == p / 8,
                pj == p % 8,
                row.len() == p * NP + q,
                col.len() == p * NP + q,
                forall|k: int| 0 <= k < row.len() ==> #[trigger] row@[k] == crosses_rows(k / 64, k % 64),
                forall|k: int| 0 <= k < col.len() ==> #[trigger] col@[k] == crosses_cols(k / 64, k % 64),
            decreases NP - q,
        {
            let qi = q / WS;
            let qj = q % WS;
            proof {
                lemma_split_index(p as int, 64, q as int);
            }
            row.push((pi < s && qi >= s) || (pi >= s && qi < s));
            col.push((pj < s && qj >= s) || (pj >= s && qj < s));
            q += 1;
        }
        p += 1;
    }
    proof {
        assert forall|p: int, q: int| 0 <= p < NP && 0 <= q < NP implies #[trigger] row@[p * NP + q]
            == crosses_rows(p, q) by {
            lemma_split_index(p, 64, q);
            lemma_index_bound(p, 64, 64, q);
        }
        assert forall|p: int, q: int| 0 <= p < NP && 0 <= q < NP implies #[trigger] col@[p * NP + q]
            == crosses_cols(p, q) by {
            lemma_split_index(p, 64, q);
            lemma_index_bound(p, 64, 64, q);
        }
    }
    (row, col)
}

/// Law: the gather index reads the 15 × 15 relative-position table row-major
/// at the displacement between the two tokens of a window (tokens laid out
/// row by row, 8 per row): for query token `(pr, pc)` and key token
/// `(qr, qc)` the table row is `pr - qr + 7` and the table column is
/// `pc - qc + 7`.
pub proof fn lemma_relative_offset_is_displacement(pr: int, pc: int, qr: int, qc: int)
    requires
        0 <= pr < 8,
        0 <= pc < 8,
        0 <= qr < 8,
        0 <= qc < 8,
    ensures
        0 <= relative_offset(pr * 8 + pc, qr * 8 + qc) < 15 * 15,
        relative_offset(pr * 8 + pc, qr * 8 + qc) / 15 == pr - qr + 7,
        relative_offset(pr * 8 + pc, qr * 8 + qc) % 15 == pc - qc + 7,
{
    lemma_split_index(pr, 8, pc);
    lemma_split_index(qr, 8, qc);
    let v = relative_offset(pr * 8 + pc, qr * 8 + qc);
    assert(v == (pr - qr + 7) * 15 + (pc - qc + 7));
    vstd::arithmetic::div_mod::lemma_fundamental_div_mod_converse(v, 15, pr - qr + 7, pc - qc + 7);
    assert(0 <= v < 15 * 15) by (nonlinear_arith)
        requires
            v == (pr - qr + 7) * 15 + (pc - qc + 7),
            0 <= pr - qr + 7 < 15,
            0 <= pc - qc + 7 < 15,
    ;
}

/// Law: the row mask depends on the tokens' rows alone and the column mask
/// on their columns alone (tokens laid out row by row, 8 per row); each
/// tells whether the two tokens lie on different sides of the half-window
/// shift (row 4, column 4).
pub proof fn lemma_cross_masks_by_coordinates(pr: int, pc: int, qr: int, qc: int)
    requires
        0 <= pr < 8,
        0 <= pc < 8,
        0 <= qr < 8,
        0 <= qc < 8,
    ensures
        crosses_rows(pr * 8 + pc, qr * 8 + qc) == ((pr < 4) != (qr < 4)),
        crosses_cols(pr * 8 + pc, qr * 8 + qc) == ((pc < 4) != (qc < 4)),
{
    lemma_split_index(pr, 8, pc);
    lemma_split_index(qr, 8, qc);
}

} // verus!
