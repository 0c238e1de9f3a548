//! Exhaustive symbol fitting of one cell, and of a whole cell-major buffer.
use vstd::prelude::*;

use crate::{blank_choice, Choice};

verus! {

/// Bytes of one cell: 64 RGBA pixels, row by row.
pub const CELL_BYTES: usize = 256;

/// The largest transparent-edge bias under which no symbol's error can
/// exceed `u64::MAX` (the unbiased errors stay below 2^33).
pub const MAX_EDGE_BIAS: u64 = 0xFFFF_FFFD_FFFF_FFFF;

/// A glyph of the symbol atlas: its Unicode scalar and its 8x8 coverage
/// mask, row by row, most significant bit first. A set bit is foreground.
#[derive(Clone, Copy, Debug, PartialEq, Eq)]
pub struct Symbol {
    pub codepoint: u32,
    pub bitmap: u64,
}

/// Whether pixel `i` (0..64) of the cell lies on the symbol's foreground.
pub open spec fn covers(bitmap: u64, i: int) -> bool {
    (bitmap >> ((63 - i) as u64)) & 1u64 == 1u64
}

pub open spec fn alpha_at(cell: Seq<u8>, i: int) -> int {
    cell[4 * i + 3] as int
}

pub open spec fn channel_at(cell: Seq<u8>, i: int, c: int) -> int {
    cell[4 * i + c] as int
}

/// Total alpha of the first `n` pixels on one side of the mask.
pub open spec fn side_weight(cell: Seq<u8>, bitmap: u64, fg: bool, n: int) -> int
    decreases n,
{
    if n <= 0 {
        0
    } else {
        side_weight(cell, bitmap, fg, n - 1) + if covers(bitmap, n - 1) == fg {
            alpha_at(cell, n - 1)
        } else {
            0
        }
    }
}

/// Alpha-weighted sum of channel `c` over the first `n` pixels on one side.
pub open spec fn side_sum(cell: Seq<u8>, bitmap: u64, fg: bool, c: int, n: int) -> int
    decreases n,
{
    if n <= 0 {
        0
    } else {
        side_sum(cell, bitmap, fg, c, n - 1) + if covers(bitmap, n - 1) == fg {
            alpha_at(cell, n - 1) * channel_at(cell, n - 1, c)
        } else {
            0
        }
    }
}

/// Alpha-weighted sum of the squares of channel `c` on one side.
pub open spec fn side_square_sum(cell: Seq<u8>, bitmap: u64, fg: bool, c: int, n: int) -> int
    decreases n,
{
    if n <= 0 {
        0
    } else {
        side_square_sum(cell, bitmap, fg, c, n - 1) + if covers(bitmap, n - 1) == fg {
            alpha_at(cell, n - 1) * (channel_at(cell, n - 1, c) * channel_at(cell, n - 1, c))
        } else {
            0
        }
    }
}

/// Alpha-weighted squared deviation of channel `c` from `m` on one side.
pub open spec fn side_deviation(cell: Seq<u8>, bitmap: u64, fg: bool, c: int, m: int, n: int) -> int
    decreases n,
{
    if n <= 0 {
        0
    } else {
        side_deviation(cell, bitmap, fg, c, m, n - 1) + if covers(bitmap, n - 1) == fg {
            alpha_at(cell, n - 1) * ((channel_at(cell, n - 1, c) - m) * (channel_at(cell, n - 1, c)
                - m))
        } else {
            0
        }
    }
}

/// Squared distance of the first `n` alphas from full opacity.
pub open spec fn opaque_alpha_error(cell: Seq<u8>, n: int) -> int
    decreases n,
{
    if n <= 0 {
        0
    } else {
        opaque_alpha_error(cell, n - 1) + (255 - alpha_at(cell, n - 1)) * (255 - alpha_at(
            cell,
            n - 1,
        ))
    }
}

/// Squared distance of the first `n` alphas from the symbol's own mask
/// (opaque on the foreground, transparent elsewhere).
pub open spec fn edge_alpha_error(cell: Seq<u8>, bitmap: u64, n: int) -> int
    decreases n,
{
    if n <= 0 {
        0
    } else {
        let target: int = if covers(bitmap, n - 1) {
            255
        } else {
            0
        };
        edge_alpha_error(cell, bitmap, n - 1) + (target - alpha_at(cell, n - 1)) * (target
            - alpha_at(cell, n - 1))
    }
}

/// The colour of one side: its alpha-weighted mean, or the mean of the
/// whole cell where the side has no weight, or 0 for an empty cell.
pub open spec fn side_mean(cell: Seq<u8>, bitmap: u64, fg: bool, c: int) -> int {
    let w = side_weight(cell, bitmap, fg, 64);
    let total = side_weight(cell, bitmap, true, 64) + side_weight(cell, bitmap, false, 64);
    if w > 0 {
        side_sum(cell, bitmap, fg, c, 64) / w
    } else if total > 0 {
        (side_sum(cell, bitmap, true, c, 64) + side_sum(cell, bitmap, false, c, 64)) / total
    } else {
        0
    }
}

/// Colour error of one side and channel: the alpha-weighted squared
/// deviation of the pixels from the side's colour.
pub open spec fn side_error(cell: Seq<u8>, bitmap: u64, fg: bool, c: int) -> int {
    side_deviation(cell, bitmap, fg, c, side_mean(cell, bitmap, fg, c), 64)
}

/// Error of drawing the cell opaque: both sides' colour errors, plus the
/// alpha's distance from full opacity.
pub open spec fn opaque_error(cell: Seq<u8>, bitmap: u64) -> int {
    side_error(cell, bitmap, true, 0) + side_error(cell, bitmap, false, 0) + side_error(
        cell,
        bitmap,
        true,
        1,
    ) + side_error(cell, bitmap, false, 1) + side_error(cell, bitmap, true, 2) + side_error(
        cell,
        bitmap,
        false,
        2,
    ) + 765 * opaque_alpha_error(cell, 64)
}

/// Error of drawing only the foreground over a transparent background:
/// the foreground's colour error, the alpha's distance from the mask, and
/// the bias against transparent edges.
pub open spec fn edge_error(cell: Seq<u8>, bitmap: u64, edge_bias: u64) -> int {
    side_error(cell, bitmap, true, 0) + side_error(cell, bitmap, true, 1) + side_error(
        cell,
        bitmap,
        true,
        2,
    ) + 765 * edge_alpha_error(cell, bitmap, 64) + edge_bias
}

pub open spec fn side_colour(cell: Seq<u8>, bitmap: u64, fg: bool) -> [u8; 3] {
    [
        side_mean(cell, bitmap, fg, 0) as u8,
        side_mean(cell, bitmap, fg, 1) as u8,
        side_mean(cell, bitmap, fg, 2) as u8,
    ]
}

/// Whether the transparent-background variant of the symbol wins.
pub open spec fn edge_wins(cell: Seq<u8>, sym: Symbol, edge_bias: u64) -> bool {
    edge_error(cell, sym.bitmap, edge_bias) < opaque_error(cell, sym.bitmap)
}

/// Error of the better of the two variants of a symbol.
pub open spec fn symbol_error(cell: Seq<u8>, sym: Symbol, edge_bias: u64) -> int {
    if edge_wins(cell, sym, edge_bias) {
        edge_error(cell, sym.bitmap, edge_bias)
    } else {
        opaque_error(cell, sym.bitmap)
    }
}

/// The better of the two variants of a symbol.
pub open spec fn symbol_choice(cell: Seq<u8>, sym: Symbol, edge_bias: u64) -> Choice {
    if edge_wins(cell, sym, edge_bias) {
        Choice {
            codepoint: sym.codepoint,
            fg: side_colour(cell, sym.bitmap, true),
            bg: [0, 0, 0],
            transparent_bg: 1,
        }
    } else {
        Choice {
            codepoint: sym.codepoint,
            fg: side_colour(cell, sym.bitmap, true),
            bg: side_colour(cell, sym.bitmap, false),
            transparent_bg: 0,
        }
    }
}

/// Index of the first symbol of minimal error among the first `n`.
pub open spec fn best_index(cell: Seq<u8>, symbols: Seq<Symbol>, edge_bias: u64, n: int) -> int
    decreases n,
{
    if n <= 1 {
        0
    } else {
        let b = best_index(cell, symbols, edge_bias, n - 1);
        if symbol_error(cell, symbols[n - 1], edge_bias) < symbol_error(
            cell,
            symbols[b],
            edge_bias,
        ) {
            n - 1
        } else {
            b
        }
    }
}

/// The choice for a cell: the best variant of the first symbol of minimal
/// error, or the blank choice for an empty atlas.
pub open spec fn best_choice(cell: Seq<u8>, symbols: Seq<Symbol>, edge_bias: u64) -> Choice {
    if symbols.len() == 0 {
        blank_choice()
    } else {
        symbol_choice(cell, symbols[best_index(cell, symbols, edge_bias, symbols.len() as int)], edge_bias)
    }
}

/// Every symbol's error, transparent variant and bias included, fits in `u64`.
pub open spec fn errors_fit(cell: Seq<u8>, symbols: Seq<Symbol>, edge_bias: u64) -> bool {
    forall|k: int| 0 <= k < symbols.len() ==> edge_error(cell, #[trigger] symbols[k].bitmap, edge_bias) <= u64::MAX
}


// ---------------------------------------------------------------------------
// Arithmetic facts about the per-side sums.

proof fn lemma_side_bounds(cell: Seq<u8>, bitmap: u64, fg: bool, c: int, n: int)
    requires
        cell.len() >= 256,
        0 <= n <= 64,
        0 <= c < 3,
    ensures
        0 <= side_weight(cell, bitmap, fg, n) <= 255 * n,
        0 <= side_sum(cell, bitmap, fg, c, n) <= 255 * side_weight(cell, bitmap, fg, n),
        0 <= side_square_sum(cell, bitmap, fg, c, n) <= 255 * side_sum(cell, bitmap, fg, c, n),
    decreases n,
{
    if n > 0 {
        lemma_side_bounds(cell, bitmap, fg, c, n - 1);
        let a = alpha_at(cell, n - 1);
        let v = channel_at(cell, n - 1, c);
        assert(0 <= a <= 255 && 0 <= v <= 255);
        assert(0 <= a * v <= 255 * a) by (nonlinear_arith)
            requires
                0 <= a <= 255,
                0 <= v <= 255,
        ;
        assert(0 <= a * (v * v) <= 255 * (a * v)) by (nonlinear_arith)
            requires
                0 <= a <= 255,
                0 <= v <= 255,
        ;
    }
}

proof fn lemma_deviation_identity(cell: Seq<u8>, bitmap: u64, fg: bool, c: int, m: int, n: int)
    ensures
        side_deviation(cell, bitmap, fg, c, m, n) == side_square_sum(cell, bitmap, fg, c, n) - 2
            * m * side_sum(cell, bitmap, fg, c, n) + m * m * side_weight(cell, bitmap, fg, n),
    decreases n,
{
    if n > 0 {
        lemma_deviation_identity(cell, bitmap, fg, c, m, n - 1);
        let a = alpha_at(cell, n - 1);
        let v = channel_at(cell, n - 1, c);
        assert(a * ((v - m) * (v - m)) == a * (v * v) - 2 * m * (a * v) + m * m * a)
            by (nonlinear_arith);
        let ds = side_square_sum(cell, bitmap, fg, c, n - 1);
        let dsum = side_sum(cell, bitmap, fg, c, n - 1);
        let dw = side_weight(cell, bitmap, fg, n - 1);
        if covers(bitmap, n - 1) == fg {
            assert(2 * m * (dsum + a * v) == 2 * m * dsum + 2 * m * (a * v)) by (nonlinear_arith);
            assert(m * m * (dw + a) == m * m * dw + m * m * a) by (nonlinear_arith);
        }
    }
}

proof fn lemma_deviation_bound(cell: Seq<u8>, bitmap: u64, fg: bool, c: int, m: int, n: int)
    requires
        cell.len() >= 256,
        0 <= n <= 64,
        0 <= c < 3,
        0 <= m <= 255,
    ensures
        0 <= side_deviation(cell, bitmap, fg, c, m, n) <= 65025 * side_weight(cell, bitmap, fg, n),
    decreases n,
{
    if n > 0 {
        lemma_deviation_bound(cell, bitmap, fg, c, m, n - 1);
        let a = alpha_at(cell, n - 1);
        let v = channel_at(cell, n - 1, c);
        assert(0 <= a * ((v - m) * (v - m)) <= 65025 * a) by (nonlinear_arith)
            requires
                0 <= a <= 255,
                0 <= v <= 255,
                0 <= m <= 255,
        ;
    }
}

proof fn lemma_alpha_error_bounds(cell: Seq<u8>, bitmap: u64, n: int)
    requires
        cell.len() >= 256,
        0 <= n <= 64,
    ensures
        0 <= opaque_alpha_error(cell, n) <= 65025 * n,
        0 <= edge_alpha_error(cell, bitmap, n) <= 65025 * n,
    decreases n,
{
    if n > 0 {
        lemma_alpha_error_bounds(cell, bitmap, n - 1);
        let a = alpha_at(cell, n - 1);
        assert(0 <= (255 - a) * (255 - a) <= 65025) by (nonlinear_arith)
            requires
                0 <= a <= 255,
        ;
        assert(0 <= a * a <= 65025) by (nonlinear_arith)
            requires
                0 <= a <= 255,
        ;
        assert((0 - a) * (0 - a) == a * a) by (nonlinear_arith);
    }
}

proof fn lemma_mean_bound(cell: Seq<u8>, bitmap: u64, fg: bool, c: int)
    requires
        cell.len() >= 256,
        0 <= c < 3,
    ensures
        0 <= side_mean(cell, bitmap, fg, c) <= 255,
{
    lemma_side_bounds(cell, bitmap, true, c, 64);
    lemma_side_bounds(cell, bitmap, false, c, 64);
    let w = side_weight(cell, bitmap, fg, 64);
    let s = side_sum(cell, bitmap, fg, c, 64);
    let tw = side_weight(cell, bitmap, true, 64) + side_weight(cell, bitmap, false, 64);
    let ts = side_sum(cell, bitmap, true, c, 64) + side_sum(cell, bitmap, false, c, 64);
    if w > 0 {
        assert(0 <= s / w <= 255) by (nonlinear_arith)
            requires
                w > 0,
                0 <= s <= 255 * w,
        ;
    } else if tw > 0 {
        assert(0 <= ts / tw <= 255) by (nonlinear_arith)
            requires
                tw > 0,
                0 <= ts <= 255 * tw,
        ;
    }
}

/// Colour error of one side is bounded by the side's weight.
proof fn lemma_side_error_bounds(cell: Seq<u8>, bitmap: u64, fg: bool, c: int)
    requires
        cell.len() >= 256,
        0 <= c < 3,
    ensures
        0 <= side_error(cell, bitmap, fg, c) <= 65025 * side_weight(cell, bitmap, fg, 64),
        side_weight(cell, bitmap, fg, 64) <= 16320,
{
    lemma_mean_bound(cell, bitmap, fg, c);
    lemma_side_bounds(cell, bitmap, fg, c, 64);
    lemma_deviation_bound(cell, bitmap, fg, c, side_mean(cell, bitmap, fg, c), 64);
}

// ---------------------------------------------------------------------------
// Executable scoring.

/// Running alpha-weighted totals of one side of the mask.
struct SideTotals {
    weight: u32,
    sum_r: u32,
    sum_g: u32,
    sum_b: u32,
    squares_r: u32,
    squares_g: u32,
    squares_b: u32,
}

impl SideTotals {
    spec fn matches(self, cell: Seq<u8>, bitmap: u64, fg: bool, n: int) -> bool {
        &&& self.weight == side_weight(cell, bitmap, fg, n)
        &&& self.sum_r == side_sum(cell, bitmap, fg, 0, n)
        &&& self.sum_g == side_sum(cell, bitmap, fg, 1, n)
        &&& self.sum_b == side_sum(cell, bitmap, fg, 2, n)
        &&& self.squares_r == side_square_sum(cell, bitmap, fg, 0, n)
        &&& self.squares_g == side_square_sum(cell, bitmap, fg, 1, n)
        &&& self.squares_b == side_square_sum(cell, bitmap, fg, 2, n)
    }
}

/// Per-side totals and alpha errors of a cell for one mask.
struct CellTotals {
    fg: SideTotals,
    bg: SideTotals,
    alpha_error_opaque: u32,
    alpha_error_edge: u32,
}

fn cell_totals(pixels: &[u8], bitmap: u64) -> (t: CellTotals)
    requires
        pixels@.len() >= CELL_BYTES,
    ensures
        t.fg.matches(pixels@, bitmap, true, 64),
        t.bg.matches(pixels@, bitmap, false, 64),
        t.alpha_error_opaque == opaque_alpha_error(pixels@, 64),
        t.alpha_error_edge == edge_alpha_error(pixels@, bitmap, 64),
{
    let ghost cell = pixels@;
    let mut fg = SideTotals {
        weight: 0,
        sum_r: 0,
        sum_g: 0,
        sum_b: 0,
        squares_r: 0,
        squares_g: 0,
        squares_b: 0,
    };
    let mut bg = SideTotals {
        weight: 0,
        sum_r: 0,
        sum_g: 0,
        sum_b: 0,
        squares_r: 0,
        squares_g: 0,
        squares_b: 0,
    };
    let mut alpha_error_opaque: u32 = 0;
    let mut alpha_error_edge: u32 = 0;
    for i in 0..64usize
        invariant
            cell == pixels@,
            cell.len() >= 256,
            fg.matches(cell, bitmap, true, i as int),
            bg.matches(cell, bitmap, false, i as int),
            alpha_error_opaque == opaque_alpha_error(cell, i as int),
            alpha_error_edge == edge_alpha_error(cell, bitmap, i as int),
    {
        proof {
            lemma_side_bounds(cell, bitmap, true, 0, i as int);
            lemma_side_bounds(cell, bitmap, true, 1, i as int);
            lemma_side_bounds(cell, bitmap, true, 2, i as int);
            lemma_side_bounds(cell, bitmap, false, 0, i as int);
            lemma_side_bounds(cell, bitmap, false, 1, i as int);
            lemma_side_bounds(cell, bitmap, false, 2, i as int);
            lemma_alpha_error_bounds(cell, bitmap, i as int);
        }
        let on_fg: bool = (bitmap >> ((63 - i) as u64)) & 1u64 == 1u64;
        let alpha = pixels[i * 4 + 3] as u32;
        let r = pixels[i * 4] as u32;
        let g = pixels[i * 4 + 1] as u32;
        let b = pixels[i * 4 + 2] as u32;
        assert(alpha * r <= 65025 && alpha * g <= 65025 && alpha * b <= 65025) by (nonlinear_arith)
            requires
                alpha <= 255,
                r <= 255,
                g <= 255,
                b <= 255,
        ;
        assert(alpha * r * r <= 16581375 && alpha * g * g <= 16581375 && alpha * b * b <= 16581375)
            by (nonlinear_arith)
            requires
                alpha <= 255,
                r <= 255,
                g <= 255,
                b <= 255,
        ;
        assert(alpha * (r * r) == alpha * r * r && alpha * (g * g) == alpha * g * g && alpha * (b
            * b) == alpha * b * b) by (nonlinear_arith);
        if on_fg {
            fg.weight = fg.weight + alpha;
            fg.sum_r = fg.sum_r + alpha * r;
            fg.sum_g = fg.sum_g + alpha * g;
            fg.sum_b = fg.sum_b + alpha * b;
            fg.squares_r = fg.squares_r + alpha * r * r;
            fg.squares_g = fg.squares_g + alpha * g * g;
            fg.squares_b = fg.squares_b + alpha * b * b;
        } else {
            bg.weight = bg.weight + alpha;
            bg.sum_r = bg.sum_r + alpha * r;
            bg.sum_g = bg.sum_g + alpha * g;
            bg.sum_b = bg.sum_b + alpha * b;
            bg.squares_r = bg.squares_r + alpha * r * r;
            bg.squares_g = bg.squares_g + alpha * g * g;
            bg.squares_b = bg.squares_b + alpha * b * b;
        }
        assert((255 - alpha) * (255 - alpha) <= 65025 && alpha * alpha <= 65025) by (nonlinear_arith)
            requires
                alpha <= 255,
        ;
        alpha_error_opaque = alpha_error_opaque + (255 - alpha) * (255 - alpha);
        let edge_delta: u32 = if on_fg {
            255 - alpha
        } else {
            alpha
        };
        assert((0 - alpha as int) * (0 - alpha as int) == alpha * alpha) by (nonlinear_arith);
        alpha_error_edge = alpha_error_edge + edge_delta * edge_delta;
    }
    CellTotals { fg, bg, alpha_error_opaque, alpha_error_edge }
}

spec fn fit_mean(sum: u32, weight: u32, pooled_sum: u32, pooled_weight: u32) -> int {
    if weight > 0 {
        (sum / weight) as int
    } else if pooled_weight > 0 {
        (pooled_sum / pooled_weight) as int
    } else {
        0
    }
}

/// The colour of one side and channel, and its weighted squared error.
fn channel_fit(sum: u32, squares: u32, weight: u32, pooled_sum: u32, pooled_weight: u32) -> (res: (
    u8,
    u64,
))
    requires
        sum <= 255 * weight,
        pooled_sum <= 255 * pooled_weight,
        ({
            let m = fit_mean(sum, weight, pooled_sum, pooled_weight);
            0 <= squares - 2 * m * sum + m * m * weight <= u64::MAX
        }),
    ensures
        ({
            let m = fit_mean(sum, weight, pooled_sum, pooled_weight);
            &&& res.0 == m
            &&& res.1 == squares - 2 * m * sum + m * m * weight
        }),
{
    let mean: u32 = if weight > 0 {
        sum / weight
    } else if pooled_weight > 0 {
        pooled_sum / pooled_weight
    } else {
        0
    };
    assert(mean <= 255) by (nonlinear_arith)
        requires
            sum <= 255 * weight,
            pooled_sum <= 255 * pooled_weight,
            mean == fit_mean(sum, weight, pooled_sum, pooled_weight),
    ;
    assert(2 * mean * sum <= 2 * 255 * 0xffff_ffff) by (nonlinear_arith)
        requires
            mean <= 255,
            sum <= 0xffff_ffff,
    ;
    assert(weight * mean <= 0xffff_ffff * 255 && weight * mean * mean <= 0xffff_ffff * 65025)
        by (nonlinear_arith)
        requires
            mean <= 255,
            weight <= 0xffff_ffff,
    ;
    let cross: u64 = 2 * mean as u64 * sum as u64;
    let spread: u64 = weight as u64 * mean as u64 * mean as u64;
    assert(cross == 2 * mean * sum);
    assert(spread == mean * mean * weight) by (nonlinear_arith)
        requires
            spread == weight * mean * mean,
    ;
    let rgb_error = (squares as u64).wrapping_sub(cross).wrapping_add(spread);
    (mean as u8, rgb_error)
}


/// The colour fit of one side and channel, restated over the cell.
proof fn lemma_channel_fit(cell: Seq<u8>, bitmap: u64, fg: bool, c: int)
    requires
        cell.len() >= 256,
        0 <= c < 3,
    ensures
        ({
            let m = side_mean(cell, bitmap, fg, c);
            side_error(cell, bitmap, fg, c) == side_square_sum(cell, bitmap, fg, c, 64) - 2 * m
                * side_sum(cell, bitmap, fg, c, 64) + m * m * side_weight(cell, bitmap, fg, 64)
        }),
        0 <= side_error(cell, bitmap, fg, c) <= 65025 * 16320,
        side_sum(cell, bitmap, fg, c, 64) <= 255 * side_weight(cell, bitmap, fg, 64),
        side_sum(cell, bitmap, true, c, 64) + side_sum(cell, bitmap, false, c, 64) <= 255 * (
        side_weight(cell, bitmap, true, 64) + side_weight(cell, bitmap, false, 64)),
        side_weight(cell, bitmap, fg, 64) <= 16320,
        side_square_sum(cell, bitmap, fg, c, 64) <= 255 * 255 * 16320,
{
    lemma_side_error_bounds(cell, bitmap, fg, c);
    lemma_side_bounds(cell, bitmap, true, c, 64);
    lemma_side_bounds(cell, bitmap, false, c, 64);
    lemma_deviation_identity(cell, bitmap, fg, c, side_mean(cell, bitmap, fg, c), 64);
    assert(65025 * side_weight(cell, bitmap, fg, 64) <= 65025 * 16320);
}

/// Scores one symbol against a cell: the error and the choice of the
/// better of its opaque and transparent-background variants.
fn evaluate(pixels: &[u8], symbol: Symbol, edge_bias: u64) -> (res: (u64, Choice))
    requires
        pixels@.len() >= CELL_BYTES,
        edge_error(pixels@, symbol.bitmap, edge_bias) <= u64::MAX,
    ensures
        res.0 == symbol_error(pixels@, symbol, edge_bias),
        res.1 == symbol_choice(pixels@, symbol, edge_bias),
{
    let ghost cell = pixels@;
    let ghost bm = symbol.bitmap;
    let t = cell_totals(pixels, symbol.bitmap);
    proof {
        lemma_channel_fit(cell, bm, true, 0);
        lemma_channel_fit(cell, bm, true, 1);
        lemma_channel_fit(cell, bm, true, 2);
        lemma_channel_fit(cell, bm, false, 0);
        lemma_channel_fit(cell, bm, false, 1);
        lemma_channel_fit(cell, bm, false, 2);
        lemma_alpha_error_bounds(cell, bm, 64);
    }
    let pooled_weight = t.fg.weight + t.bg.weight;
    let (fg_r, err_fg_r) = channel_fit(t.fg.sum_r, t.fg.squares_r, t.fg.weight, t.fg.sum_r + t.bg.sum_r, pooled_weight);
    let (fg_g, err_fg_g) = channel_fit(t.fg.sum_g, t.fg.squares_g, t.fg.weight, t.fg.sum_g + t.bg.sum_g, pooled_weight);
    let (fg_b, err_fg_b) = channel_fit(t.fg.sum_b, t.fg.squares_b, t.fg.weight, t.fg.sum_b + t.bg.sum_b, pooled_weight);
    let (bg_r, err_bg_r) = channel_fit(t.bg.sum_r, t.bg.squares_r, t.bg.weight, t.fg.sum_r + t.bg.sum_r, pooled_weight);
    let (bg_g, err_bg_g) = channel_fit(t.bg.sum_g, t.bg.squares_g, t.bg.weight, t.fg.sum_g + t.bg.sum_g, pooled_weight);
    let (bg_b, err_bg_b) = channel_fit(t.bg.sum_b, t.bg.squares_b, t.bg.weight, t.fg.sum_b + t.bg.sum_b, pooled_weight);
    let mut opaque_error: u64 = 0;
    opaque_error = opaque_error + err_bg_r;
    opaque_error = opaque_error + err_bg_g;
    opaque_error = opaque_error + err_bg_b;
    opaque_error = opaque_error + err_fg_r;
    opaque_error = opaque_error + err_fg_g;
    opaque_error = opaque_error + err_fg_b;
    let mut edge_error: u64 = 0;
    edge_error = edge_error + err_fg_r;
    edge_error = edge_error + err_fg_g;
    edge_error = edge_error + err_fg_b;
    opaque_error = opaque_error + 3 * 255 * t.alpha_error_opaque as u64;
    edge_error = edge_error + (3 * 255 * t.alpha_error_edge as u64 + edge_bias);
    let opaque = Choice {
        codepoint: symbol.codepoint,
        fg: [fg_r, fg_g, fg_b],
        bg: [bg_r, bg_g, bg_b],
        transparent_bg: 0,
    };
    let edge = Choice {
        codepoint: symbol.codepoint,
        fg: [fg_r, fg_g, fg_b],
        bg: [0, 0, 0],
        transparent_bg: 1,
    };
    if edge_error < opaque_error {
        (edge_error, edge)
    } else {
        (opaque_error, opaque)
    }
}


/// Picks the symbol and colours for one cell: the best variant of the
/// first atlas symbol whose error is minimal.
pub fn choose_symbol(pixels: &[u8], symbols: &[Symbol], edge_bias: u64) -> (best: Choice)
    requires
        pixels@.len() >= CELL_BYTES,
        errors_fit(pixels@, symbols@, edge_bias),
    ensures
        best == best_choice(pixels@, symbols@, edge_bias),
{
    let mut best_error = u64::MAX;
    let mut best_index = usize::MAX;
    let mut best = Choice::default();
    for index in 0..symbols.len()
        invariant
            pixels@.len() >= CELL_BYTES,
            errors_fit(pixels@, symbols@, edge_bias),
            index == 0 ==> best_error == u64::MAX && best_index == usize::MAX && best
                == blank_choice(),
            index > 0 ==> {
                &&& best_index == self::best_index(pixels@, symbols@, edge_bias, index as int)
                &&& best_index < index
                &&& best_error == symbol_error(pixels@, symbols@[best_index as int], edge_bias)
                &&& best == symbol_choice(pixels@, symbols@[best_index as int], edge_bias)
            },
    {
        let symbol = symbols[index];
        assert(edge_error(pixels@, symbols@[index as int].bitmap, edge_bias) <= u64::MAX);
        let (error, current) = evaluate(pixels, symbol, edge_bias);
        if error < best_error || (error == best_error && index < best_index) {
            best_error = error;
            best_index = index;
            best = current;
        }
    }
    best
}

/// Law: the chosen symbol has the least error in the atlas, and every
/// symbol before it has a strictly greater error.
pub proof fn lemma_best_index_is_first_minimum(
    cell: Seq<u8>,
    symbols: Seq<Symbol>,
    edge_bias: u64,
    n: int,
)
    requires
        1 <= n <= symbols.len(),
    ensures
        0 <= best_index(cell, symbols, edge_bias, n) < n,
        forall|j: int|
            0 <= j < n ==> symbol_error(cell, symbols[best_index(cell, symbols, edge_bias, n)], edge_bias)
                <= symbol_error(cell, #[trigger] symbols[j], edge_bias),
        forall|j: int|
            0 <= j < best_index(cell, symbols, edge_bias, n) ==> symbol_error(
                cell,
                symbols[best_index(cell, symbols, edge_bias, n)],
                edge_bias,
            ) < symbol_error(cell, #[trigger] symbols[j], edge_bias),
    decreases n,
{
    if n > 1 {
        lemma_best_index_is_first_minimum(cell, symbols, edge_bias, n - 1);
    }
}

/// Fits every whole cell of a cell-major buffer; a trailing partial cell
/// is ignored.
pub fn render(pixels: &[u8], symbols: &[Symbol], edge_bias: u64) -> (choices: Vec<Choice>)
    requires
        forall|k: int|
            0 <= k < pixels@.len() / 256 ==> #[trigger] errors_fit(
                pixels@.subrange(256 * k, 256 * k + 256),
                symbols@,
                edge_bias,
            ),
    ensures
        choices@.len() == pixels@.len() / 256,
        forall|k: int|
            0 <= k < choices@.len() ==> #[trigger] choices@[k] == best_choice(
                pixels@.subrange(256 * k, 256 * k + 256),
                symbols@,
                edge_bias,
            ),
{
    let cells = pixels.len() / CELL_BYTES;
    let mut choices: Vec<Choice> = Vec::with_capacity(cells);
    for k in 0..cells
        invariant
            cells == pixels@.len() / 256,
            choices@.len() == k,
            forall|k: int|
                0 <= k < pixels@.len() / 256 ==> #[trigger] errors_fit(
                    pixels@.subrange(256 * k, 256 * k + 256),
                    symbols@,
                    edge_bias,
                ),
            forall|j: int|
                0 <= j < k ==> #[trigger] choices@[j] == best_choice(
                    pixels@.subrange(256 * j, 256 * j + 256),
                    symbols@,
                    edge_bias,
                ),
    {
        assert(256 * k + 256 <= pixels@.len()) by (nonlinear_arith)
            requires
                k < cells,
                cells == pixels@.len() / 256,
        ;
        assert(pixels@.len() == pixels.len());
        let start = k * CELL_BYTES;
        let cell = vstd::slice::slice_subrange(pixels, start, start + CELL_BYTES);
        assert(errors_fit(pixels@.subrange(256 * k, 256 * k + 256), symbols@, edge_bias));
        choices.push(choose_symbol(cell, symbols, edge_bias));
    }
    choices
}


/// Any bias up to `MAX_EDGE_BIAS` keeps every symbol's error within `u64`.
pub proof fn lemma_errors_fit(cell: Seq<u8>, symbols: Seq<Symbol>, edge_bias: u64)
    requires
        cell.len() >= 256,
        edge_bias <= MAX_EDGE_BIAS,
    ensures
        errors_fit(cell, symbols, edge_bias),
{
    assert forall|k: int| 0 <= k < symbols.len() implies edge_error(
        cell,
        #[trigger] symbols[k].bitmap,
        edge_bias,
    ) <= u64::MAX by {
        let bm = symbols[k].bitmap;
        lemma_side_error_bounds(cell, bm, true, 0);
        lemma_side_error_bounds(cell, bm, true, 1);
        lemma_side_error_bounds(cell, bm, true, 2);
        lemma_alpha_error_bounds(cell, bm, 64);
    }
}


proof fn lemma_first_minimum_is_best_index(
    cell: Seq<u8>,
    symbols: Seq<Symbol>,
    edge_bias: u64,
    n: int,
    i: int,
)
    requires
        0 <= i < n <= symbols.len(),
        forall|j: int|
            0 <= j < n ==> symbol_error(cell, symbols[i], edge_bias) <= symbol_error(
                cell,
                #[trigger] symbols[j],
                edge_bias,
            ),
        forall|j: int|
            0 <= j < i ==> symbol_error(cell, symbols[i], edge_bias) < symbol_error(
                cell,
                #[trigger] symbols[j],
                edge_bias,
            ),
    ensures
        best_index(cell, symbols, edge_bias, n) == i,
{
    lemma_best_index_is_first_minimum(cell, symbols, edge_bias, n);
    let b = best_index(cell, symbols, edge_bias, n);
    if b < i {
        assert(symbol_error(cell, symbols[i], edge_bias) < symbol_error(cell, symbols[b], edge_bias));
    } else if i < b {
        assert(symbol_error(cell, symbols[b], edge_bias) < symbol_error(cell, symbols[i], edge_bias));
    }
}

proof fn lemma_symbol_error_grows_with_bias(cell: Seq<u8>, sym: Symbol, low: u64, high: u64)
    requires
        low <= high,
    ensures
        symbol_error(cell, sym, low) <= symbol_error(cell, sym, high),
        !edge_wins(cell, sym, low) ==> !edge_wins(cell, sym, high) && symbol_error(cell, sym, high)
            == symbol_error(cell, sym, low),
{
}

/// Law: raising the transparent-edge bias never turns an opaque cell
/// transparent, nor changes its choice at all.
pub proof fn lemma_opaque_choice_survives_higher_bias(
    cell: Seq<u8>,
    symbols: Seq<Symbol>,
    low: u64,
    high: u64,
)
    requires
        low <= high,
        best_choice(cell, symbols, low).transparent_bg == 0,
    ensures
        best_choice(cell, symbols, high) == best_choice(cell, symbols, low),
{
    let n = symbols.len() as int;
    if n > 0 {
        lemma_best_index_is_first_minimum(cell, symbols, low, n);
        let i = best_index(cell, symbols, low, n);
        assert(!edge_wins(cell, symbols[i], low));
        lemma_symbol_error_grows_with_bias(cell, symbols[i], low, high);
        assert forall|j: int| 0 <= j < n implies symbol_error(cell, symbols[i], high) <= symbol_error(
            cell,
            #[trigger] symbols[j],
            high,
        ) by {
            lemma_symbol_error_grows_with_bias(cell, symbols[j], low, high);
        }
        assert forall|j: int| 0 <= j < i implies symbol_error(cell, symbols[i], high) < symbol_error(
            cell,
            #[trigger] symbols[j],
            high,
        ) by {
            lemma_symbol_error_grows_with_bias(cell, symbols[j], low, high);
        }
        lemma_first_minimum_is_best_index(cell, symbols, high, n, i);
    }
}


// ---------------------------------------------------------------------------
// Laws on what the scoring means.

/// Law: masks are read row by row, most significant bit first: pixel
/// (`row`, `col`) lies on the foreground exactly when the mask has the bit
/// `0x8000_0000_0000_0000 >> (8 * row + col)` set.
pub proof fn lemma_covers_reads_rows_msb_first(bitmap: u64, row: u64, col: u64)
    requires
        row < 8,
        col < 8,
    ensures
        covers(bitmap, (8 * row + col) as int) <==> bitmap & (0x8000_0000_0000_0000u64 >> ((8
            * row + col) as u64)) != 0,
{
    let k: u64 = (8 * row + col) as u64;
    let s: u64 = (63 - k) as u64;
    assert((bitmap >> s) & 1u64 == 1u64 <==> bitmap & (0x8000_0000_0000_0000u64 >> k) != 0)
        by (bit_vector)
        requires
            k < 64,
            s + k == 63,
    ;
}

/// Law: the mask `0xF0F0_F0F0_F0F0_F0F0` (the left half block) covers
/// exactly the left four columns of each row, and `0xFFFF_FFFF_0000_0000`
/// (the upper half block) exactly the upper four rows.
pub proof fn lemma_half_block_masks(i: int)
    requires
        0 <= i < 64,
    ensures
        covers(0xF0F0_F0F0_F0F0_F0F0u64, i) <==> i % 8 < 4,
        covers(0xFFFF_FFFF_0000_0000u64, i) <==> i / 8 < 4,
{
    let k: u64 = i as u64;
    let s: u64 = (63 - i) as u64;
    assert((0xF0F0_F0F0_F0F0_F0F0u64 >> s) & 1u64 == 1u64 <==> k % 8 < 4) by (bit_vector)
        requires
            k < 64,
            s + k == 63,
    ;
    assert((0xFFFF_FFFF_0000_0000u64 >> s) & 1u64 == 1u64 <==> k / 8 < 4) by (bit_vector)
        requires
            k < 64,
            s + k == 63,
    ;
}

proof fn lemma_uniform_side_sums(cell: Seq<u8>, bitmap: u64, fg: bool, c: int, x: int, n: int)
    requires
        cell.len() >= 256,
        0 <= n <= 64,
        0 <= c < 3,
        forall|i: int|
            0 <= i < 64 && covers(bitmap, i) == fg ==> alpha_at(cell, i) == 255 && channel_at(
                cell,
                i,
                c,
            ) == x,
    ensures
        side_sum(cell, bitmap, fg, c, n) == x * side_weight(cell, bitmap, fg, n),
        side_deviation(cell, bitmap, fg, c, x, n) == 0,
        side_weight(cell, bitmap, fg, n) >= 0,
        forall|i: int|
            0 <= i < n && covers(bitmap, i) == fg ==> side_weight(cell, bitmap, fg, n) >= 255,
    decreases n,
{
    if n > 0 {
        lemma_uniform_side_sums(cell, bitmap, fg, c, x, n - 1);
        if covers(bitmap, n - 1) == fg {
            assert(alpha_at(cell, n - 1) == 255 && channel_at(cell, n - 1, c) == x);
            let v = channel_at(cell, n - 1, c);
            assert(alpha_at(cell, n - 1) * ((v - x) * (v - x)) == 0) by (nonlinear_arith)
                requires
                    v == x,
            ;
            let w = side_weight(cell, bitmap, fg, n - 1);
            assert(x * w + 255 * x == x * (w + 255)) by (nonlinear_arith);
        }
    }
}

/// Law: a side whose pixels are all opaque and of one colour `x` in a
/// channel is drawn in exactly that colour, with no colour error.
pub proof fn lemma_uniform_side_is_exact(cell: Seq<u8>, bitmap: u64, fg: bool, c: int, x: int, i0: int)
    requires
        cell.len() >= 256,
        0 <= c < 3,
        0 <= i0 < 64,
        covers(bitmap, i0) == fg,
        forall|i: int|
            0 <= i < 64 && covers(bitmap, i) == fg ==> alpha_at(cell, i) == 255 && channel_at(
                cell,
                i,
                c,
            ) == x,
    ensures
        side_mean(cell, bitmap, fg, c) == x,
        side_error(cell, bitmap, fg, c) == 0,
{
    lemma_uniform_side_sums(cell, bitmap, fg, c, x, 64);
    let w = side_weight(cell, bitmap, fg, 64);
    assert(w >= 255);
    assert((x * w) / w == x) by (nonlinear_arith)
        requires
            w > 0,
    ;
}

proof fn lemma_opaque_alpha_error_zero(cell: Seq<u8>, n: int)
    requires
        0 <= n <= 64,
        forall|i: int| 0 <= i < 64 ==> alpha_at(cell, i) == 255,
    ensures
        opaque_alpha_error(cell, n) == 0,
    decreases n,
{
    if n > 0 {
        lemma_opaque_alpha_error_zero(cell, n - 1);
        assert(alpha_at(cell, n - 1) == 255);
    }
}

/// Law: an opaque cell whose left four columns are one colour `x` and right
/// four columns another colour `y` is fitted exactly by the left half block
/// (mask `0xF0F0_F0F0_F0F0_F0F0`): `x` as foreground over `y` as an opaque
/// background, at zero error, whatever the bias.
pub proof fn lemma_left_half_block_fit(cell: Seq<u8>, x: [u8; 3], y: [u8; 3], codepoint: u32, edge_bias: u64)
    requires
        cell.len() >= 256,
        forall|i: int| 0 <= i < 64 ==> #[trigger] alpha_at(cell, i) == 255,
        forall|i: int, c: int|
            0 <= i < 64 && 0 <= c < 3 && i % 8 < 4 ==> #[trigger] channel_at(cell, i, c) == x[c],
        forall|i: int, c: int|
            0 <= i < 64 && 0 <= c < 3 && i % 8 >= 4 ==> #[trigger] channel_at(cell, i, c) == y[c],
    ensures
        symbol_choice(cell, Symbol { codepoint, bitmap: 0xF0F0_F0F0_F0F0_F0F0 }, edge_bias) == (Choice {
            codepoint,
            fg: x,
            bg: y,
            transparent_bg: 0,
        }),
        symbol_error(cell, Symbol { codepoint, bitmap: 0xF0F0_F0F0_F0F0_F0F0 }, edge_bias) == 0,
{
    let bm = 0xF0F0_F0F0_F0F0_F0F0u64;
    assert forall|i: int| 0 <= i < 64 implies (covers(bm, i) <==> i % 8 < 4) by {
        lemma_half_block_masks(i);
    }
    lemma_half_block_masks(0);
    lemma_half_block_masks(4);
    assert forall|c: int| 0 <= c < 3 implies side_mean(cell, bm, true, c) == x[c] && side_error(
        cell,
        bm,
        true,
        c,
    ) == 0 && side_mean(cell, bm, false, c) == y[c] && side_error(cell, bm, false, c) == 0 by {
        assert forall|i: int| 0 <= i < 64 && covers(bm, i) == true implies alpha_at(cell, i) == 255
            && channel_at(cell, i, c) == x[c] by {
            assert(channel_at(cell, i, c) == x[c]);
        }
        lemma_uniform_side_is_exact(cell, bm, true, c, x[c] as int, 0);
        assert forall|i: int| 0 <= i < 64 && covers(bm, i) == false implies alpha_at(cell, i)
            == 255 && channel_at(cell, i, c) == y[c] by {
            assert(channel_at(cell, i, c) == y[c]);
        }
        lemma_uniform_side_is_exact(cell, bm, false, c, y[c] as int, 4);
    }
    lemma_opaque_alpha_error_zero(cell, 64);
    lemma_alpha_error_bounds(cell, bm, 64);
    lemma_side_error_bounds(cell, bm, true, 0);
    lemma_side_error_bounds(cell, bm, true, 1);
    lemma_side_error_bounds(cell, bm, true, 2);
    let sym = Symbol { codepoint, bitmap: bm };
    assert(opaque_error(cell, bm) == 0);
    assert(!edge_wins(cell, sym, edge_bias));
    broadcast use vstd::array::group_array_axioms;
    assert(side_colour(cell, bm, true) =~= x);
    assert(side_colour(cell, bm, false) =~= y);
}

/// Law: for every cell and symbol, the transparent-background variant is
/// drawn exactly when the foreground's colour error, plus 765 times the
/// alphas' squared distance from the symbol's mask, plus the bias, is below
/// both sides' colour error plus 765 times the alphas' squared distance from
/// full opacity; the foreground is the foreground side's colour either way,
/// and the background that of the background side unless transparent.
pub proof fn lemma_transparent_variant_rule(cell: Seq<u8>, sym: Symbol, edge_bias: u64)
    ensures
        symbol_choice(cell, sym, edge_bias).transparent_bg == 1 <==> side_error(cell, sym.bitmap, true, 0)
            + side_error(cell, sym.bitmap, true, 1) + side_error(cell, sym.bitmap, true, 2) + 765
            * edge_alpha_error(cell, sym.bitmap, 64) + edge_bias < side_error(cell, sym.bitmap, true, 0)
            + side_error(cell, sym.bitmap, true, 1) + side_error(cell, sym.bitmap, true, 2)
            + side_error(cell, sym.bitmap, false, 0) + side_error(cell, sym.bitmap, false, 1)
            + side_error(cell, sym.bitmap, false, 2) + 765 * opaque_alpha_error(cell, 64),
        symbol_choice(cell, sym, edge_bias).transparent_bg == 0 || symbol_choice(cell, sym, edge_bias).transparent_bg == 1,
        symbol_choice(cell, sym, edge_bias).codepoint == sym.codepoint,
        symbol_choice(cell, sym, edge_bias).fg == side_colour(cell, sym.bitmap, true),
        symbol_choice(cell, sym, edge_bias).bg == (if symbol_choice(cell, sym, edge_bias).transparent_bg == 1 {
            [0u8, 0u8, 0u8]
        } else {
            side_colour(cell, sym.bitmap, false)
        }),
{
}

} // verus!
