//! RGB colors and the integer error measure that orders chromosomes.

use vstd::prelude::*;

verus! {

/// One color with 8-bit channels.
#[derive(Clone, Copy, PartialEq, Eq, Structural, Debug)]
pub struct Rgb {
    pub r: u8,
    pub g: u8,
    pub b: u8,
}

/// Squared difference of two channel values.
pub open spec fn sq_diff(a: int, b: int) -> int {
    (a - b) * (a - b)
}

/// Sum of squared channel differences between two colors.
///
/// The fitness `exp(-RMSE / 50)` (doubled when RMSE is strictly below 1)
/// is strictly decreasing in this sum, so comparing errors compares
/// fitness exactly, with the smaller error the fitter color.
pub open spec fn sq_err(a: Rgb, b: Rgb) -> int {
    sq_diff(a.r as int, b.r as int) + sq_diff(a.g as int, b.g as int) + sq_diff(
        a.b as int,
        b.b as int,
    )
}

/// The largest value `sq_err` can take: three channels, each off by 255.
pub proof fn lemma_sq_err_bounds(a: Rgb, b: Rgb)
    ensures
        0 <= sq_err(a, b) <= 195075,
        sq_err(a, b) == 0 <==> a == b,
{
    lemma_sq_diff_bounds(a.r as int, b.r as int);
    lemma_sq_diff_bounds(a.g as int, b.g as int);
    lemma_sq_diff_bounds(a.b as int, b.b as int);
}

proof fn lemma_sq_diff_bounds(a: int, b: int)
    requires
        0 <= a <= 255,
        0 <= b <= 255,
    ensures
        0 <= sq_diff(a, b) <= 65025,
        sq_diff(a, b) == 0 <==> a == b,
{
    assert((a - b) * (a - b) <= 65025 && (a - b) * (a - b) >= 0 && ((a - b) * (a - b) == 0 <==> a
        == b)) by (nonlinear_arith)
        requires
            -255 <= a - b <= 255,
    ;
}

/// RMSE is strictly below 1 exactly when the squared-error sum is below 3,
/// so this is the region of the exact-match fitness bonus; a sum of exactly
/// 3 means RMSE is exactly 1 and gets no bonus.
pub open spec fn bonus_region(e: int) -> bool {
    e < 3
}

/// Computes the squared-error sum between two colors.
pub fn sq_err_exec(a: Rgb, b: Rgb) -> (e: u32)
    ensures
        e as int == sq_err(a, b),
{
    let dr = (a.r as i32) - (b.r as i32);
    let dg = (a.g as i32) - (b.g as i32);
    let db = (a.b as i32) - (b.b as i32);
    proof {
        assert(0 <= dr * dr <= 65025) by (nonlinear_arith)
            requires
                -255 <= dr <= 255,
        ;
        assert(0 <= dg * dg <= 65025) by (nonlinear_arith)
            requires
                -255 <= dg <= 255,
        ;
        assert(0 <= db * db <= 65025) by (nonlinear_arith)
            requires
                -255 <= db <= 255,
        ;
    }
    (dr * dr + dg * dg + db * db) as u32
}

} // verus!
