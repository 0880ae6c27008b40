//! Fixed-point conventions and the integer helpers the other modules share.

use vstd::arithmetic::div_mod::lemma_fundamental_div_mod_converse;
use vstd::prelude::*;

verus! {

/// One whole in the scale of fractions: blend factors, light weights and
/// field samples are counted in thousandths.
pub const UNIT: i32 = 1000;

/// Screen positions are counted in this many parts of a pixel.
pub const SUBPIXEL: i32 = 256;

/// `v` limited to the range from `lo` to `hi`.
pub open spec fn clamp(v: int, lo: int, hi: int) -> int {
    if v < lo {
        lo
    } else if v > hi {
        hi
    } else {
        v
    }
}

/// For a negative dividend the floor quotient is one less than the negated
/// quotient of the mirrored dividend.
pub proof fn lemma_floor_div_negative(n: int, d: int)
    requires
        n < 0,
        d > 0,
    ensures
        n / d == -((-(n + 1)) / d) - 1,
{
    let m = -(n + 1);
    let q = m / d;
    let r = m % d;
    vstd::arithmetic::div_mod::lemma_fundamental_div_mod(m, d);
    assert(n == (-q - 1) * d + (d - r - 1)) by (nonlinear_arith)
        requires
            m == d * q + r,
            n == -m - 1,
    ;
    lemma_fundamental_div_mod_converse(n, d, -q - 1, d - r - 1);
}

/// Quotient rounded toward minus infinity, which is what `/` means in
/// contracts.
pub fn floor_div(n: i128, d: i128) -> (q: i128)
    requires
        d > 0,
    ensures
        q == n / d,
{
    if n >= 0 {
        n / d
    } else {
        proof {
            lemma_floor_div_negative(n as int, d as int);
        }
        let m: i128 = -(n + 1);
        let q: i128 = m / d;
        -q - 1
    }
}

/// `v` limited to the range from `lo` to `hi`.
pub fn clamp_to(v: i128, lo: i128, hi: i128) -> (c: i128)
    ensures
        c == clamp(v as int, lo as int, hi as int),
{
    if v < lo {
        lo
    } else if v > hi {
        hi
    } else {
        v
    }
}

} // verus!
