//! The fixed-point formats that carry samples and gains, and the scaling
//! operation everything else is built on.

use vstd::prelude::*;

verus! {

/// One full-scale sample step: a sample value `v` stands for `v / AMP_UNIT`
/// of full scale.
pub const AMP_UNIT: i64 = 32768;

/// Largest magnitude a decoded input sample may carry (32 times full scale,
/// so that decoder overshoot never has to be clipped on the way in).
pub const SAMPLE_PEAK: i32 = 1048576;

/// Gains are carried in thousandths; `GAIN_UNIT` is unity gain.
pub const GAIN_UNIT: u32 = 1000;

/// Headroom applied to every mixed block: `HEADROOM_NUM / HEADROOM_DEN`.
pub const HEADROOM_NUM: u32 = 4;
pub const HEADROOM_DEN: u32 = 5;

/// How many tracks one mix may hold; keeps every mixing sum inside `i64`.
pub const MAX_TRACKS: usize = 4096;

/// `v * num / den` with the quotient truncated toward zero, exactly as
/// Rust's integer division behaves on a signed numerator.
pub open spec fn scale_trunc(v: int, num: int, den: int) -> int
    recommends
        den > 0,
        num >= 0,
{
    if v >= 0 {
        (v * num) / den
    } else {
        -(((-v) * num) / den)
    }
}

/// The scaled value never grows past the scaling of the magnitude bound.
pub proof fn lemma_scale_trunc_bound(v: int, num: int, den: int, cap: int)
    requires
        den > 0,
        num >= 0,
        -cap <= v <= cap,
        0 <= cap,
    ensures
        -scale_trunc(cap, num, den) <= scale_trunc(v, num, den) <= scale_trunc(cap, num, den),
{
    if v >= 0 {
        assert((v * num) / den <= (cap * num) / den && (v * num) / den >= 0) by (nonlinear_arith)
            requires
                den > 0,
                num >= 0,
                0 <= v <= cap,
        ;
    } else {
        assert(((-v) * num) / den <= (cap * num) / den && ((-v) * num) / den >= 0)
            by (nonlinear_arith)
            requires
                den > 0,
                num >= 0,
                0 < -v <= cap,
        ;
    }
}

/// Scaling by a factor of at most one keeps the value between zero and the
/// value itself.
pub proof fn lemma_scale_trunc_shrinks(v: int, num: int, den: int)
    requires
        den > 0,
        0 <= num <= den,
    ensures
        v >= 0 ==> 0 <= scale_trunc(v, num, den) <= v,
        v < 0 ==> v <= scale_trunc(v, num, den) <= 0,
{
    if v >= 0 {
        assert((v * num) / den <= v && (v * num) / den >= 0) by (nonlinear_arith)
            requires
                den > 0,
                0 <= num <= den,
                v >= 0,
        ;
    } else {
        assert(((-v) * num) / den <= -v && ((-v) * num) / den >= 0) by (nonlinear_arith)
            requires
                den > 0,
                0 <= num <= den,
                v < 0,
        ;
    }
}

/// Scaling by exactly one changes nothing.
pub proof fn lemma_scale_trunc_unity(v: int, den: int)
    requires
        den > 0,
    ensures
        scale_trunc(v, den, den) == v,
{
    if v >= 0 {
        assert((v * den) / den == v) by (nonlinear_arith)
            requires
                den > 0,
                v >= 0,
        ;
    } else {
        assert(((-v) * den) / den == -v) by (nonlinear_arith)
            requires
                den > 0,
                v < 0,
        ;
    }
}

/// Scaling by a zero numerator yields zero.
pub proof fn lemma_scale_trunc_zero_num(v: int, den: int)
    requires
        den > 0,
    ensures
        scale_trunc(v, 0, den) == 0,
{
    vstd::arithmetic::div_mod::lemma_div_basics(den);
    if v >= 0 {
        assert(v * 0 == 0);
    } else {
        assert((-v) * 0 == 0);
    }
}

/// The magnitude of an integer, for stating symmetric bounds.
pub open spec fn abs_of(v: int) -> int {
    if v >= 0 {
        v
    } else {
        -v
    }
}

/// `v * num / den`, truncated toward zero, on machine integers.
pub fn scale_trunc_i64(v: i64, num: u32, den: u32) -> (r: i64)
    requires
        den > 0,
        abs_of(v as int) <= 0x4000_0000_0000_0000,
        abs_of(v as int) * (num as int) <= 0x4000_0000_0000_0000,
    ensures
        r == scale_trunc(v as int, num as int, den as int),
{
    if v >= 0 {
        let q: u128 = ((v as u128) * (num as u128)) / (den as u128);
        proof {
            assert((v as int * num as int) / (den as int) <= v as int * num as int)
                by (nonlinear_arith)
                requires
                    den as int > 0,
                    v >= 0,
                    num >= 0,
            ;
        }
        q as i64
    } else {
        let m: i64 = -v;
        let q: u128 = ((m as u128) * (num as u128)) / (den as u128);
        proof {
            assert((m as int * num as int) / (den as int) <= m as int * num as int)
                by (nonlinear_arith)
                requires
                    den as int > 0,
                    m >= 0,
                    num >= 0,
            ;
        }
        let qi: i64 = q as i64;
        -qi
    }
}

} // verus!
