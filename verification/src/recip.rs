//! Reciprocal estimation on 32-bit floating-point bit patterns.
//!
//! The estimate-class operation works on the IEEE 754 single-precision
//! encoding directly: a lane's bit pattern is split into sign, exponent and
//! fraction, the significand is normalized, and the reciprocal's significand
//! is obtained by integer division. The result agrees with the true
//! reciprocal to well within the documented estimate tolerance of 0.05%
//! relative error for every normal input (see [`lemma_recip_tolerance`]).

use vstd::prelude::*;

verus! {

use vstd::arithmetic::div_mod::lemma_div_denominator;
use vstd::arithmetic::div_mod::lemma_fundamental_div_mod;
use vstd::arithmetic::div_mod::lemma_fundamental_div_mod_converse;
use vstd::arithmetic::power2::lemma_pow2_adds;
use vstd::arithmetic::power2::lemma_pow2_strictly_increases;
use vstd::arithmetic::power2::lemma2_to64;
use vstd::arithmetic::power2::pow2;
use crate::dispatch::Operation;
use crate::dispatch::PolyfillDispatcher;
use crate::shape::ScalarKind;
use crate::vector::PackedVector;

/// Sign bit of a single-precision bit pattern.
pub open spec fn f32_sign(x: nat) -> nat {
    (x / 0x80000000) % 2
}

/// Biased exponent field of a single-precision bit pattern.
pub open spec fn f32_exp(x: nat) -> nat {
    (x / 0x800000) % 256
}

/// Fraction field of a single-precision bit pattern.
pub open spec fn f32_frac(x: nat) -> nat {
    x % 0x800000
}

/// Assembles a bit pattern from its fields.
pub open spec fn f32_bits(sign: nat, exp: nat, frac: nat) -> nat {
    sign * 0x80000000 + exp * 0x800000 + frac
}

pub open spec fn f32_is_nan(x: nat) -> bool {
    f32_exp(x) == 255 && f32_frac(x) != 0
}

pub open spec fn f32_is_inf(x: nat) -> bool {
    f32_exp(x) == 255 && f32_frac(x) == 0
}

pub open spec fn f32_is_zero(x: nat) -> bool {
    f32_exp(x) == 0 && f32_frac(x) == 0
}

pub open spec fn f32_is_subnormal(x: nat) -> bool {
    f32_exp(x) == 0 && f32_frac(x) != 0
}

pub open spec fn f32_is_normal(x: nat) -> bool {
    1 <= f32_exp(x) <= 254
}

pub open spec fn f32_is_finite(x: nat) -> bool {
    f32_exp(x) < 255
}

/// The significand of a finite value: the fraction with the implicit
/// leading bit added for normal numbers. The encoded magnitude is
/// `f32_sig(x) * 2^(f32_eff_exp(x) - 150)`.
pub open spec fn f32_sig(x: nat) -> nat {
    if f32_exp(x) == 0 {
        f32_frac(x)
    } else {
        0x800000 + f32_frac(x)
    }
}

/// The effective biased exponent of a finite value: subnormals share the
/// exponent scale of the smallest normal binade.
pub open spec fn f32_eff_exp(x: nat) -> nat {
    if f32_exp(x) == 0 {
        1
    } else {
        f32_exp(x)
    }
}

/// How many doublings bring `m` up into `[2^23, 2^24)`.
pub open spec fn norm_steps(m: nat) -> nat
    decreases (if m < 0x800000 { (0x800000 - m) as nat } else { 0nat }),
{
    if m == 0 || m >= 0x800000 {
        0
    } else {
        1 + norm_steps(2 * m)
    }
}

/// The normalized significand of a finite non-zero value.
pub open spec fn norm_sig(x: nat) -> nat {
    f32_sig(x) * pow2(norm_steps(f32_sig(x)))
}

/// The biased exponent that goes with the normalized significand; it can
/// drop below 1 for subnormal inputs.
pub open spec fn norm_exp(x: nat) -> int {
    f32_eff_exp(x) - norm_steps(f32_sig(x))
}

/// Encodes a value `sig * 2^(eb - 150)` with `sig` in `[2^23, 2^24)`:
/// an ordinary normal number for `1 <= eb <= 254`, infinity when the
/// exponent overflows, and a subnormal (or zero) when it underflows.
pub open spec fn spec_encode(sign: nat, eb: int, sig: nat) -> nat {
    if eb >= 255 {
        f32_bits(sign, 255, 0)
    } else if eb >= 1 {
        f32_bits(sign, eb as nat, (sig - 0x800000) as nat)
    } else {
        f32_bits(sign, 0, sig / pow2((1 - eb) as nat))
    }
}

/// The reciprocal of a finite non-zero value given by its sign, normalized
/// significand `m` in `[2^23, 2^24)` and biased exponent `e`: a power of
/// two is inverted exactly; otherwise the reciprocal's significand is
/// `floor(2^47 / m)`, which again lies in `[2^23, 2^24)`.
pub open spec fn spec_recip_norm(sign: nat, m: nat, e: int) -> nat {
    if m == 0x800000 {
        spec_encode(sign, 254 - e, 0x800000)
    } else {
        spec_encode(sign, 253 - e, 0x800000000000nat / m)
    }
}

/// The reciprocal estimate of a single-precision bit pattern. Zero gives
/// infinity of the same sign, infinity gives zero of the same sign, and a
/// NaN input gives a quiet NaN of the same sign.
pub open spec fn spec_recip_bits(x: nat) -> nat {
    let s = f32_sign(x);
    if f32_is_nan(x) {
        f32_bits(s, 255, 0x400000)
    } else if f32_is_inf(x) {
        f32_bits(s, 0, 0)
    } else if f32_is_zero(x) {
        f32_bits(s, 255, 0)
    } else {
        spec_recip_norm(s, norm_sig(x), norm_exp(x))
    }
}

/// The distance between two naturals.
pub open spec fn dist(a: nat, b: nat) -> nat {
    if a >= b {
        (a - b) as nat
    } else {
        (b - a) as nat
    }
}

/// Splitting a bit pattern into fields and reassembling it is the identity,
/// and extracting the fields of an assembled pattern gives them back.
pub proof fn lemma_f32_bits_fields(sign: nat, exp: nat, frac: nat)
    requires
        sign <= 1,
        exp < 256,
        frac < 0x800000,
    ensures
        f32_sign(f32_bits(sign, exp, frac)) == sign,
        f32_exp(f32_bits(sign, exp, frac)) == exp,
        f32_frac(f32_bits(sign, exp, frac)) == frac,
        f32_bits(sign, exp, frac) < 0x100000000,
{
    let v = f32_bits(sign, exp, frac);
    assert(sign * 0x80000000 + exp * 0x800000 + frac == (sign * 256 + exp) * 0x800000 + frac)
        by (nonlinear_arith);
    lemma_fundamental_div_mod_converse(
        v as int,
        0x800000,
        (sign * 256 + exp) as int,
        frac as int,
    );
    assert(v / 0x800000 == sign * 256 + exp);
    lemma_fundamental_div_mod_converse(
        (sign * 256 + exp) as int,
        256,
        sign as int,
        exp as int,
    );
    assert(f32_exp(v) == exp);
    assert(sign * 0x80000000 + (exp * 0x800000 + frac) == v);
    assert(exp * 0x800000 + frac < 0x80000000) by (nonlinear_arith)
        requires
            exp < 256,
            frac < 0x800000,
    ;
    lemma_fundamental_div_mod_converse(
        v as int,
        0x80000000,
        sign as int,
        (exp * 0x800000 + frac) as int,
    );
    assert(v / 0x80000000 == sign);
    assert(f32_sign(v) == sign % 2);
}

/// Normalization lands in `[2^23, 2^24)` for any starting significand a
/// finite non-zero value can have.
pub proof fn lemma_norm_sig_bounds(m: nat)
    requires
        1 <= m < 0x1000000,
    ensures
        0x800000 <= m * pow2(norm_steps(m)) < 0x1000000,
    decreases (if m < 0x800000 { (0x800000 - m) as nat } else { 0nat }),
{
    if m >= 0x800000 {
        assert(pow2(0) == 1) by {
            lemma2_to64();
        }
        assert(norm_steps(m) == 0);
        assert(m * pow2(norm_steps(m)) == m * 1);
    } else {
        lemma_norm_sig_bounds(2 * m);
        lemma_pow2_adds(1, norm_steps(2 * m));
        assert(pow2(1) == 2) by {
            lemma2_to64();
        }
        assert(norm_steps(m) == 1 + norm_steps(2 * m));
        assert(pow2(norm_steps(m)) == 2 * pow2(norm_steps(2 * m)));
        assert(m * (2 * pow2(norm_steps(2 * m))) == (2 * m) * pow2(norm_steps(2 * m)))
            by (nonlinear_arith);
        assert(m * pow2(norm_steps(m)) == (2 * m) * pow2(norm_steps(2 * m)));
    }
}

/// Normalization never takes more than 23 doublings.
pub proof fn lemma_norm_steps_max(m: nat, k: nat)
    requires
        pow2(k) <= m,
        k <= 23,
    ensures
        norm_steps(m) <= 23 - k,
    decreases (if m < 0x800000 { (0x800000 - m) as nat } else { 0nat }),
{
    vstd::arithmetic::power2::lemma_pow2_pos(k);
    if m >= 0x800000 {
    } else {
        assert(pow2(23) == 0x800000) by {
            lemma2_to64();
        }
        if k == 23 {
            assert(false);
        }
        lemma_pow2_adds(1, k);
        assert(pow2(1) == 2) by {
            lemma2_to64();
        }
        lemma_norm_steps_max(2 * m, k + 1);
    }
}

/// Encodes `sig * 2^(eb - 150)` with `sig` in `[2^23, 2^24)` as a bit
/// pattern, handling exponent overflow and underflow.
fn encode(sign: u32, eb: i32, sig: u32) -> (r: u32)
    requires
        sign <= 1,
        -30 <= eb <= 300,
        0x800000 <= sig < 0x1000000,
    ensures
        r as nat == spec_encode(sign as nat, eb as int, sig as nat),
{
    if eb >= 255 {
        sign * 0x80000000 + 0x7F800000
    } else if eb >= 1 {
        proof {
            assert((eb as nat) * 0x800000 <= 254 * 0x800000) by (nonlinear_arith)
                requires
                    1 <= eb <= 254,
            ;
        }
        sign * 0x80000000 + (eb as u32) * 0x800000 + (sig - 0x800000)
    } else {
        let shift: u32 = (1 - eb) as u32;
        proof {
            assert(pow2(0) == 1) by {
                lemma2_to64();
            }
            assert((sig as nat) / pow2(0) == sig as nat / 1);
        }
        let mut d: u32 = sig;
        let mut k: u32 = 0;
        while k < shift
            invariant
                k <= shift,
                shift == 1 - eb,
                d == (sig as nat) / pow2(k as nat),
            decreases shift - k,
        {
            proof {
                vstd::arithmetic::power2::lemma_pow2_pos(k as nat);
                lemma_div_denominator(sig as int, pow2(k as nat) as int, 2);
                lemma_pow2_adds(k as nat, 1);
                assert(pow2(1) == 2) by {
                    lemma2_to64();
                }
            }
            d = d / 2;
            k = k + 1;
        }
        proof {
            assert(d < 0x800000) by {
                assert(pow2(1) == 2 && pow2(0) == 1) by {
                    lemma2_to64();
                }
                if shift > 1 {
                    lemma_pow2_strictly_increases(1, shift as nat);
                }
                assert(pow2(shift as nat) >= 2);
                assert((sig as nat) / pow2(shift as nat) <= (sig as nat) / 2) by {
                    vstd::arithmetic::div_mod::lemma_div_is_ordered_by_denominator(
                        sig as int,
                        2,
                        pow2(shift as nat) as int,
                    );
                }
            }
        }
        sign * 0x80000000 + d
    }
}

/// The reciprocal estimate of a single-precision bit pattern; the scalar
/// computation behind the vector-level estimate-class operation.
pub fn recip_bits(x: u32) -> (r: u32)
    ensures
        r as nat == spec_recip_bits(x as nat),
{
    let sign: u32 = (x / 0x80000000) % 2;
    let exp: u32 = (x / 0x800000) % 256;
    let frac: u32 = x % 0x800000;
    if exp == 255 {
        if frac != 0 {
            sign * 0x80000000 + 0x7F800000 + 0x400000
        } else {
            sign * 0x80000000
        }
    } else if exp == 0 && frac == 0 {
        sign * 0x80000000 + 0x7F800000
    } else {
        let mut m: u32 = if exp == 0 {
            frac
        } else {
            0x800000 + frac
        };
        let mut e: i32 = if exp == 0 {
            1
        } else {
            exp as i32
        };
        proof {
            assert(pow2(0) == 1) by {
                lemma2_to64();
            }
            assert(m as nat == f32_sig(x as nat));
            assert(e as int == f32_eff_exp(x as nat));
            lemma_norm_steps_max(m as nat, 0);
            assert(norm_exp(x as nat) >= -22);
        }
        while m < 0x800000
            invariant
                1 <= m < 0x1000000,
                (m as nat) * pow2(norm_steps(m as nat)) == norm_sig(x as nat),
                e - norm_steps(m as nat) == norm_exp(x as nat),
                e <= 254,
                norm_steps(m as nat) <= 23,
                norm_exp(x as nat) >= -22,
            decreases 0x1000000 - m,
        {
            proof {
                assert(norm_steps(m as nat) == 1 + norm_steps(2 * m as nat));
                lemma_pow2_adds(1, norm_steps(2 * m as nat));
                assert(pow2(1) == 2) by {
                    lemma2_to64();
                }
                assert((m as nat) * (2 * pow2(norm_steps(2 * m as nat))) == (2 * m as nat) * pow2(
                    norm_steps(2 * m as nat),
                )) by (nonlinear_arith);
            }
            m = m * 2;
            e = e - 1;
        }
        proof {
            assert(norm_steps(m as nat) == 0);
            assert(pow2(0) == 1) by {
                lemma2_to64();
            }
            assert((m as nat) * pow2(norm_steps(m as nat)) == (m as nat) * 1);
            assert(m as nat == norm_sig(x as nat));
            assert(e as int == norm_exp(x as nat));
        }
        if m == 0x800000 {
            encode(sign, 254 - e, 0x800000)
        } else {
            let q64: u64 = 0x800000000000u64 / (m as u64);
            proof {
                assert(q64 == 0x800000000000nat / (m as nat));
                lemma_recip_q_bounds(m as nat);
            }
            let q: u32 = q64 as u32;
            encode(sign, 253 - e, q)
        }
    }
}

/// An encoded value fits in 32 bits.
pub proof fn lemma_spec_encode_bound(s: nat, eb: int, sig: nat)
    requires
        s <= 1,
        0x800000 <= sig < 0x1000000,
    ensures
        spec_encode(s, eb, sig) < 0x100000000,
{
    if eb >= 255 {
    } else if eb >= 1 {
        assert((eb as nat) * 0x800000 <= 254 * 0x800000) by (nonlinear_arith)
            requires
                1 <= eb <= 254,
        ;
    } else {
        vstd::arithmetic::power2::lemma_pow2_pos((1 - eb) as nat);
        vstd::arithmetic::div_mod::lemma_div_nonincreasing(
            sig as int,
            pow2((1 - eb) as nat) as int,
        );
    }
}

/// Every reciprocal-estimate bit pattern fits in 32 bits.
pub proof fn lemma_spec_recip_bits_bound(x: nat)
    ensures
        spec_recip_bits(x) < 0x100000000,
{
    let s = f32_sign(x);
    assert(s <= 1);
    if f32_is_nan(x) {
    } else if f32_is_inf(x) {
    } else if f32_is_zero(x) {
    } else {
        assert(1 <= f32_sig(x) < 0x1000000);
        lemma_norm_sig_bounds(f32_sig(x));
        let m = norm_sig(x);
        let e = norm_exp(x);
        if m == 0x800000 {
            lemma_spec_encode_bound(s, 254 - e, 0x800000);
        } else {
            lemma_recip_q_bounds(m);
            lemma_spec_encode_bound(s, 253 - e, 0x800000000000nat / m);
        }
    }
}

/// The reciprocal-estimate operation on vectors of 4-byte float lanes.
pub trait Recip {
    /// Returns a vector whose every lane holds an estimate of the
    /// reciprocal of the corresponding lane of `v`, lane order preserved.
    fn recip(&self, v: &PackedVector) -> (r: PackedVector)
        requires
            v.wf(),
            v.shape().kind == ScalarKind::Float,
            v.shape().lane_width == 4,
        ensures
            r.wf(),
            r.shape() == v.shape(),
            forall|i: int|
                0 <= i < v.shape().lane_count ==> r.lane(i) == spec_recip_bits(v.lane(i)),
    ;
}

impl Recip for PolyfillDispatcher {
    fn recip(&self, v: &PackedVector) -> (r: PackedVector) {
        self.apply(Operation::RecipEstimate, v)
    }
}

/// The reciprocal significand `floor(2^47 / m)` of a normalized
/// significand that is not a power of two lies in `[2^23, 2^24)` again.
pub proof fn lemma_recip_q_bounds(m: nat)
    requires
        0x800000 < m < 0x1000000,
    ensures
        0x800000 <= 0x800000000000nat / m < 0x1000000,
{
    let q = 0x800000000000nat / m;
    lemma_fundamental_div_mod(0x800000000000, m as int);
    let rem = 0x800000000000nat % m;
    assert(0x800000000000 == m * q + rem);
    assert(q < 0x1000000) by (nonlinear_arith)
        requires
            m * q <= 0x800000000000,
            m >= 0x800001,
            q >= 0,
    ;
    assert(q >= 0x800000) by (nonlinear_arith)
        requires
            m * q + rem == 0x800000000000,
            rem < m,
            m < 0x1000000,
            q >= 0,
    ;
}

/// For a normal input the estimate never overflows: the reciprocal of a
/// normal magnitude is at most `2^127`, which the encoding still holds as
/// a finite value. Together with [`lemma_recip_tolerance`] this gives the
/// tolerance bound on every normal input outright.
pub proof fn lemma_recip_of_normal_is_finite(x: nat)
    requires
        f32_is_normal(x),
    ensures
        !f32_is_nan(x),
        !f32_is_inf(x),
        !f32_is_zero(x),
        f32_is_finite(spec_recip_bits(x)),
{
    let s = f32_sign(x);
    let m = f32_sig(x);
    assert(s <= 1);
    assert(norm_steps(m) == 0);
    assert(pow2(0) == 1 && pow2(1) == 2 && pow2(2) == 4) by {
        lemma2_to64();
    }
    assert(m * pow2(norm_steps(m)) == m * 1);
    assert(norm_sig(x) == m);
    let e = norm_exp(x);
    assert(e == f32_exp(x));
    assert(1 <= e <= 254);
    let r = spec_recip_bits(x);
    if m == 0x800000 {
        let eb = 254 - e;
        assert(r == spec_encode(s, eb, 0x800000));
        if eb >= 1 {
            lemma_f32_bits_fields(s, eb as nat, 0);
        } else {
            assert(r == f32_bits(s, 0, 0x800000nat / pow2(1)));
            lemma_f32_bits_fields(s, 0, 0x400000);
        }
    } else {
        lemma_recip_q_bounds(m);
        let q = 0x800000000000nat / m;
        let eb = 253 - e;
        assert(r == spec_encode(s, eb, q));
        if eb >= 1 {
            lemma_f32_bits_fields(s, eb as nat, (q - 0x800000) as nat);
        } else if eb == 0 {
            lemma_f32_bits_fields(s, 0, q / pow2(1));
        } else {
            assert(eb == -1);
            lemma_f32_bits_fields(s, 0, q / pow2(2));
        }
    }
}

/// **Tolerance bound.** For every finite non-zero input whose estimate
/// does not overflow to infinity — every normal input, and every subnormal
/// input whose true reciprocal is still representable — the reciprocal
/// estimate is finite and non-zero, keeps the sign, and agrees with the
/// true reciprocal to better than 1/2000 (0.05%) relative error. (For the
/// remaining subnormal inputs the true reciprocal itself exceeds the
/// largest finite value, so no finite answer satisfies any relative
/// bound.)
///
/// The magnitude encoded by a finite pattern `v` is
/// `f32_sig(v) * 2^(f32_eff_exp(v) - 150)`, so with `t` as below the
/// product `x * recip(x)` equals `p / 2^t`; the bound says
/// `|x * recip(x) - 1| < 1/2000`, which is exactly a relative error below
/// 0.05% against the true reciprocal `1/x`.
pub proof fn lemma_recip_tolerance(x: nat)
    requires
        !f32_is_nan(x),
        !f32_is_inf(x),
        !f32_is_zero(x),
        f32_is_finite(spec_recip_bits(x)),
    ensures
        ({
            let r = spec_recip_bits(x);
            let t = (300 - f32_eff_exp(x) - f32_eff_exp(r)) as nat;
            let p = f32_sig(x) * f32_sig(r);
            &&& f32_sign(r) == f32_sign(x)
            &&& f32_is_finite(r)
            &&& f32_sig(r) > 0
            &&& f32_eff_exp(x) + f32_eff_exp(r) < 300
            &&& 2000 * dist(p, pow2(t)) < pow2(t)
        }),
{
    let s = f32_sign(x);
    let mr = f32_sig(x);
    let steps = norm_steps(mr);
    let m = norm_sig(x);
    let e = norm_exp(x);
    let eff = f32_eff_exp(x);
    assert(s <= 1);
    assert(1 <= mr < 0x1000000);
    lemma_norm_sig_bounds(mr);
    assert(pow2(0) == 1) by {
        lemma2_to64();
    }
    lemma_norm_steps_max(mr, 0);
    assert(0x800000 <= m < 0x1000000);
    assert(m == mr * pow2(steps));
    assert(e == eff - steps);
    assert(eff <= 254);
    if f32_exp(x) != 0 {
        assert(steps == 0);
    } else {
        assert(eff == 1);
    }
    let r = spec_recip_bits(x);
    assert(r == spec_recip_norm(s, m, e));
    assert(pow2(45) == 0x200000000000 && pow2(46) == 0x400000000000 && pow2(47)
        == 0x800000000000 && pow2(22) == 0x400000 && pow2(23) == 0x800000 && pow2(24)
        == 0x1000000 && pow2(1) == 2 && pow2(2) == 4) by {
        lemma2_to64();
        vstd::arithmetic::power2::lemma2_to64_rest();
    }
    if m == 0x800000 {
        let eb = 254 - e;
        assert(r == spec_encode(s, eb, 0x800000));
        if eb >= 255 {
            lemma_f32_bits_fields(s, 255, 0);
            assert(false);
        }
        if eb >= 1 {
            lemma_f32_bits_fields(s, eb as nat, 0);
            assert(f32_sig(r) == 0x800000);
            assert(f32_eff_exp(r) == eb);
            let t = (300 - eff - f32_eff_exp(r)) as nat;
            assert(t == 46 - steps);
            let p = mr * 0x800000nat;
            assert(p * pow2(steps) == pow2(46)) by (nonlinear_arith)
                requires
                    mr * pow2(steps) == 0x800000nat,
                    p == mr * 0x800000nat,
                    pow2(46) == 0x400000000000,
            ;
            lemma_pow2_adds((46 - steps) as nat, steps);
            assert(pow2((46 - steps) as nat) * pow2(steps) == pow2(46));
            vstd::arithmetic::power2::lemma_pow2_pos(steps);
            assert(p == pow2((46 - steps) as nat)) by (nonlinear_arith)
                requires
                    p * pow2(steps) == pow2((46 - steps) as nat) * pow2(steps),
                    pow2(steps) >= 1,
            ;
            assert(dist(p, pow2(t)) == 0);
        } else {
            assert(e == 254);
            assert(steps == 0);
            assert(mr == m);
            assert(r == f32_bits(s, 0, 0x800000nat / pow2(1)));
            lemma_f32_bits_fields(s, 0, 0x400000);
            assert(f32_sig(r) == 0x400000);
            assert(f32_eff_exp(r) == 1);
            assert(f32_sig(x) * f32_sig(r) == pow2(45)) by (nonlinear_arith)
                requires
                    f32_sig(x) == 0x800000,
                    f32_sig(r) == 0x400000,
                    pow2(45) == 0x200000000000,
            ;
        }
    } else {
        let q = 0x800000000000nat / m;
        let eb = 253 - e;
        lemma_fundamental_div_mod(0x800000000000, m as int);
        let rem = 0x800000000000nat % m;
        assert(0x800000000000 == m * q + rem);
        lemma_recip_q_bounds(m);
        assert(r == spec_encode(s, eb, q));
        if eb >= 255 {
            lemma_f32_bits_fields(s, 255, 0);
            assert(false);
        }
        if eb >= 1 {
            lemma_f32_bits_fields(s, eb as nat, (q - 0x800000) as nat);
            assert(f32_sig(r) == q);
            assert(f32_eff_exp(r) == eb);
            let t = (300 - eff - f32_eff_exp(r)) as nat;
            assert(t == 47 - steps);
            let p = mr * q;
            assert(p * pow2(steps) == m * q) by (nonlinear_arith)
                requires
                    m == mr * pow2(steps),
                    p == mr * q,
            ;
            lemma_pow2_adds((47 - steps) as nat, steps);
            let xx = pow2((47 - steps) as nat);
            assert(xx * pow2(steps) == pow2(47));
            vstd::arithmetic::power2::lemma_pow2_pos(steps);
            assert(p <= xx) by (nonlinear_arith)
                requires
                    p * pow2(steps) <= xx * pow2(steps),
                    pow2(steps) >= 1,
            ;
            assert(p * pow2(steps) + rem == xx * pow2(steps));
            assert((xx - p) * pow2(steps) == rem) by (nonlinear_arith)
                requires
                    p * pow2(steps) + rem == xx * pow2(steps),
                    p <= xx,
            ;
            assert(2000 * rem < pow2(47)) by (nonlinear_arith)
                requires
                    rem < 0x1000000,
                    pow2(47) == 0x800000000000,
            ;
            assert(2000 * (xx - p) * pow2(steps) < xx * pow2(steps)) by (nonlinear_arith)
                requires
                    (xx - p) * pow2(steps) == rem,
                    2000 * rem < pow2(47),
                    xx * pow2(steps) == pow2(47),
                    p <= xx,
            ;
            assert(2000 * (xx - p) < xx) by (nonlinear_arith)
                requires
                    2000 * (xx - p) * pow2(steps) < xx * pow2(steps),
                    pow2(steps) >= 1,
                    p <= xx,
            ;
            assert(dist(p, xx) == xx - p);
        } else if eb == 0 {
            assert(e == 253);
            if steps >= 1 {
                assert(eff == e + steps);
                assert(eff == 254);
                assert(f32_exp(x) == 254);
                assert(false);
            }
            assert(steps == 0);
            assert(mr == m);
            let q2 = q / pow2(1);
            assert(r == f32_bits(s, 0, q2));
            assert(q2 < 0x800000);
            assert(q2 >= 0x400000);
            lemma_f32_bits_fields(s, 0, q2);
            assert(f32_sig(r) == q2);
            assert(f32_eff_exp(r) == 1);
            let t = (300 - f32_eff_exp(x) - f32_eff_exp(r)) as nat;
            assert(t == 46);
            lemma_fundamental_div_mod(q as int, 2);
            assert(q == 2 * q2 + q % 2);
            assert(m * q == 2 * (m * q2) + m * (q % 2)) by (nonlinear_arith)
                requires
                    q == 2 * q2 + q % 2,
            ;
            assert(m * (q % 2) <= m) by (nonlinear_arith)
                requires
                    q % 2 <= 1,
                    m >= 0,
            ;
            assert(dist(m * q2, pow2(46)) < m);
            assert(2000 * dist(m * q2, pow2(46)) < 2000 * 0x1000000) by (nonlinear_arith)
                requires
                    dist(m * q2, pow2(46)) < 0x1000000,
            ;
        } else {
            assert(eb == -1);
            assert(e == 254);
            if steps >= 1 {
                assert(eff == e + steps);
                assert(eff >= 255);
                assert(false);
            }
            assert(steps == 0);
            assert(mr == m);
            let q4 = q / pow2(2);
            assert(r == f32_bits(s, 0, q4));
            assert(q4 < 0x400000);
            assert(q4 >= 0x200000);
            lemma_f32_bits_fields(s, 0, q4);
            assert(f32_sig(r) == q4);
            assert(f32_eff_exp(r) == 1);
            let t = (300 - f32_eff_exp(x) - f32_eff_exp(r)) as nat;
            assert(t == 45);
            lemma_fundamental_div_mod(q as int, 4);
            assert(q == 4 * q4 + q % 4);
            assert(m * q == 4 * (m * q4) + m * (q % 4)) by (nonlinear_arith)
                requires
                    q == 4 * q4 + q % 4,
            ;
            assert(m * (q % 4) <= 3 * m) by (nonlinear_arith)
                requires
                    q % 4 <= 3,
                    m >= 0,
            ;
            assert(dist(m * q4, pow2(45)) < m);
            assert(2000 * dist(m * q4, pow2(45)) < 2000 * 0x1000000) by (nonlinear_arith)
                requires
                    dist(m * q4, pow2(45)) < 0x1000000,
            ;
        }
    }
}

} // verus!
