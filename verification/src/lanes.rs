//! Lane values: a lane's bytes read as a little-endian integer, the bytes of
//! such an integer, and the per-lane scalar byte reversal that the fallback
//! path applies.

use vstd::prelude::*;

verus! {

use vstd::arithmetic::div_mod::lemma_div_denominator;
use vstd::arithmetic::div_mod::lemma_fundamental_div_mod_converse;
use vstd::arithmetic::div_mod::lemma_mod_breakdown;
use vstd::arithmetic::power2::lemma_pow2_adds;
use vstd::arithmetic::power2::lemma_pow2_pos;
use vstd::arithmetic::power2::lemma_pow2_strictly_increases;
use vstd::arithmetic::power2::lemma2_to64;
use vstd::arithmetic::power2::pow2;

/// The value of a byte string read as a little-endian integer: the byte at
/// index `k` carries weight 256^k.
pub open spec fn le_val(s: Seq<u8>) -> nat
    decreases s.len(),
{
    if s.len() == 0 {
        0
    } else {
        s[0] as nat + 256 * le_val(s.skip(1))
    }
}

/// Byte `k` of the little-endian representation of `v`.
pub open spec fn byte_of(v: nat, k: nat) -> nat {
    (v / pow2(8 * k)) % 256
}

/// The value whose low `w` bytes are the low `w` bytes of `v` in reverse
/// order. Bytes of `v` at or above index `w` are ignored.
pub open spec fn lane_swapped(v: nat, w: nat) -> nat
    decreases w,
{
    if w == 0 {
        0
    } else {
        byte_of(v, (w - 1) as nat) + 256 * lane_swapped(v, (w - 1) as nat)
    }
}

/// Reading byte `k` back out of a little-endian value gives the original
/// byte of the string.
pub proof fn lemma_le_val_byte(s: Seq<u8>, k: nat)
    requires
        k < s.len(),
    ensures
        byte_of(le_val(s), k) == s[k as int] as nat,
    decreases k,
{
    let v = le_val(s);
    let rest = le_val(s.skip(1));
    lemma_fundamental_div_mod_converse(v as int, 256, rest as int, s[0] as int);
    if k == 0 {
        assert(pow2(0) == 1) by {
            lemma2_to64();
        }
        assert(v / pow2(8 * k) == v / 1);
        assert(v % 256 == s[0] as nat);
    } else {
        assert(v / 256 == rest);
        lemma_pow2_pos(8 * (k - 1) as nat);
        lemma_div_denominator(v as int, 256, pow2(8 * (k - 1) as nat) as int);
        lemma_pow2_adds(8, 8 * (k - 1) as nat);
        assert(pow2(8) == 256) by {
            lemma2_to64();
        }
        assert(v / pow2(8 * k) == rest / pow2(8 * (k - 1) as nat));
        lemma_le_val_byte(s.skip(1), (k - 1) as nat);
        assert(s.skip(1)[k - 1] == s[k as int]);
    }
}

/// A reversed lane value fits in `w` bytes.
pub proof fn lemma_lane_swapped_bound(v: nat, w: nat)
    ensures
        lane_swapped(v, w) < pow2(8 * w),
    decreases w,
{
    if w == 0 {
        assert(pow2(0) == 1) by {
            lemma2_to64();
        }
    } else {
        lemma_lane_swapped_bound(v, (w - 1) as nat);
        lemma_pow2_adds(8, 8 * (w - 1) as nat);
        assert(pow2(8) == 256) by {
            lemma2_to64();
        }
        assert(256 * lane_swapped(v, (w - 1) as nat) <= 256 * (pow2(8 * (w - 1) as nat) - 1))
            by (nonlinear_arith)
            requires
                lane_swapped(v, (w - 1) as nat) <= pow2(8 * (w - 1) as nat) - 1,
        ;
    }
}

/// Byte `j` of the reversed lane value is byte `w - 1 - j` of the original.
pub proof fn lemma_lane_swapped_byte(v: nat, w: nat, j: nat)
    requires
        j < w,
    ensures
        byte_of(lane_swapped(v, w), j) == byte_of(v, (w - 1 - j) as nat),
    decreases j,
{
    let b = byte_of(v, (w - 1) as nat);
    let low = lane_swapped(v, (w - 1) as nat);
    let x = lane_swapped(v, w);
    assert(b < 256);
    lemma_fundamental_div_mod_converse(x as int, 256, low as int, b as int);
    if j == 0 {
        assert(pow2(0) == 1) by {
            lemma2_to64();
        }
        assert(x / pow2(8 * j) == x / 1);
        assert(x % 256 == b);
    } else {
        assert(x / 256 == low);
        lemma_pow2_pos(8 * (j - 1) as nat);
        lemma_div_denominator(x as int, 256, pow2(8 * (j - 1) as nat) as int);
        lemma_pow2_adds(8, 8 * (j - 1) as nat);
        assert(pow2(8) == 256) by {
            lemma2_to64();
        }
        assert(x / pow2(8 * j) == low / pow2(8 * (j - 1) as nat));
        lemma_lane_swapped_byte(v, (w - 1) as nat, (j - 1) as nat);
    }
}

/// Reassembling the low `w` bytes of `v` gives back `v` modulo 256^w.
pub proof fn lemma_le_val_of_bytes(v: nat, w: nat)
    ensures
        le_val(Seq::new(w, |o: int| byte_of(v, o as nat) as u8)) == v % pow2(8 * w),
    decreases w,
{
    let s = Seq::new(w, |o: int| byte_of(v, o as nat) as u8);
    if w == 0 {
        assert(pow2(0) == 1) by {
            lemma2_to64();
        }
    } else {
        let d = v / 256;
        lemma_le_val_of_bytes(d, (w - 1) as nat);
        let t = Seq::new((w - 1) as nat, |o: int| byte_of(d, o as nat) as u8);
        assert forall|o: int| 0 <= o < w - 1 implies s.skip(1)[o] == t[o] by {
            lemma_pow2_pos(8 * o as nat);
            lemma_div_denominator(v as int, 256, pow2(8 * o as nat) as int);
            lemma_pow2_adds(8, 8 * o as nat);
            assert(pow2(8) == 256) by {
                lemma2_to64();
            }
            assert(byte_of(v, (o + 1) as nat) == byte_of(d, o as nat));
        }
        assert(s.skip(1) =~= t);
        assert(pow2(0) == 1 && pow2(8) == 256) by {
            lemma2_to64();
        }
        assert(s[0] as nat == v % 256);
        lemma_pow2_pos(8 * (w - 1) as nat);
        lemma_mod_breakdown(v as int, 256, pow2(8 * (w - 1) as nat) as int);
        lemma_pow2_adds(8, 8 * (w - 1) as nat);
        assert(le_val(s) == v % 256 + 256 * (d % pow2(8 * (w - 1) as nat)));
        assert(v % pow2(8 * w) == 256 * (d % pow2(8 * (w - 1) as nat)) + v % 256);
    }
}

/// Reverses the order of the low `w` bytes of `v`. This is the scalar
/// byte-order swap that the fallback path applies to each lane value
/// independently. Bytes of `v` at or above index `w` are ignored.
pub fn swap_lane_value(v: u64, w: usize) -> (r: u64)
    requires
        1 <= w <= 8,
    ensures
        r == lane_swapped(v as nat, w as nat),
        r < pow2(8 * w as nat),
{
    let mut r: u64 = 0;
    let mut x: u64 = v;
    let mut k: usize = 0;
    proof {
        assert(pow2(0) == 1) by {
            lemma2_to64();
        }
        assert((v as nat) / pow2(8 * 0) == (v as nat) / 1);
    }
    while k < w
        invariant
            k <= w <= 8,
            x == (v as nat) / pow2(8 * k as nat),
            r == lane_swapped(v as nat, k as nat),
            r < pow2(8 * k as nat),
        decreases w - k,
    {
        let b: u64 = x % 256;
        proof {
            assert(b == byte_of(v as nat, k as nat));
            lemma_pow2_adds(8 * k as nat, 8);
            assert(pow2(8) == 256) by {
                lemma2_to64();
            }
            if 8 * (k + 1) < 64 {
                lemma_pow2_strictly_increases(8 * (k + 1) as nat, 64);
            }
            assert(pow2(64) == 0x10000000000000000) by {
                lemma2_to64();
            }
            assert(r * 256 + b < pow2(8 * (k + 1) as nat));
            assert(lane_swapped(v as nat, (k + 1) as nat) == byte_of(v as nat, k as nat) + 256
                * lane_swapped(v as nat, k as nat));
            lemma_pow2_pos(8 * k as nat);
            lemma_div_denominator(v as int, pow2(8 * k as nat) as int, 256);
            assert(x / 256 == (v as nat) / pow2(8 * (k + 1) as nat));
        }
        r = r * 256 + b;
        x = x / 256;
        k = k + 1;
    }
    r
}

} // verus!
