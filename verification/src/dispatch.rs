//! The polyfill dispatcher: ranked capability tiers, compile-time-style
//! selection from a fixed feature configuration, the always-available scalar
//! fallback, and the proofs that every implementation path of an operation
//! agrees with every other.

use vstd::prelude::*;

verus! {

use vstd::arithmetic::div_mod::lemma_fundamental_div_mod;
use vstd::arithmetic::div_mod::lemma_fundamental_div_mod_converse;
use vstd::arithmetic::div_mod::lemma_mod_multiples_basic;
use vstd::arithmetic::div_mod::lemma_small_mod;
use vstd::arithmetic::mul::lemma_mul_inequality;
use vstd::arithmetic::power2::lemma2_to64;
use vstd::arithmetic::power2::pow2;
use crate::endian::ByteOrder;
use crate::lanes::byte_of;
use crate::lanes::lane_swapped;
use crate::lanes::le_val;
use crate::lanes::lemma_lane_swapped_bound;
use crate::lanes::lemma_lane_swapped_byte;
use crate::lanes::lemma_le_val_byte;
use crate::lanes::lemma_le_val_of_bytes;
use crate::lanes::swap_lane_value;
use crate::mask::apply_mask;
use crate::mask::build_swap_mask;
use crate::mask::lemma_swap_source_in_range;
use crate::mask::lemma_swap_source_involution;
use crate::mask::lemma_swap_source_identity;
use crate::mask::swap_source;
use crate::recip::lemma_spec_recip_bits_bound;
use crate::recip::recip_bits;
use crate::recip::spec_recip_bits;
use crate::shape::ScalarKind;
use crate::shape::VectorShape;
use crate::vector::from_raw;
use crate::vector::raw_bytes;
use crate::vector::PackedVector;

/// Which capability tiers' required hardware feature flags the build
/// configuration reports as present. The flags are fixed before any
/// operation runs and never probed again.
#[derive(Clone, Copy, PartialEq, Eq, Structural, Debug)]
pub struct FeatureSet {
    pub baseline_shuffle: bool,
    pub wide_shuffle: bool,
    pub very_wide_permute: bool,
}

/// The ranked capability tiers. Each accelerated tier is gated by one
/// feature flag and accelerates exactly one register width; the scalar
/// fallback is always available.
#[derive(Clone, Copy, PartialEq, Eq, Structural, Debug)]
pub enum CapabilityTier {
    VeryWidePermute,
    WideShuffle,
    BaselineShuffle,
    ScalarFallback,
}

/// The operations the dispatcher can bind.
#[derive(Clone, Copy, PartialEq, Eq, Structural, Debug)]
pub enum Operation {
    SwapBytes,
    RecipEstimate,
}

/// The register width, in bytes, that an accelerated tier works on.
pub open spec fn tier_width(t: CapabilityTier) -> nat {
    match t {
        CapabilityTier::VeryWidePermute => 64,
        CapabilityTier::WideShuffle => 32,
        CapabilityTier::BaselineShuffle => 16,
        CapabilityTier::ScalarFallback => 0,
    }
}

/// Whether a tier's required feature flag is enabled. The scalar fallback
/// needs no flag.
pub open spec fn tier_enabled(t: CapabilityTier, f: FeatureSet) -> bool {
    match t {
        CapabilityTier::VeryWidePermute => f.very_wide_permute,
        CapabilityTier::WideShuffle => f.wide_shuffle,
        CapabilityTier::BaselineShuffle => f.baseline_shuffle,
        CapabilityTier::ScalarFallback => true,
    }
}

/// Whether a tier has a registered implementation for an operation on a
/// shape. Byte swapping is registered at every tier of exactly the shape's
/// width; the reciprocal estimate is registered only for 4-byte float lanes
/// at the 16- and 32-byte widths, as the widest tier carries no estimate.
pub open spec fn tier_has_impl(op: Operation, t: CapabilityTier, s: VectorShape) -> bool {
    match op {
        Operation::SwapBytes => s.total_bytes() == tier_width(t) && t
            != CapabilityTier::ScalarFallback,
        Operation::RecipEstimate => s.kind == ScalarKind::Float && s.lane_width == 4 && (t
            == CapabilityTier::WideShuffle || t == CapabilityTier::BaselineShuffle)
            && s.total_bytes() == tier_width(t),
    }
}

/// Which operations are defined at all for a shape.
pub open spec fn op_supported(op: Operation, s: VectorShape) -> bool {
    match op {
        Operation::SwapBytes => true,
        Operation::RecipEstimate => s.kind == ScalarKind::Float && s.lane_width == 4,
    }
}

/// The selection policy: capability tiers are tried in descending order of
/// acceleration; the first whose flag is enabled and which has a registered
/// implementation for the exact shape wins, and the scalar fallback catches
/// everything else. Selection is total: every supported pair resolves.
pub open spec fn spec_select_tier(op: Operation, f: FeatureSet, s: VectorShape) -> CapabilityTier {
    if tier_enabled(CapabilityTier::VeryWidePermute, f) && tier_has_impl(
        op,
        CapabilityTier::VeryWidePermute,
        s,
    ) {
        CapabilityTier::VeryWidePermute
    } else if tier_enabled(CapabilityTier::WideShuffle, f) && tier_has_impl(
        op,
        CapabilityTier::WideShuffle,
        s,
    ) {
        CapabilityTier::WideShuffle
    } else if tier_enabled(CapabilityTier::BaselineShuffle, f) && tier_has_impl(
        op,
        CapabilityTier::BaselineShuffle,
        s,
    ) {
        CapabilityTier::BaselineShuffle
    } else {
        CapabilityTier::ScalarFallback
    }
}

/// The per-lane scalar computation of each operation; the scalar fallback
/// applies it to every lane, and it is the reference all tiers must match.
pub open spec fn spec_scalar_op(op: Operation, w: nat, lane: nat) -> nat {
    match op {
        Operation::SwapBytes => lane_swapped(lane, w),
        Operation::RecipEstimate => spec_recip_bits(lane),
    }
}

/// The value of lane `i` of a byte string partitioned into `w`-byte lanes.
pub open spec fn seq_lane(b: Seq<u8>, w: int, i: int) -> nat {
    le_val(b.subrange(i * w, (i + 1) * w))
}

/// The reference result of an operation: every lane independently replaced
/// by the per-lane scalar computation, lane order preserved.
pub open spec fn spec_apply(op: Operation, w: int, b: Seq<u8>) -> Seq<u8> {
    Seq::new(
        b.len(),
        |j: int| byte_of(spec_scalar_op(op, w as nat, seq_lane(b, w, j / w)), (j % w) as nat) as u8,
    )
}

/// What each tier's implementation of an operation computes: the
/// accelerated byte-swap tiers gather bytes through the permutation mask in
/// a single shuffle, every other path applies the per-lane scalar
/// computation.
pub open spec fn spec_tier_result(op: Operation, t: CapabilityTier, w: int, b: Seq<u8>) -> Seq<u8> {
    if op == Operation::SwapBytes && t != CapabilityTier::ScalarFallback {
        Seq::new(b.len(), |j: int| b[swap_source(w as nat, j as nat) as int])
    } else {
        spec_apply(op, w, b)
    }
}

/// The per-lane scalar result always fits back into a lane.
pub proof fn lemma_scalar_op_fits(op: Operation, w: nat, lane: nat)
    requires
        1 <= w <= 8,
        op == Operation::RecipEstimate ==> w == 4,
    ensures
        spec_scalar_op(op, w, lane) < pow2(8 * w),
{
    match op {
        Operation::SwapBytes => {
            lemma_lane_swapped_bound(lane, w);
        },
        Operation::RecipEstimate => {
            lemma_spec_recip_bits_bound(lane);
            assert(pow2(32) == 0x100000000) by {
                lemma2_to64();
                vstd::arithmetic::power2::lemma2_to64_rest();
            }
        },
    }
}

/// **Mask agreement.** Byte `j` of the reference result is the byte that
/// the permutation mask gathers: reversing each lane's bytes in place (what
/// the scalar fallback computes lane by lane) and gathering through the
/// within-lane reversal mask (what every accelerated tier does in one
/// shuffle) produce bit-identical bytes.
pub proof fn lemma_swap_pointwise(w: int, b: Seq<u8>, j: int)
    requires
        1 <= w,
        b.len() % (w as nat) == 0,
        0 <= j < b.len(),
    ensures
        spec_apply(Operation::SwapBytes, w, b)[j] == b[swap_source(w as nat, j as nat) as int],
{
    let n = b.len() as int / w;
    lemma_fundamental_div_mod(b.len() as int, w);
    assert(b.len() == w * n);
    assert(n * w == w * n) by (nonlinear_arith);
    lemma_swap_source_in_range(w as nat, n as nat, j as nat);
    let i = j / w;
    let o = j % w;
    lemma_fundamental_div_mod(j, w);
    assert(i * w + w == (i + 1) * w) by (nonlinear_arith);
    assert(i * w >= 0) by (nonlinear_arith)
        requires
            i >= 0,
            w >= 0,
    ;
    assert((i + 1) * w <= n * w) by {
        vstd::arithmetic::div_mod::lemma_multiply_divide_lt(j, w, n);
        lemma_mul_inequality(i + 1, n, w);
    }
    let lb = b.subrange(i * w, (i + 1) * w);
    let lane = seq_lane(b, w, i);
    lemma_lane_swapped_byte(lane, w as nat, o as nat);
    lemma_le_val_byte(lb, (w - 1 - o) as nat);
    assert(lb[w - 1 - o] == b[i * w + (w - 1 - o)]);
    assert(swap_source(w as nat, j as nat) == i * w + (w - 1 - o));
}

/// **Lane agreement.** For every shape and every input, the result of an
/// operation is, lane for lane, the per-lane scalar computation applied to
/// that lane's value: applying the operation to a vector built from lane
/// values equals building a vector from the mapped lane values.
pub proof fn lemma_lane_agreement(op: Operation, w: int, b: Seq<u8>)
    requires
        1 <= w <= 8,
        b.len() % (w as nat) == 0,
        op == Operation::RecipEstimate ==> w == 4,
    ensures
        forall|i: int|
            0 <= i < b.len() as int / w ==> seq_lane(spec_apply(op, w, b), w, i)
                == spec_scalar_op(op, w as nat, seq_lane(b, w, i)),
{
    let n = b.len() as int / w;
    lemma_fundamental_div_mod(b.len() as int, w);
    assert(b.len() == w * n);
    let a = spec_apply(op, w, b);
    assert forall|i: int| 0 <= i < n implies seq_lane(a, w, i) == spec_scalar_op(
        op,
        w as nat,
        seq_lane(b, w, i),
    ) by {
        let res = spec_scalar_op(op, w as nat, seq_lane(b, w, i));
        lemma_mul_inequality(i + 1, n, w);
        assert(n * w == w * n) by (nonlinear_arith);
        assert(i * w + w == (i + 1) * w) by (nonlinear_arith);
        assert(i * w >= 0) by (nonlinear_arith)
            requires
                i >= 0,
                w >= 0,
        ;
        let sub = a.subrange(i * w, (i + 1) * w);
        assert forall|o: int| 0 <= o < w implies sub[o] == (byte_of(res, o as nat) as u8) by {
            lemma_fundamental_div_mod_converse(i * w + o, w, i, o);
            assert(sub[o] == a[i * w + o]);
        }
        assert(sub =~= Seq::new(w as nat, |o: int| byte_of(res, o as nat) as u8));
        lemma_le_val_of_bytes(res, w as nat);
        lemma_scalar_op_fits(op, w as nat, seq_lane(b, w, i));
        lemma_small_mod(res, pow2(8 * w as nat));
    }
}

/// **Cross-tier determinism.** Any two tiers that could be bound for an
/// operation compute bit-identical results on every input, whichever
/// feature configuration selected them.
pub proof fn lemma_cross_tier_determinism(
    op: Operation,
    t1: CapabilityTier,
    t2: CapabilityTier,
    w: int,
    b: Seq<u8>,
)
    requires
        1 <= w <= 8,
        b.len() % (w as nat) == 0,
        op == Operation::RecipEstimate ==> w == 4,
    ensures
        spec_tier_result(op, t1, w, b) == spec_tier_result(op, t2, w, b),
{
    assert forall|t: CapabilityTier| spec_tier_result(op, t, w, b) =~= spec_apply(op, w, b) by {
        if op == Operation::SwapBytes && t != CapabilityTier::ScalarFallback {
            assert forall|j: int| 0 <= j < b.len() implies spec_tier_result(op, t, w, b)[j]
                == spec_apply(op, w, b)[j] by {
                lemma_swap_pointwise(w, b, j);
            }
        }
    }
}

/// **Involution.** Swapping the bytes of every lane twice restores the
/// original vector, for every shape and every input.
pub proof fn lemma_swap_involution(w: int, b: Seq<u8>)
    requires
        1 <= w,
        b.len() % (w as nat) == 0,
    ensures
        spec_apply(Operation::SwapBytes, w, spec_apply(Operation::SwapBytes, w, b)) == b,
{
    let a = spec_apply(Operation::SwapBytes, w, b);
    let n = b.len() as int / w;
    lemma_fundamental_div_mod(b.len() as int, w);
    assert(b.len() == w * n);
    assert(n * w == w * n) by (nonlinear_arith);
    assert(a.len() == b.len());
    assert forall|j: int| 0 <= j < b.len() implies spec_apply(Operation::SwapBytes, w, a)[j]
        == b[j] by {
        lemma_swap_pointwise(w, a, j);
        let s = swap_source(w as nat, j as nat);
        lemma_swap_source_in_range(w as nat, n as nat, j as nat);
        lemma_swap_pointwise(w, b, s as int);
        lemma_swap_source_involution(w as nat, j as nat);
    }
    assert(spec_apply(Operation::SwapBytes, w, a) =~= b);
}

/// **Single-byte identity.** On a shape with single-byte lanes the byte
/// swap is the identity for every input: a lane of one byte has no internal
/// order to reverse.
pub proof fn lemma_swap_identity_single_byte(b: Seq<u8>)
    ensures
        spec_apply(Operation::SwapBytes, 1, b) == b,
{
    assert forall|j: int| 0 <= j < b.len() implies spec_apply(Operation::SwapBytes, 1, b)[j]
        == b[j] by {
        assert(b.len() % 1nat == 0);
        lemma_swap_pointwise(1, b, j);
        lemma_swap_source_identity(j as nat);
    }
    assert(spec_apply(Operation::SwapBytes, 1, b) =~= b);
}

/// A permutation mask sized for one register width is never applied under
/// a tier of another width: any tier above the fallback that selection
/// returns is registered for the shape, so its width is exactly the
/// shape's total width, and its feature flag is enabled.
pub proof fn lemma_selected_tier_matches_width(op: Operation, f: FeatureSet, s: VectorShape)
    ensures
        tier_enabled(spec_select_tier(op, f, s), f),
        spec_select_tier(op, f, s) != CapabilityTier::ScalarFallback ==> tier_has_impl(
            op,
            spec_select_tier(op, f, s),
            s,
        ) && tier_width(spec_select_tier(op, f, s)) == s.total_bytes(),
{
}

/// The compile-time dispatch binding: one feature configuration and one
/// host byte order, fixed when the binding is created and never mutated.
/// Every operation resolves through it to exactly one implementation.
pub struct PolyfillDispatcher {
    features: FeatureSet,
    host: ByteOrder,
}

impl PolyfillDispatcher {
    /// The feature configuration this binding was created with.
    pub closed spec fn features(self) -> FeatureSet {
        self.features
    }

    /// The host byte order this binding was created with.
    pub closed spec fn host(self) -> ByteOrder {
        self.host
    }

    /// Creates a binding from the build configuration's feature flags and
    /// host byte order.
    pub fn new(features: FeatureSet, host: ByteOrder) -> (r: PolyfillDispatcher)
        ensures
            r.features() == features,
            r.host() == host,
    {
        PolyfillDispatcher { features, host }
    }

    /// Reads the configured host byte order back out of the binding.
    pub fn get_host(&self) -> (h: ByteOrder)
        ensures
            h == self.host(),
    {
        self.host
    }

    /// Reads the configured feature flags back out of the binding.
    pub fn get_features(&self) -> (f: FeatureSet)
        ensures
            f == self.features(),
    {
        self.features
    }

    /// Resolves the tier that an operation on a shape binds to under this
    /// configuration: the best enabled tier with a registered
    /// implementation, or the scalar fallback.
    pub fn select_tier(&self, op: Operation, shape: &VectorShape) -> (t: CapabilityTier)
        requires
            shape.wf(),
        ensures
            t == spec_select_tier(op, self.features(), *shape),
            tier_enabled(t, self.features()),
            t != CapabilityTier::ScalarFallback ==> tier_has_impl(op, t, *shape),
    {
        if self.features.very_wide_permute && has_impl(op, CapabilityTier::VeryWidePermute, shape) {
            CapabilityTier::VeryWidePermute
        } else if self.features.wide_shuffle && has_impl(op, CapabilityTier::WideShuffle, shape) {
            CapabilityTier::WideShuffle
        } else if self.features.baseline_shuffle && has_impl(
            op,
            CapabilityTier::BaselineShuffle,
            shape,
        ) {
            CapabilityTier::BaselineShuffle
        } else {
            CapabilityTier::ScalarFallback
        }
    }

    /// Applies an operation to a vector through the bound implementation.
    /// The result does not depend on the feature configuration: whichever
    /// tier is selected, the bytes are those of the lane-wise reference,
    /// and every lane is the per-lane scalar computation of the input lane.
    pub fn apply(&self, op: Operation, v: &PackedVector) -> (r: PackedVector)
        requires
            v.wf(),
            op_supported(op, v.shape()),
        ensures
            r.wf(),
            r.shape() == v.shape(),
            r.bytes() == spec_apply(op, v.shape().lane_width as int, v.bytes()),
            forall|i: int|
                0 <= i < v.shape().lane_count ==> r.lane(i) == spec_scalar_op(
                    op,
                    v.shape().lane_width as nat,
                    v.lane(i),
                ),
    {
        let shape = v.get_shape();
        let tier = self.select_tier(op, &shape);
        let r = match tier {
            CapabilityTier::ScalarFallback => apply_scalar(op, v),
            CapabilityTier::VeryWidePermute | CapabilityTier::WideShuffle
            | CapabilityTier::BaselineShuffle => {
                match op {
                    Operation::SwapBytes => apply_swap_mask(v),
                    // The accelerated estimate tiers share the scalar bit
                    // computation here; only the register width they cover
                    // differs.
                    Operation::RecipEstimate => apply_scalar(op, v),
                }
            },
        };
        r
    }
}

/// Exec mirror of [`tier_has_impl`].
fn has_impl(op: Operation, t: CapabilityTier, shape: &VectorShape) -> (r: bool)
    requires
        shape.wf(),
    ensures
        r == tier_has_impl(op, t, *shape),
{
    let total: usize = shape.width_bytes();
    let width: usize = match t {
        CapabilityTier::VeryWidePermute => 64,
        CapabilityTier::WideShuffle => 32,
        CapabilityTier::BaselineShuffle => 16,
        CapabilityTier::ScalarFallback => 0,
    };
    match op {
        Operation::SwapBytes => total == width && !matches!(t, CapabilityTier::ScalarFallback),
        Operation::RecipEstimate => matches!(shape.kind, ScalarKind::Float) && shape.lane_width
            == 4 && (matches!(t, CapabilityTier::WideShuffle) || matches!(
            t,
            CapabilityTier::BaselineShuffle,
        )) && total == width,
    }
}

/// The scalar fallback: extracts every lane, applies the per-lane scalar
/// computation independently, and reconstructs a vector in the original
/// lane order. This path exists for every shape and is the reference all
/// accelerated tiers are held to.
fn apply_scalar(op: Operation, v: &PackedVector) -> (r: PackedVector)
    requires
        v.wf(),
        op_supported(op, v.shape()),
    ensures
        r.wf(),
        r.shape() == v.shape(),
        r.bytes() == spec_apply(op, v.shape().lane_width as int, v.bytes()),
        forall|i: int|
            0 <= i < v.shape().lane_count ==> r.lane(i) == spec_scalar_op(
                op,
                v.shape().lane_width as nat,
                v.lane(i),
            ),
{
    let shape = v.get_shape();
    let n: usize = shape.lane_count;
    let w: usize = shape.lane_width;
    let mut out: Vec<u64> = Vec::new();
    let mut i: usize = 0;
    while i < n
        invariant
            v.wf(),
            op_supported(op, v.shape()),
            shape == v.shape(),
            n == shape.lane_count,
            w == shape.lane_width,
            i <= n,
            out@.len() == i,
            forall|k: int|
                0 <= k < i ==> out@[k] as nat == spec_scalar_op(op, w as nat, v.lane(k)),
            forall|k: int| 0 <= k < i ==> (out@[k] as nat) < pow2(8 * w as nat),
        decreases n - i,
    {
        let lane: u64 = v.extract(i);
        let res: u64 = match op {
            Operation::SwapBytes => swap_lane_value(lane, w),
            Operation::RecipEstimate => {
                proof {
                    assert(pow2(32) == 0x100000000) by {
                        lemma2_to64();
                        vstd::arithmetic::power2::lemma2_to64_rest();
                    }
                }
                let rb: u32 = recip_bits(lane as u32);
                proof {
                    lemma_spec_recip_bits_bound(lane as nat);
                }
                rb as u64
            },
        };
        proof {
            if op == Operation::SwapBytes {
            } else {
                assert(pow2(8 * w as nat) == 0x100000000) by {
                    lemma2_to64();
                    vstd::arithmetic::power2::lemma2_to64_rest();
                }
            }
        }
        out.push(res);
        i = i + 1;
    }
    let r = PackedVector::construct(shape, &out);
    proof {
        let wi = w as int;
        assert forall|j: int| 0 <= j < shape.total_bytes() implies r.bytes()[j] == spec_apply(
            op,
            wi,
            v.bytes(),
        )[j] by {
            assert(r.bytes()[j] == (byte_of(out@[j / wi] as nat, (j % wi) as nat) as u8));
        }
        assert(r.bytes() =~= spec_apply(op, wi, v.bytes()));
    }
    r
}

/// The accelerated byte-swap path: the permutation mask for the shape is
/// built once and the bytes are gathered through it, the image in verified
/// code of a single hardware shuffle or permute with a mask register.
fn apply_swap_mask(v: &PackedVector) -> (r: PackedVector)
    requires
        v.wf(),
    ensures
        r.wf(),
        r.shape() == v.shape(),
        r.bytes() == spec_apply(Operation::SwapBytes, v.shape().lane_width as int, v.bytes()),
        forall|i: int|
            0 <= i < v.shape().lane_count ==> r.lane(i) == spec_scalar_op(
                Operation::SwapBytes,
                v.shape().lane_width as nat,
                v.lane(i),
            ),
{
    let shape = v.get_shape();
    let m = build_swap_mask(&shape);
    let out_bytes = apply_mask(raw_bytes(v), &m);
    let r = from_raw(shape, out_bytes);
    proof {
        let wi = shape.lane_width as int;
        let n = shape.lane_count as int;
        lemma_mod_multiples_basic(n, wi);
        assert(n * wi == wi * n) by (nonlinear_arith);
        assert(v.bytes().len() % (wi as nat) == 0);
        assert forall|j: int| 0 <= j < shape.total_bytes() implies r.bytes()[j] == spec_apply(
            Operation::SwapBytes,
            wi,
            v.bytes(),
        )[j] by {
            lemma_swap_pointwise(wi, v.bytes(), j);
        }
        assert(r.bytes() =~= spec_apply(Operation::SwapBytes, wi, v.bytes()));
        lemma_lane_agreement(Operation::SwapBytes, wi, v.bytes());
        vstd::arithmetic::div_mod::lemma_div_multiples_vanish(n, wi);
        assert(v.bytes().len() as int / wi == n);
        assert forall|i: int| 0 <= i < n implies r.lane(i) == spec_scalar_op(
            Operation::SwapBytes,
            wi as nat,
            v.lane(i),
        ) by {
            assert(r.lane(i) == seq_lane(r.bytes(), wi, i));
            assert(v.lane(i) == seq_lane(v.bytes(), wi, i));
        }
    }
    r
}

} // verus!
