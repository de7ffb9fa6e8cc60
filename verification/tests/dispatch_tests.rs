use faster::dispatch::CapabilityTier;
use faster::dispatch::FeatureSet;
use faster::dispatch::Operation;
use faster::dispatch::PolyfillDispatcher;
use faster::endian::ByteOrder;
use faster::lanes::swap_lane_value;
use faster::mask::apply_mask;
use faster::mask::build_swap_mask;
use faster::shape::ScalarKind;
use faster::shape::VectorShape;
use faster::vector::PackedVector;

fn features(baseline: bool, wide: bool, very_wide: bool) -> FeatureSet {
    FeatureSet {
        baseline_shuffle: baseline,
        wide_shuffle: wide,
        very_wide_permute: very_wide,
    }
}

fn dispatcher(f: FeatureSet) -> PolyfillDispatcher {
    PolyfillDispatcher::new(f, ByteOrder::Little)
}

#[test]
fn select_tier_prefers_the_widest_matching_tier() {
    let d = dispatcher(features(true, true, true));
    let s16 = VectorShape::new(4, 4, ScalarKind::UnsignedInt).unwrap();
    let s32 = VectorShape::new(8, 4, ScalarKind::UnsignedInt).unwrap();
    let s64 = VectorShape::new(16, 4, ScalarKind::UnsignedInt).unwrap();
    assert_eq!(d.select_tier(Operation::SwapBytes, &s16), CapabilityTier::BaselineShuffle);
    assert_eq!(d.select_tier(Operation::SwapBytes, &s32), CapabilityTier::WideShuffle);
    assert_eq!(d.select_tier(Operation::SwapBytes, &s64), CapabilityTier::VeryWidePermute);
}

#[test]
fn select_tier_falls_back_without_feature_flags() {
    let d = dispatcher(features(false, false, false));
    let s32 = VectorShape::new(8, 4, ScalarKind::UnsignedInt).unwrap();
    assert_eq!(d.select_tier(Operation::SwapBytes, &s32), CapabilityTier::ScalarFallback);
}

#[test]
fn select_tier_ignores_tiers_of_the_wrong_width() {
    let d = dispatcher(features(false, false, true));
    let s16 = VectorShape::new(4, 4, ScalarKind::UnsignedInt).unwrap();
    assert_eq!(d.select_tier(Operation::SwapBytes, &s16), CapabilityTier::ScalarFallback);
}

#[test]
fn select_tier_recip_has_no_very_wide_tier() {
    let d = dispatcher(features(true, true, true));
    let f32x16 = VectorShape::new(16, 4, ScalarKind::Float).unwrap();
    let f32x8 = VectorShape::new(8, 4, ScalarKind::Float).unwrap();
    let f32x4 = VectorShape::new(4, 4, ScalarKind::Float).unwrap();
    assert_eq!(d.select_tier(Operation::RecipEstimate, &f32x16), CapabilityTier::ScalarFallback);
    assert_eq!(d.select_tier(Operation::RecipEstimate, &f32x8), CapabilityTier::WideShuffle);
    assert_eq!(d.select_tier(Operation::RecipEstimate, &f32x4), CapabilityTier::BaselineShuffle);
}

#[test]
fn cross_tier_determinism_for_swap_bytes() {
    let configs = [
        features(false, false, false),
        features(true, false, false),
        features(false, true, false),
        features(false, false, true),
        features(true, true, true),
    ];
    for (lane_count, lane_width) in [(16usize, 1usize), (8, 2), (4, 4), (2, 8), (8, 4), (16, 4)] {
        let shape = VectorShape::new(lane_count, lane_width, ScalarKind::UnsignedInt).unwrap();
        let bytes: Vec<u8> = (0..shape.lane_count * shape.lane_width)
            .map(|j| (j * 37 + 11) as u8)
            .collect();
        let v = PackedVector::from_bytes(shape, bytes).unwrap();
        let reference = dispatcher(configs[0]).apply(Operation::SwapBytes, &v);
        for f in configs.iter().skip(1) {
            let r = dispatcher(*f).apply(Operation::SwapBytes, &v);
            assert_eq!(r.to_bytes(), reference.to_bytes());
        }
    }
}

#[test]
fn lane_agreement_for_swap_bytes() {
    let shape = VectorShape::new(8, 2, ScalarKind::UnsignedInt).unwrap();
    let lanes: Vec<u64> = vec![0x0102, 0xFFEE, 0x00AB, 0xCD00, 1, 2, 3, 0x8001];
    let v = PackedVector::construct(shape, &lanes);
    let r = dispatcher(features(true, true, true)).apply(Operation::SwapBytes, &v);
    for (i, &lane) in lanes.iter().enumerate() {
        assert_eq!(r.extract(i), swap_lane_value(lane, 2));
    }
}

#[test]
fn swap_mask_for_four_byte_lanes() {
    let shape = VectorShape::new(4, 4, ScalarKind::UnsignedInt).unwrap();
    let mask = build_swap_mask(&shape);
    assert_eq!(mask, vec![3, 2, 1, 0, 7, 6, 5, 4, 11, 10, 9, 8, 15, 14, 13, 12]);
}

#[test]
fn swap_mask_for_single_byte_lanes_is_identity() {
    let shape = VectorShape::new(16, 1, ScalarKind::UnsignedInt).unwrap();
    let mask = build_swap_mask(&shape);
    let expected: Vec<usize> = (0..16).collect();
    assert_eq!(mask, expected);
}

#[test]
fn apply_mask_gathers_bytes() {
    let bytes: Vec<u8> = vec![10, 20, 30, 40];
    let mask: Vec<usize> = vec![3, 3, 0, 1];
    assert_eq!(apply_mask(&bytes, &mask), vec![40, 40, 10, 20]);
}

#[test]
fn shape_rejects_unsupported_layouts() {
    assert!(VectorShape::new(3, 4, ScalarKind::UnsignedInt).is_none());
    assert!(VectorShape::new(0, 4, ScalarKind::UnsignedInt).is_none());
    assert!(VectorShape::new(4, 3, ScalarKind::UnsignedInt).is_none());
    assert!(VectorShape::new(16, 1, ScalarKind::Float).is_none());
    assert!(VectorShape::new(128, 8, ScalarKind::UnsignedInt).is_none());
    assert!(VectorShape::new(4, 4, ScalarKind::Float).is_some());
}

#[test]
fn from_bytes_rejects_wrong_lengths() {
    let shape = VectorShape::new(4, 4, ScalarKind::UnsignedInt).unwrap();
    assert!(PackedVector::from_bytes(shape, vec![0u8; 15]).is_none());
    assert!(PackedVector::from_bytes(shape, vec![0u8; 16]).is_some());
}

#[test]
fn reinterpret_keeps_every_bit() {
    let ints = VectorShape::new(4, 4, ScalarKind::UnsignedInt).unwrap();
    let v = PackedVector::splat(ints, 0x40800000u64);
    let as_float = v.reinterpret(ScalarKind::Float).unwrap();
    assert_eq!(as_float.to_bytes(), v.to_bytes());
    for lane in 0..4usize {
        assert_eq!(f32::from_bits(as_float.extract(lane) as u32), 4.0f32);
    }
    let bytes = VectorShape::new(16, 1, ScalarKind::UnsignedInt).unwrap();
    let b = PackedVector::splat(bytes, 7);
    assert!(b.reinterpret(ScalarKind::Float).is_none());
}

#[test]
fn construct_then_extract_round_trips() {
    let shape = VectorShape::new(2, 8, ScalarKind::UnsignedInt).unwrap();
    let lanes: Vec<u64> = vec![u64::MAX, 0x0123456789ABCDEF];
    let v = PackedVector::construct(shape, &lanes);
    assert_eq!(v.extract(0), u64::MAX);
    assert_eq!(v.extract(1), 0x0123456789ABCDEF);
}
