use faster::dispatch::FeatureSet;
use faster::endian::ByteOrder;
use faster::recip::recip_bits;
use faster::recip::Recip;
use faster::dispatch::PolyfillDispatcher;
use faster::shape::ScalarKind;
use faster::shape::VectorShape;
use faster::vector::PackedVector;

fn f32x4() -> VectorShape {
    VectorShape::new(4, 4, ScalarKind::Float).unwrap()
}

fn dispatcher(features: FeatureSet) -> PolyfillDispatcher {
    PolyfillDispatcher::new(features, ByteOrder::Little)
}

fn no_features() -> FeatureSet {
    FeatureSet { baseline_shuffle: false, wide_shuffle: false, very_wide_permute: false }
}

fn all_features() -> FeatureSet {
    FeatureSet { baseline_shuffle: true, wide_shuffle: true, very_wide_permute: true }
}

#[test]
fn recip_f32s() {
    let d = dispatcher(all_features());
    let shape = f32x4();
    let mut i = -1024.0f32;
    while i < 1024.0 {
        let v = PackedVector::splat(shape, i.to_bits() as u64);
        let r = d.recip(&v);
        let ans = f32::from_bits(r.extract(0) as u32);
        let real = 1.0f32 / i;
        assert!((real == f32::INFINITY && ans == f32::INFINITY) || (ans - real).abs() < 0.0005);
        i += 1.0;
    }
}

#[test]
fn recip_every_lane_of_four() {
    let d = dispatcher(no_features());
    let v = PackedVector::splat(f32x4(), 4.0f32.to_bits() as u64);
    let r = d.recip(&v);
    for lane in 0..4usize {
        let a = f32::from_bits(r.extract(lane) as u32);
        assert!(0.2495 <= a && a <= 0.2505);
        assert_eq!(a, 0.25f32);
    }
}

#[test]
fn recip_tolerance_sampled() {
    let samples: [f32; 10] =
        [0.1, 0.3, 1.5, 7.0, 123.456, 1.0e10, 1.0e-10, 3.1415927, 1.0e38, 2.5e-38];
    for &x in samples.iter() {
        for &s in [x, -x].iter() {
            let ans = f32::from_bits(recip_bits(s.to_bits()));
            let real = 1.0f32 / s;
            let rel = ((ans - real) / real).abs();
            assert!(rel < 0.0005);
        }
    }
}

#[test]
fn recip_of_zero_is_infinite() {
    assert_eq!(f32::from_bits(recip_bits(0.0f32.to_bits())), f32::INFINITY);
    assert_eq!(f32::from_bits(recip_bits((-0.0f32).to_bits())), f32::NEG_INFINITY);
}

#[test]
fn recip_of_infinity_is_zero() {
    assert_eq!(recip_bits(f32::INFINITY.to_bits()), 0.0f32.to_bits());
    assert_eq!(recip_bits(f32::NEG_INFINITY.to_bits()), (-0.0f32).to_bits());
}

#[test]
fn recip_of_nan_is_nan() {
    assert!(f32::from_bits(recip_bits(f32::NAN.to_bits())).is_nan());
}

#[test]
fn recip_keeps_sign() {
    let ans = f32::from_bits(recip_bits((-8.0f32).to_bits()));
    assert_eq!(ans, -0.125f32);
}

#[test]
fn recip_of_smallest_subnormal_overflows_to_infinity() {
    let tiny = f32::from_bits(1);
    let ans = f32::from_bits(recip_bits(tiny.to_bits()));
    assert_eq!(ans, f32::INFINITY);
}

#[test]
fn recip_of_large_subnormal_is_finite() {
    let x = f32::from_bits(0x007FFFFF);
    let ans = f32::from_bits(recip_bits(x.to_bits()));
    let real = 1.0f32 / x;
    assert!(ans.is_finite());
    assert!(((ans - real) / real).abs() < 0.0005);
}

#[test]
fn recip_matches_under_any_feature_configuration() {
    let shape = f32x4();
    let v = PackedVector::splat(shape, 3.0f32.to_bits() as u64);
    let fallback = dispatcher(no_features()).recip(&v);
    let baseline = dispatcher(FeatureSet {
        baseline_shuffle: true,
        wide_shuffle: false,
        very_wide_permute: false,
    })
    .recip(&v);
    let wide = dispatcher(all_features()).recip(&v);
    assert_eq!(fallback.to_bytes(), baseline.to_bytes());
    assert_eq!(fallback.to_bytes(), wide.to_bytes());
}
