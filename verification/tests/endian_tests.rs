use faster::dispatch::FeatureSet;
use faster::endian::ByteOrder;
use faster::endian::Reendianize;
use faster::dispatch::PolyfillDispatcher;
use faster::lanes::swap_lane_value;
use faster::shape::ScalarKind;
use faster::shape::VectorShape;
use faster::vector::PackedVector;

fn dispatcher(host: ByteOrder) -> PolyfillDispatcher {
    let features =
        FeatureSet { baseline_shuffle: true, wide_shuffle: true, very_wide_permute: false };
    PolyfillDispatcher::new(features, host)
}

fn u32x4() -> VectorShape {
    VectorShape::new(4, 4, ScalarKind::UnsignedInt).unwrap()
}

fn u16x8() -> VectorShape {
    VectorShape::new(8, 2, ScalarKind::UnsignedInt).unwrap()
}

fn u8x16() -> VectorShape {
    VectorShape::new(16, 1, ScalarKind::UnsignedInt).unwrap()
}

#[test]
fn swap_bytes_u32_lanes() {
    let d = dispatcher(ByteOrder::Little);
    let v = PackedVector::splat(u32x4(), 0xDEADBEEFu64);
    let r = d.swap_bytes(&v);
    for lane in 0..4usize {
        assert_eq!(r.extract(lane), 0xEFBEADDEu64);
    }
}

#[test]
fn swap_bytes_single_byte_lanes_is_identity() {
    let d = dispatcher(ByteOrder::Little);
    let bytes: Vec<u8> = (0u8..16u8).collect();
    let v = PackedVector::from_bytes(u8x16(), bytes.clone()).unwrap();
    let r = d.swap_bytes(&v);
    assert_eq!(r.to_bytes(), bytes);
}

#[test]
fn swap_bytes_twice_is_identity() {
    let d = dispatcher(ByteOrder::Little);
    let lanes: Vec<u64> = vec![0x0102, 0xFFEE, 0x0000, 0xABCD, 0x1234, 0x00FF, 0x8000, 0x7F01];
    let v = PackedVector::construct(u16x8(), &lanes);
    let r = d.swap_bytes(&d.swap_bytes(&v));
    assert_eq!(r.to_bytes(), v.to_bytes());
}

#[test]
fn swap_bytes_interleaved_matches_scalar_swaps() {
    let d = dispatcher(ByteOrder::Little);
    let lanes: Vec<u64> = vec![33, 92, 33, 92];
    let expected: Vec<u64> =
        vec![33u32.swap_bytes() as u64, 92u32.swap_bytes() as u64, 33u32.swap_bytes() as u64, 92u32.swap_bytes() as u64];
    let v = PackedVector::construct(u32x4(), &lanes);
    let r = d.swap_bytes(&v);
    for lane in 0..4usize {
        assert_eq!(r.extract(lane), expected[lane]);
    }
}

#[test]
fn swap_lane_value_reverses_low_bytes() {
    assert_eq!(swap_lane_value(0x12345678, 4), 0x78563412);
    assert_eq!(swap_lane_value(0x1234, 2), 0x3412);
    assert_eq!(swap_lane_value(0x0102030405060708, 8), 0x0807060504030201);
    assert_eq!(swap_lane_value(0xAB, 1), 0xAB);
}

#[test]
fn to_be_swaps_on_little_endian_host() {
    let d = dispatcher(ByteOrder::Little);
    let v = PackedVector::splat(u32x4(), 0xDEADBEEFu64);
    let r = d.to_be(&v);
    assert_eq!(r.extract(0), 0xEFBEADDEu64);
    let same = d.to_le(&v);
    assert_eq!(same.to_bytes(), v.to_bytes());
}

#[test]
fn to_le_swaps_on_big_endian_host() {
    let d = dispatcher(ByteOrder::Big);
    let v = PackedVector::splat(u32x4(), 0xDEADBEEFu64);
    let r = d.to_le(&v);
    assert_eq!(r.extract(0), 0xEFBEADDEu64);
    let same = d.to_be(&v);
    assert_eq!(same.to_bytes(), v.to_bytes());
}

#[test]
fn from_be_after_to_be_round_trips() {
    for host in [ByteOrder::Little, ByteOrder::Big] {
        let d = dispatcher(host);
        let lanes: Vec<u64> = vec![0xDEADBEEF, 0x01020304, 0, 0xFFFFFFFF];
        let v = PackedVector::construct(u32x4(), &lanes);
        let rb = d.from_be(&d.to_be(&v));
        assert_eq!(rb.to_bytes(), v.to_bytes());
        let rl = d.from_le(&d.to_le(&v));
        assert_eq!(rl.to_bytes(), v.to_bytes());
    }
}

#[test]
fn to_be_after_to_le_is_the_byte_swap() {
    for host in [ByteOrder::Little, ByteOrder::Big] {
        let d = dispatcher(host);
        let v = PackedVector::splat(u32x4(), 0xDEADBEEFu64);
        let r = d.to_be(&d.to_le(&v));
        assert_eq!(r.to_bytes(), d.swap_bytes(&v).to_bytes());
    }
}
