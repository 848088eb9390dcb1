use rug::color::{argb_pack_u8s, argb_unpack_u8s};
use rug::memory::{align_pointer, align_pointer_to};
use rug::wide::{B32x2, B32x4, B32x8};

#[test]
fn pack_places_channels() {
    assert_eq!(argb_pack_u8s(0x11, 0x22, 0x33, 0x44), 0x4411_2233);
    assert_eq!(argb_pack_u8s(0, 0, 0, 0), 0);
    assert_eq!(argb_pack_u8s(255, 255, 255, 255), 0xffff_ffff);
    assert_eq!(argb_pack_u8s(0xff, 0, 0, 0x80), 0x80ff_0000);
}

#[test]
fn unpack_splits_channels() {
    assert_eq!(argb_unpack_u8s(0x4411_2233), (0x11, 0x22, 0x33, 0x44));
    assert_eq!(argb_unpack_u8s(0xff00_00ff), (0, 0, 0xff, 0xff));
}

#[test]
fn pack_unpack_round_trip() {
    for &v in &[0u32, 1, 0x1234_5678, 0xdead_beef, u32::MAX, 0x8000_0001] {
        let (r, g, b, a) = argb_unpack_u8s(v);
        assert_eq!(argb_pack_u8s(r, g, b, a), v);
    }
    for &(r, g, b, a) in &[(1u8, 2u8, 3u8, 4u8), (255, 0, 128, 7), (0, 255, 0, 255)] {
        assert_eq!(argb_unpack_u8s(argb_pack_u8s(r, g, b, a)), (r, g, b, a));
    }
}

#[test]
fn align_to_rounds_up() {
    assert_eq!(align_pointer_to(0, 8), 0);
    assert_eq!(align_pointer_to(1, 8), 8);
    assert_eq!(align_pointer_to(8, 8), 8);
    assert_eq!(align_pointer_to(9, 8), 16);
    assert_eq!(align_pointer_to(13, 5), 15);
    assert_eq!(align_pointer_to(7, 1), 7);
}

#[test]
fn align_to_type_alignment() {
    assert_eq!(align_pointer::<u64>(1), 8);
    assert_eq!(align_pointer::<u32>(6), 8);
    assert_eq!(align_pointer::<u8>(6), 6);
    assert_eq!(align_pointer::<u16>(16), 16);
}

#[test]
fn mask_any_all() {
    assert!(B32x2([true, false]).any());
    assert!(!B32x2([true, false]).all());
    assert!(B32x2([true, true]).all());
    assert!(!B32x2([false, false]).any());
    assert!(B32x8([false, false, false, false, false, false, false, true]).any());
    assert!(!B32x8([true, true, true, true, true, true, true, false]).all());
    assert!(B32x8([true; 8]).all());
    assert!(!B32x8([false; 8]).any());
}

#[test]
fn mask_to_int() {
    assert_eq!(B32x2([true, false]).to_int(), [-1, 0]);
    assert_eq!(B32x2([false, true]).to_int(), [0, -1]);
    let m = B32x4([true, false, true, false]);
    assert_eq!(m.0, [true, false, true, false]);
}

#[test]
fn mask_duality_examples() {
    let lanes = [true, false, true, true, false, true, true, true];
    let neg = lanes.map(|b| !b);
    assert_eq!(B32x8(lanes).all(), !B32x8(neg).any());
    assert_eq!(B32x8(lanes).any(), !B32x8(neg).all());
}
