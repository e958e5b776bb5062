use halide_runtime::{Buffer, Device, Kind, Type};

#[test]
fn type_new_sets_one_lane() {
    let t = Type::new(Kind::UInt, 8);
    assert!(t.kind() == Kind::UInt);
    assert_eq!(t.bits(), 8);
    assert_eq!(t.2, 1);
    assert_eq!(t.size(), 1);
}

#[test]
fn type_new_with_lanes() {
    let t = Type::new_with_lanes(Kind::Float, 32, 4);
    assert!(t.kind() == Kind::Float);
    assert_eq!(t.bits(), 32);
    assert_eq!(t.2, 4);
    assert_eq!(t.size(), 4);
}

#[test]
fn kind_codes_match_foreign_enumeration() {
    assert_eq!(Kind::Int.code(), 0);
    assert_eq!(Kind::UInt.code(), 1);
    assert_eq!(Kind::Float.code(), 2);
}

#[test]
fn single_channel_has_rank_two() {
    let t = Type::new(Kind::UInt, 8);
    let b = Buffer::new(640, 480, 1, t, 0x1000);
    assert_eq!(b.dimensions, 2);
    assert_eq!(b.dim.len(), 2);
    assert_eq!(b.dim[0].stride, 1);
    assert_eq!(b.dim[0].extent, 640);
    assert_eq!(b.dim[1].stride, 640);
    assert_eq!(b.dim[1].extent, 480);
}

#[test]
fn zero_channel_has_rank_two_and_unit_stride() {
    let t = Type::new(Kind::UInt, 8);
    let b = Buffer::new(16, 8, 0, t, 0x1000);
    assert_eq!(b.dimensions, 2);
    assert_eq!(b.dim.len(), 2);
    assert_eq!(b.dim[0].stride, 1);
    assert_eq!(b.dim[1].stride, 16);
}

#[test]
fn multi_channel_has_rank_three_with_channel_axis() {
    let t = Type::new(Kind::UInt, 8);
    let b = Buffer::new(640, 480, 3, t, 0x1000);
    assert_eq!(b.dimensions, 3);
    assert_eq!(b.dim.len(), 3);
    assert_eq!(b.dim[0].stride, 3);
    assert_eq!(b.dim[0].extent, 640);
    assert_eq!(b.dim[1].stride, 3 * 640);
    assert_eq!(b.dim[1].extent, 480);
    assert_eq!(b.dim[2].stride, 1);
    assert_eq!(b.dim[2].extent, 3);
}

#[test]
fn two_channels_is_the_smallest_rank_three() {
    let t = Type::new(Kind::UInt, 16);
    let b = Buffer::new(10, 10, 2, t, 0x1000);
    assert_eq!(b.dimensions, 3);
    assert_eq!(b.dim[0].stride, 2);
    assert_eq!(b.dim[1].stride, 20);
    assert_eq!(b.dim[2].stride, 1);
    assert_eq!(b.dim[2].extent, 2);
}

#[test]
fn new_fills_scalar_fields() {
    let t = Type::new(Kind::Float, 32);
    let b = Buffer::new(4, 4, 1, t, 0xbeef);
    assert_eq!(b.device, 0);
    assert_eq!(b.device_interface, 0);
    assert_eq!(b.flags, 0);
    assert_eq!(b.host, 0xbeef);
    assert!(b.type_ == t);
    assert_eq!(b.dim[0].min, 0);
    assert_eq!(b.dim[1].min, 0);
}

#[test]
fn new_const_builds_the_same_descriptor() {
    let t = Type::new(Kind::UInt, 8);
    let a = Buffer::new(8, 6, 3, t, 0x2000);
    let b = Buffer::new_const(8, 6, 3, t, 0x2000);
    assert_eq!(a.dimensions, b.dimensions);
    assert_eq!(a.dim, b.dim);
    assert_eq!(a.host, b.host);
}

#[test]
fn clone_round_trip_rank_two() {
    let t = Type::new(Kind::UInt, 8);
    let original = Buffer::new(32, 16, 1, t, 0x3000);
    let copy = original.clone();
    drop(original);
    assert_eq!(copy.dimensions, 2);
    assert_eq!(copy.dim.len(), 2);
    assert_eq!(copy.dim[0].stride, 1);
    assert_eq!(copy.dim[0].extent, 32);
    assert_eq!(copy.dim[1].stride, 32);
    assert_eq!(copy.dim[1].extent, 16);
    assert_eq!(copy.host, 0x3000);
}

#[test]
fn clone_round_trip_rank_three() {
    let t = Type::new(Kind::UInt, 8);
    let original = Buffer::new(32, 16, 4, t, 0x4000);
    let expected = original.dim.clone();
    let copy = original.clone();
    drop(original);
    assert_eq!(copy.dimensions, 3);
    assert_eq!(copy.dim, expected);
    assert_eq!(copy.dim[2].stride, 1);
    assert_eq!(copy.dim[2].extent, 4);
}

#[test]
fn set_device_overwrites_only_the_device_fields() {
    let t = Type::new(Kind::UInt, 8);
    let mut b = Buffer::new(8, 8, 3, t, 0x5000);
    let before = b.dim.clone();
    b.set_device(7, Device(0xabc));
    assert_eq!(b.device, 7);
    assert_eq!(b.device_interface, 0xabc);
    assert_eq!(b.host, 0x5000);
    assert_eq!(b.flags, 0);
    assert_eq!(b.dimensions, 3);
    assert_eq!(b.dim, before);
}

#[test]
fn descriptor_pair_800_600() {
    // The descriptor half of the end-to-end filter scenario: an 800 by 600
    // three-channel 8-bit image and an equally sized output.
    let width = 800;
    let height = 600;
    let channels = 3;
    let t = Type::new(Kind::UInt, 8);
    assert_eq!(t.size(), 1);
    let input = Buffer::new_const(width, height, channels, t, 0x10000);
    let mut output = Buffer::new(width, height, channels, t, 0x20000);
    assert_eq!(input.dimensions, 3);
    assert_eq!(output.dimensions, 3);
    assert_eq!(input.dim[0].extent, 800);
    assert_eq!(input.dim[0].stride, 3);
    assert_eq!(input.dim[1].extent, 600);
    assert_eq!(input.dim[1].stride, 2400);
    assert_eq!(input.dim[2].extent, 3);
    assert_eq!(input.dim[2].stride, 1);
    assert_eq!(output.dim, input.dim);
    output.set_device(0, Device(0));
    assert_eq!(output.device, 0);
}

#[test]
fn required_bytes_exact_for_the_scenario_image() {
    let t = Type::new(Kind::UInt, 8);
    assert_eq!(Buffer::required_bytes(800, 600, 3, t), Some(1_440_000));
}

#[test]
fn required_bytes_treats_missing_channels_as_one() {
    let t = Type::new(Kind::UInt, 16);
    assert_eq!(Buffer::required_bytes(4, 4, 0, t), Some(32));
    assert_eq!(Buffer::required_bytes(4, 4, 1, t), Some(32));
}

#[test]
fn required_bytes_reports_overflow() {
    let t = Type::new(Kind::Float, 64);
    assert_eq!(Buffer::required_bytes(i32::MAX, i32::MAX, 4, t), None);
}
