use ashmaize_solver::difficulty::hash_structure_good;

#[test]
fn short_hashes_never_meet_difficulty() {
    assert!(!hash_structure_good(&[], u32::MAX));
    assert!(!hash_structure_good(&[0, 0, 0], u32::MAX));
}

#[test]
fn prefix_bits_must_lie_inside_mask() {
    // prefix 0x00ff_ffff against mask 0x00ff_ffff
    assert!(hash_structure_good(&[0x00, 0xff, 0xff, 0xff, 0xaa], 0x00ff_ffff));
    // one bit above the mask
    assert!(!hash_structure_good(&[0x01, 0x00, 0x00, 0x00], 0x00ff_ffff));
    // bytes after the fourth do not count
    assert!(hash_structure_good(&[0x00, 0x00, 0x12, 0x34, 0xff, 0xff], 0x0000_ffff));
    assert!(!hash_structure_good(&[0x00, 0x01, 0x12, 0x34], 0x0000_ffff));
}

#[test]
fn big_endian_prefix_order() {
    // mask allows only the lowest byte of the prefix
    assert!(hash_structure_good(&[0, 0, 0, 0x7f], 0x0000_00ff));
    assert!(!hash_structure_good(&[0x7f, 0, 0, 0], 0x0000_00ff));
}

#[test]
fn extreme_masks() {
    let h = [0xde, 0xad, 0xbe, 0xef];
    assert!(hash_structure_good(&h, u32::MAX));
    assert!(!hash_structure_good(&h, 0));
    assert!(hash_structure_good(&[0, 0, 0, 0, 9], 0));
}

#[test]
fn wider_mask_accepts_more() {
    let h = [0x00, 0x00, 0x0f, 0x00];
    assert!(hash_structure_good(&h, 0x0000_0fff));
    assert!(hash_structure_good(&h, 0x00ff_ffff));
    assert!(!hash_structure_good(&h, 0x0000_00ff));
}

#[test]
fn low_bit_masks_are_leading_zero_thresholds() {
    let mask: u32 = (1u32 << 20) - 1;
    assert!(hash_structure_good(&[0x00, 0x0f, 0xff, 0xff], mask));
    assert!(!hash_structure_good(&[0x00, 0x10, 0x00, 0x00], mask));
}
