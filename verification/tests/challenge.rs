use ashmaize_solver::challenge::{challenge_suffix, init_rom, preimage, GB, MB};

#[test]
fn rom_parameters_of_a_challenge() {
    let cfg = init_rom("abc123");
    assert_eq!(cfg.key, b"abc123".to_vec());
    assert_eq!(cfg.pre_size, 16 * 1024 * 1024);
    assert_eq!(cfg.mixing_numbers, 4);
    assert_eq!(cfg.size, 1024 * 1024 * 1024);
    assert_eq!(MB, 1 << 20);
    assert_eq!(GB, 1 << 30);
}

#[test]
fn suffix_is_the_fields_in_order() {
    let s = challenge_suffix(b"addr", b"**D07C10", b"000FFFFF", b"e8a1", b"2025-10-30", b"123");
    assert_eq!(s, format!("{}{}{}{}{}{}", "addr", "**D07C10", "000FFFFF", "e8a1", "2025-10-30", "123").into_bytes());
}

#[test]
fn preimage_matches_std_formatting() {
    let suffix = b"addr**D07C10000FFFFF";
    for n in [0u64, 42, 0x1234_5678_9abc_def0, u64::MAX] {
        let expected = format!("{:016x}{}", n, std::str::from_utf8(suffix).unwrap()).into_bytes();
        assert_eq!(preimage(n, suffix), expected);
    }
}
