use ashmaize_solver::hex::{nonce_to_hex, parse_hex_u32, parse_hex_u64, write_nonce_to_bytes};

#[test]
fn nonce_hex_matches_std_formatting() {
    for n in [0u64, 1, 0xf, 0x10, 0xdead_beef, 0x0123_4567_89ab_cdef, u64::MAX] {
        assert_eq!(nonce_to_hex(n), format!("{:016x}", n).into_bytes());
    }
}

#[test]
fn nonce_hex_exact_values() {
    assert_eq!(nonce_to_hex(255), b"00000000000000ff".to_vec());
    assert_eq!(nonce_to_hex(u64::MAX), b"ffffffffffffffff".to_vec());
}

#[test]
fn write_nonce_leaves_other_bytes() {
    let mut buf = vec![b'x'; 20];
    write_nonce_to_bytes(&mut buf, 0xabc, 2);
    assert_eq!(buf, b"xx0000000000000abcxx".to_vec());
}

#[test]
fn hex_round_trip() {
    for n in [0u64, 7, 1 << 40, 0xfedc_ba98_7654_3210, u64::MAX] {
        assert_eq!(parse_hex_u64(&nonce_to_hex(n)), Some(n));
    }
}

#[test]
fn parse_hex_agrees_with_from_str_radix() {
    let cases: [&str; 14] = [
        "00ffffff", "FFFFFFFF", "+1a", "+", "-1", "", "100000000", "0", "g", "12 ", "0000000000ff",
        "aBcD", "++1", "ffffffffff",
    ];
    for c in cases {
        assert_eq!(parse_hex_u32(c.as_bytes()), u32::from_str_radix(c, 16).ok(), "case {:?}", c);
        assert_eq!(parse_hex_u64(c.as_bytes()), u64::from_str_radix(c, 16).ok(), "case {:?}", c);
    }
}

#[test]
fn parse_hex_overflow() {
    assert_eq!(parse_hex_u64(b"ffffffffffffffff"), Some(u64::MAX));
    assert_eq!(parse_hex_u64(b"10000000000000000"), None);
    assert_eq!(parse_hex_u64(b"000000000000000000001"), Some(1));
    assert_eq!(parse_hex_u32(b"100000000"), None);
    assert_eq!(parse_hex_u32(b"00ffffff"), Some(0x00ff_ffff));
}
