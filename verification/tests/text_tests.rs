use sensor_profiles::text::{parse_i32_bytes, parse_usize_bytes, push_dec_i32, tokenize};

#[test]
fn test_parse_i32_exact_values() {
    assert_eq!(parse_i32_bytes(b"0"), Some(0));
    assert_eq!(parse_i32_bytes(b"123"), Some(123));
    assert_eq!(parse_i32_bytes(b"+123"), Some(123));
    assert_eq!(parse_i32_bytes(b"-123"), Some(-123));
    assert_eq!(parse_i32_bytes(b"0042"), Some(42));
    assert_eq!(parse_i32_bytes(b"2147483647"), Some(2147483647));
    assert_eq!(parse_i32_bytes(b"-2147483648"), Some(-2147483648));
    assert_eq!(parse_i32_bytes(b"2147483648"), None);
    assert_eq!(parse_i32_bytes(b"-2147483649"), None);
    assert_eq!(parse_i32_bytes(b"99999999999999999999999"), None);
    assert_eq!(parse_i32_bytes(b""), None);
    assert_eq!(parse_i32_bytes(b"-"), None);
    assert_eq!(parse_i32_bytes(b"+"), None);
    assert_eq!(parse_i32_bytes(b"12a"), None);
    assert_eq!(parse_i32_bytes(b" 12"), None);
}

#[test]
fn test_parse_usize_exact_values() {
    assert_eq!(parse_usize_bytes(b"0"), Some(0));
    assert_eq!(parse_usize_bytes(b"3"), Some(3));
    assert_eq!(parse_usize_bytes(b"+7"), Some(7));
    assert_eq!(parse_usize_bytes(b"-0"), None);
    assert_eq!(parse_usize_bytes(b"18446744073709551615"), Some(usize::MAX));
    assert_eq!(parse_usize_bytes(b"18446744073709551616"), None);
    assert_eq!(parse_usize_bytes(b"x"), None);
}

#[test]
fn test_render_matches_decimal() {
    let mut out = Vec::new();
    push_dec_i32(&mut out, -2147483648);
    assert_eq!(out, b"-2147483648".to_vec());
    let mut out = Vec::new();
    push_dec_i32(&mut out, 0);
    assert_eq!(out, b"0".to_vec());
    let mut out = Vec::new();
    push_dec_i32(&mut out, 1023);
    assert_eq!(out, b"1023".to_vec());
}

#[test]
fn test_tokenize_splits_on_whitespace() {
    let ts = tokenize(b"t 10 20 30 40\n");
    let ts: Vec<&[u8]> = ts.iter().map(|v| v.as_slice()).collect();
    assert_eq!(ts, vec![&b"t"[..], b"10", b"20", b"30", b"40"]);

    assert!(tokenize(b"  \r\n\t").is_empty());
    let ts = tokenize(b"  v  ");
    assert_eq!(ts.len(), 1);
    assert_eq!(ts[0], b"v".to_vec());
}
