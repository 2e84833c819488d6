use daml_ide::numbers::parse_unsigned;

#[test]
fn reads_like_the_standard_library() {
    let samples = [
        "", "+", "-", "0", "00", "+0", "-0", "7", "+7", "-7", "255", "256", "ff", "FF", "+fF", "g", " 1", "1 ",
        "18446744073709551615", "18446744073709551616", "99999999999999999999999", "1_000", "١",
    ];
    for s in samples {
        assert_eq!(parse_unsigned(s.as_bytes(), 10, u64::MAX), s.parse::<u64>().ok(), "decimal {s:?}");
        assert_eq!(
            parse_unsigned(s.as_bytes(), 16, 255).map(|v| v as u8),
            u8::from_str_radix(s, 16).ok(),
            "hex {s:?}"
        );
        assert_eq!(
            parse_unsigned(s.as_bytes(), 10, usize::MAX as u64).map(|v| v as usize),
            s.parse::<usize>().ok(),
            "usize {s:?}"
        );
    }
}

#[test]
fn a_value_above_the_bound_is_refused() {
    assert_eq!(parse_unsigned(b"255", 10, 255), Some(255));
    assert_eq!(parse_unsigned(b"256", 10, 255), None);
    assert_eq!(parse_unsigned(b"z", 36, 100), Some(35));
    assert_eq!(parse_unsigned(b"10", 2, 100), Some(2));
}
