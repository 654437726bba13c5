use cpu_freq::parse_mhz_token;
use cpu_freq::parse_scaling_value;

#[test]
fn scaling_value_khz_with_newline() {
    // "2400000\n" is 2_400_000 kHz, that is 2400.0 MHz.
    let parsed = parse_scaling_value(b"2400000\n");
    assert_eq!(parsed, Some(2_400_000));
    assert_eq!(parsed.unwrap() as f32 / 1000.0, 2400.0);
}

#[test]
fn scaling_value_surrounding_whitespace() {
    assert_eq!(parse_scaling_value(b"  \t1200000 \r\n"), Some(1_200_000));
}

#[test]
fn scaling_value_bare_digits() {
    assert_eq!(parse_scaling_value(b"0"), Some(0));
    assert_eq!(parse_scaling_value(b"800000"), Some(800_000));
}

#[test]
fn scaling_value_fraction_rounds_down() {
    assert_eq!(parse_scaling_value(b"2400000.9\n"), Some(2_400_000));
}

#[test]
fn scaling_value_malformed() {
    assert_eq!(parse_scaling_value(b""), None);
    assert_eq!(parse_scaling_value(b"   "), None);
    assert_eq!(parse_scaling_value(b"."), None);
    assert_eq!(parse_scaling_value(b"abc"), None);
    assert_eq!(parse_scaling_value(b"12a3"), None);
    assert_eq!(parse_scaling_value(b"-5"), None);
    assert_eq!(parse_scaling_value(b"1.2.3"), None);
}

#[test]
fn scaling_value_too_large() {
    assert_eq!(parse_scaling_value(b"99999999999999999999999999"), None);
}

#[test]
fn mhz_token_three_decimals() {
    assert_eq!(parse_mhz_token(b"1800.500"), Some(1_800_500));
}

#[test]
fn mhz_token_whole_number() {
    assert_eq!(parse_mhz_token(b"1800"), Some(1_800_000));
}

#[test]
fn mhz_token_short_fraction_is_padded() {
    assert_eq!(parse_mhz_token(b"0.5"), Some(500));
    assert_eq!(parse_mhz_token(b"2.25"), Some(2_250));
}

#[test]
fn mhz_token_bare_dot_sides() {
    assert_eq!(parse_mhz_token(b".5"), Some(500));
    assert_eq!(parse_mhz_token(b"5."), Some(5_000));
}

#[test]
fn mhz_token_extra_digits_are_ignored() {
    assert_eq!(parse_mhz_token(b"1.2345"), Some(1_234));
}

#[test]
fn mhz_token_malformed() {
    assert_eq!(parse_mhz_token(b""), None);
    assert_eq!(parse_mhz_token(b"."), None);
    assert_eq!(parse_mhz_token(b"1.2.3"), None);
    assert_eq!(parse_mhz_token(b"x86"), None);
    assert_eq!(parse_mhz_token(b"1800,500"), None);
}
