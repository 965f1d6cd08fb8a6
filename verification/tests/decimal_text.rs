use raytracer::decimal::push_decimal;

fn text_of(n: u32) -> Vec<u8> {
    let mut out = Vec::new();
    push_decimal(&mut out, n);
    out
}

#[test]
fn decimal_of_zero_is_one_digit() {
    assert_eq!(text_of(0), b"0".to_vec());
}

#[test]
fn decimal_of_single_digits() {
    assert_eq!(text_of(7), b"7".to_vec());
    assert_eq!(text_of(9), b"9".to_vec());
}

#[test]
fn decimal_at_powers_of_ten() {
    assert_eq!(text_of(10), b"10".to_vec());
    assert_eq!(text_of(99), b"99".to_vec());
    assert_eq!(text_of(100), b"100".to_vec());
    assert_eq!(text_of(1000), b"1000".to_vec());
}

#[test]
fn decimal_of_largest_intensity() {
    assert_eq!(text_of(255), b"255".to_vec());
}

#[test]
fn decimal_of_largest_number() {
    assert_eq!(text_of(u32::MAX), b"4294967295".to_vec());
}

#[test]
fn decimal_is_appended_after_what_is_there() {
    let mut out = b"w=".to_vec();
    push_decimal(&mut out, 1000);
    push_decimal(&mut out, 500);
    assert_eq!(out, b"w=1000500".to_vec());
}

#[test]
fn decimal_agrees_with_std_formatting() {
    let samples: [u32; 9] = [0, 1, 12, 123, 1234, 65535, 65536, 99999999, 4000000000];
    for n in samples {
        assert_eq!(text_of(n), format!("{}", n).into_bytes());
    }
}
