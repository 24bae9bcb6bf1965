use raytracer::decimal::push_decimal;

#[test]
fn push_decimal_writes_single_digits() {
    for (n, expected) in (0u32..10).zip(["0", "1", "2", "3", "4", "5", "6", "7", "8", "9"]) {
        let mut out = String::new();
        push_decimal(&mut out, n);
        assert_eq!(out, expected);
    }
}

#[test]
fn push_decimal_writes_the_most_significant_digit_first() {
    let mut out = String::new();
    push_decimal(&mut out, 1234567890);
    assert_eq!(out, "1234567890");
}

#[test]
fn push_decimal_keeps_inner_and_trailing_zeros() {
    let mut out = String::new();
    push_decimal(&mut out, 10);
    assert_eq!(out, "10");
    let mut out = String::new();
    push_decimal(&mut out, 1000);
    assert_eq!(out, "1000");
    let mut out = String::new();
    push_decimal(&mut out, 4_000_000_007);
    assert_eq!(out, "4000000007");
}

#[test]
fn push_decimal_writes_the_largest_value() {
    let mut out = String::new();
    push_decimal(&mut out, u32::MAX);
    assert_eq!(out, "4294967295");
}

#[test]
fn push_decimal_appends_to_what_is_there() {
    let mut out = String::from("P3 ");
    push_decimal(&mut out, 400);
    out.push(' ');
    push_decimal(&mut out, 225);
    assert_eq!(out, "P3 400 225");
}

#[test]
fn push_decimal_agrees_with_std_formatting() {
    let mut n: u32 = 1;
    for _ in 0..2000 {
        let mut out = String::new();
        push_decimal(&mut out, n);
        assert_eq!(out, n.to_string());
        assert_eq!(out.parse::<u32>(), Ok(n));
        n = n.wrapping_mul(1664525).wrapping_add(1013904223);
    }
}
