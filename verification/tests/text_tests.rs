use legion_prof_viewer::text::{append_decimal, append_padded3, append_signed};

fn decimal(n: u64) -> String {
    let mut out = String::new();
    append_decimal(&mut out, n);
    out
}

fn signed(n: i64) -> String {
    let mut out = String::new();
    append_signed(&mut out, n);
    out
}

fn padded(n: i64) -> String {
    let mut out = String::new();
    append_padded3(&mut out, n);
    out
}

#[test]
fn numbers_are_written_in_decimal() {
    assert_eq!(decimal(0), "0");
    assert_eq!(decimal(7), "7");
    assert_eq!(decimal(10), "10");
    assert_eq!(decimal(1234567890), "1234567890");
    assert_eq!(decimal(u64::MAX), "18446744073709551615");
    for n in [9u64, 99, 100, 101, 8191, 1_000_000] {
        assert_eq!(decimal(n), n.to_string());
    }
}

#[test]
fn negative_numbers_get_a_minus_sign() {
    assert_eq!(signed(0), "0");
    assert_eq!(signed(42), "42");
    assert_eq!(signed(-42), "-42");
    assert_eq!(signed(i64::MAX), "9223372036854775807");
    assert_eq!(signed(i64::MIN), "-9223372036854775808");
}

#[test]
fn short_numbers_are_padded_with_zeros() {
    assert_eq!(padded(0), "000");
    assert_eq!(padded(5), "005");
    assert_eq!(padded(50), "050");
    assert_eq!(padded(500), "500");
    assert_eq!(padded(5000), "5000");
    assert_eq!(padded(-5), "0-5");
    assert_eq!(padded(-50), "-50");
}

#[test]
fn text_is_put_behind_what_is_there() {
    let mut out = String::from("n");
    append_decimal(&mut out, 12);
    out.push(' ');
    append_signed(&mut out, -3);
    out.push('.');
    append_padded3(&mut out, 4);
    assert_eq!(out, "n12 -3.004");
}
