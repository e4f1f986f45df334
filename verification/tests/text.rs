use laundry_machine_mqtt::text::decimal_string;

#[test]
fn single_digits() {
    for (n, text) in ["0", "1", "2", "3", "4", "5", "6", "7", "8", "9"].iter().enumerate() {
        assert_eq!(decimal_string(n as u128), *text);
    }
}

#[test]
fn several_digits_most_significant_first() {
    assert_eq!(decimal_string(10), "10");
    assert_eq!(decimal_string(5400), "5400");
    assert_eq!(decimal_string(1_002_003), "1002003");
    assert_eq!(decimal_string(9_876_543_210), "9876543210");
}

#[test]
fn largest_number() {
    assert_eq!(decimal_string(u128::MAX), "340282366920938463463374607431768211455");
    assert_eq!(decimal_string(u128::MAX), u128::MAX.to_string());
}

#[test]
fn agrees_with_the_standard_library() {
    let mut n: u128 = 1;
    while n < u128::MAX / 7 {
        assert_eq!(decimal_string(n), n.to_string());
        assert_eq!(decimal_string(n - 1), (n - 1).to_string());
        n *= 7;
    }
}
