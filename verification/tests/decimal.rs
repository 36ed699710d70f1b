use ironclaw::decimal::u64_to_decimal;

#[test]
fn decimal_of_small_numbers() {
    assert_eq!(u64_to_decimal(0), "0");
    assert_eq!(u64_to_decimal(7), "7");
    assert_eq!(u64_to_decimal(10), "10");
    assert_eq!(u64_to_decimal(512), "512");
}

#[test]
fn decimal_matches_display() {
    for n in [1u64, 9, 99, 100, 1_000_000, 536_870_912, 1_234_567_890, u64::MAX - 1, u64::MAX] {
        assert_eq!(u64_to_decimal(n), n.to_string());
    }
}

#[test]
fn decimal_round_trips() {
    for n in [0u64, 42, 300, 18_446_744_073_709_551_615] {
        assert_eq!(u64_to_decimal(n).parse::<u64>().unwrap(), n);
    }
}
