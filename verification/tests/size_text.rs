use dirscope::size_text::{key_of_bytes, round_trip_key, size_key};

#[test]
fn known_unit_table() {
    assert_eq!(size_key("0 B"), key_of_bytes(0));
    assert_eq!(size_key("1 KiB"), key_of_bytes(1024));
    assert_eq!(size_key("1 MiB"), key_of_bytes(1048576));
    assert_eq!(size_key("1 GiB"), key_of_bytes(1073741824));
}

#[test]
fn degradation_boundary_tib() {
    // The unit table stops at GiB: a TiB size parses with multiplier one,
    // exactly as if it were a raw byte count of 1.
    assert_eq!(size_key("1 TiB"), key_of_bytes(1));
}

#[test]
fn unknown_or_missing_units_multiply_by_one() {
    assert_eq!(size_key("5"), key_of_bytes(5));
    assert_eq!(size_key("3 PiB"), key_of_bytes(3));
    // unit matching is case-sensitive
    assert_eq!(size_key("2 kib"), key_of_bytes(2));
}

#[test]
fn fractional_values_parse_exactly() {
    assert_eq!(size_key("1.50 KiB"), key_of_bytes(1536));
    assert_eq!(size_key("2.25 MiB"), key_of_bytes(2359296));
    assert_eq!(size_key("0.50 GiB"), key_of_bytes(536870912));
}

#[test]
fn malformed_numbers_degrade_to_zero() {
    assert_eq!(size_key(""), 0);
    assert_eq!(size_key("   "), 0);
    assert_eq!(size_key("abc KiB"), 0);
    assert_eq!(size_key("12x B"), 0);
    assert_eq!(size_key(".5 KiB"), 0);
    assert_eq!(size_key("- B"), 0);
}

#[test]
fn whitespace_around_tokens_is_ignored() {
    assert_eq!(size_key("  7 KiB  "), key_of_bytes(7168));
    assert_eq!(size_key("\t42 B\n"), key_of_bytes(42));
}

#[test]
fn round_trip_exact_below_one_kib() {
    for n in [0u64, 1, 9, 10, 99, 512, 1023] {
        assert_eq!(round_trip_key(n), key_of_bytes(n));
    }
}

#[test]
fn round_trip_within_rendering_tolerance() {
    // 1536 renders with an exact two-digit fraction and comes back exactly.
    assert_eq!(round_trip_key(1536), key_of_bytes(1536));
    // 1500 renders rounded to two fraction digits of a KiB; the parsed key
    // is off by at most one hundredth of a KiB.
    let parsed = round_trip_key(1500);
    let exact = key_of_bytes(1500);
    let step: u128 = 1024;
    assert!(parsed <= exact + step);
    assert!(exact <= parsed + step);
}
