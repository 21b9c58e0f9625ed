use pakr_iec::{decimal, iec};

#[test]
fn test_decimal() {
    assert_eq!("1.0", decimal(1));
    assert_eq!("10.0", decimal(10));
    assert_eq!("100.0", decimal(100));
    assert_eq!("1.0k", decimal(1000));
    assert_eq!("1.0k", decimal(1001));
    assert_eq!("1.1k", decimal(1100));
    assert_eq!("10.0k", decimal(10000));
    assert_eq!("10.0M", decimal(10000000));
}

#[test]
fn test_iec() {
    assert_eq!("1.0", iec(1));
    assert_eq!("10.0", iec(10));
    assert_eq!("100.0", iec(100));
    assert_eq!("1000.0", iec(1000));
    assert_eq!("1.0ki", iec(1024));
    assert_eq!("1.0ki", iec(1025));
    assert_eq!("10.0ki", iec(10 * 1024));
    assert_eq!("10.0Mi", iec(10 * 1024 * 1024));
}

#[test]
fn test_iec_boundary() {
    // The exact break would be at 1024 + 102.4.
    assert_eq!("1.0ki", iec(1024 + 102));
    assert_eq!("1.1ki", iec(1024 + 103));

    // The exact break would be at (1024 + 102.4) * 1024; it is at (1024 + 103) * 1024.
    assert_eq!("1.0Mi", iec(1154047));
    assert_eq!("1.1Mi", iec(1154048));

    // The break before 2.0.
    assert_eq!("1.9Mi", iec(2097151));
    assert_eq!("2.0Mi", iec(2097152));
}

#[test]
fn test_big() {
    assert_eq!("1.0Y", decimal(1_000_000_000_000_000_000_000_000_u128));

    assert_eq!("1.0Yi", iec(1_208_925_819_614_629_174_706_176_u128));
}

#[test]
fn zero_is_written_with_a_zero_fraction() {
    assert_eq!("0.0", decimal(0));
    assert_eq!("0.0", iec(0));
}

#[test]
fn decimal_around_the_first_step() {
    assert_eq!("999.0", decimal(999));
    assert_eq!("1.0k", decimal(1000));
    assert_eq!("1.0k", decimal(1001));
    assert_eq!("1.0k", decimal(1099));
    assert_eq!("1.1k", decimal(1100));
    assert_eq!("1.9k", decimal(1999));
    assert_eq!("2.0k", decimal(2000));
    assert_eq!("999.9k", decimal(999_999));
    assert_eq!("1.0M", decimal(1_000_000));
}

#[test]
fn iec_around_the_first_step() {
    assert_eq!("1023.0", iec(1023));
    assert_eq!("1.0ki", iec(1024));
    assert_eq!("1.0ki", iec(1025));
    assert_eq!("1.9ki", iec(2047));
    assert_eq!("2.0ki", iec(2048));
    assert_eq!("10.0ki", iec(10240));
    assert_eq!("1023.9ki", iec(1024 * 1024 - 1));
    assert_eq!("1.0Mi", iec(1024 * 1024));
}

#[test]
fn below_the_base_the_number_stands_unscaled() {
    for v in 0..1000u128 {
        assert_eq!(format!("{}.0", v), decimal(v));
    }
    for v in 0..1024u128 {
        assert_eq!(format!("{}.0", v), iec(v));
    }
}

#[test]
fn every_power_of_the_base_has_its_suffix() {
    let decimal_suffixes = ["", "k", "M", "G", "T", "P", "E", "Z", "Y"];
    let iec_suffixes = ["", "ki", "Mi", "Gi", "Ti", "Pi", "Ei", "Zi", "Yi"];
    let mut thousands: u128 = 1;
    let mut kibis: u128 = 1;
    for step in 0..9 {
        assert_eq!(format!("1.0{}", decimal_suffixes[step]), decimal(thousands));
        assert_eq!(format!("1.0{}", iec_suffixes[step]), iec(kibis));
        if step > 0 {
            assert_eq!(format!("2.5{}", decimal_suffixes[step]), decimal(thousands / 2 * 5));
            assert_eq!(format!("2.5{}", iec_suffixes[step]), iec(kibis / 2 * 5));
        }
        thousands *= 1000;
        kibis *= 1024;
    }
}

#[test]
fn just_below_a_power_of_the_base() {
    assert_eq!("999.9k", decimal(1_000_000 - 1));
    assert_eq!("999.9M", decimal(1_000_000_000 - 1));
    assert_eq!("999.9Z", decimal(1_000_000_000_000_000_000_000_000 - 1));
    assert_eq!("1023.9Mi", iec(1024 * 1024 * 1024 - 1));
    assert_eq!("1023.9Zi", iec(1_208_925_819_614_629_174_706_176 - 1));
}

#[test]
fn the_fraction_comes_from_the_last_division_only() {
    // 999 is left over by the first division, nothing by the second.
    assert_eq!("1.0M", decimal(1_000_999));
    assert_eq!("1.0Mi", iec(1024 * 1024 + 1023));
    // Nothing is left over by the first division, 900 by the second.
    assert_eq!("1.9M", decimal(1_900_000));
    assert_eq!("1.5Mi", iec(1024 * 1024 + 512 * 1024));
}

#[test]
fn the_fraction_is_cut_off_and_never_rounded() {
    assert_eq!("1.0k", decimal(1099));
    assert_eq!("1.9k", decimal(1999));
    assert_eq!("1.4ki", iec(1024 + 511));
    assert_eq!("1.5ki", iec(1024 + 512));
    assert_eq!("1.9ki", iec(1024 + 1023));
    for tenth in 0..10u128 {
        assert_eq!(format!("1.{}k", tenth), decimal(1000 + 100 * tenth));
        assert_eq!(format!("1.{}k", tenth), decimal(1000 + 100 * tenth + 99));
    }
}

#[test]
fn iec_fraction_breaks_at_whole_tenths_of_1024() {
    // The first left-over amount of each tenth: the smallest r with 10 * r / 1024 == tenth.
    let firsts: [u128; 10] = [0, 103, 205, 308, 410, 512, 615, 717, 820, 922];
    for tenth in 0..10usize {
        assert_eq!(format!("1.{}ki", tenth), iec(1024 + firsts[tenth]));
        if tenth > 0 {
            assert_eq!(format!("1.{}ki", tenth - 1), iec(1024 + firsts[tenth] - 1));
        }
    }
}

#[test]
fn beyond_the_last_suffix_the_whole_part_grows() {
    let top_decimal: u128 = 1_000_000_000_000_000_000_000_000_000;
    assert_eq!("999.9Y", decimal(top_decimal - 1));
    assert_eq!("1000.0Y", decimal(top_decimal));
    assert_eq!("1000.1Y", decimal(top_decimal + top_decimal / 10_000));
    assert_eq!("1000000.0Y", decimal(top_decimal * 1000));
    assert_eq!("340282366920938.4Y", decimal(u128::MAX));

    let top_iec: u128 = 1 << 90;
    assert_eq!("1023.9Yi", iec(top_iec - 1));
    assert_eq!("1024.0Yi", iec(top_iec));
    assert_eq!("1048576.0Yi", iec(top_iec * 1024));
    assert_eq!("281474976710655.9Yi", iec(u128::MAX));
}

fn whole_part(text: &str) -> u128 {
    let point = text.find('.').unwrap();
    text[..point].parse().unwrap()
}

#[test]
fn whole_part_does_not_fall_within_a_step() {
    // Decimal, in the kilo step.
    let mut last = whole_part(&decimal(1000));
    for v in (1000..1_000_000u128).step_by(37) {
        let text = decimal(v);
        assert!(text.ends_with('k'));
        let whole = whole_part(&text);
        assert!(last <= whole);
        last = whole;
    }
    // IEC, in the kibi step.
    let mut last = whole_part(&iec(1024));
    for v in (1024..1024 * 1024u128).step_by(41) {
        let text = iec(v);
        assert!(text.ends_with("ki"));
        let whole = whole_part(&text);
        assert!(last <= whole);
        last = whole;
    }
    // In the last step, across the point where the suffix stays.
    let yotta: u128 = 1_000_000_000_000_000_000_000_000;
    assert_eq!(999, whole_part(&decimal(yotta * 999)));
    assert_eq!(1000, whole_part(&decimal(yotta * 1000)));
    assert_eq!(1001, whole_part(&decimal(yotta * 1001)));
}

#[test]
fn written_form_has_whole_part_point_one_digit_and_suffix() {
    let values: [u128; 8] = [0, 9, 1234, 98_765_432, 1 << 40, 1 << 77, 1 << 100, u128::MAX];
    for v in values {
        for text in [decimal(v), iec(v)] {
            let point = text.find('.').unwrap();
            assert!(point > 0);
            assert!(text[..point].chars().all(|c| c.is_ascii_digit()));
            let after: Vec<char> = text[point + 1..].chars().collect();
            assert!(after[0].is_ascii_digit());
            assert!(after[1..].iter().all(|c| c.is_ascii_alphabetic()));
            assert!(after.len() <= 3);
        }
    }
}
