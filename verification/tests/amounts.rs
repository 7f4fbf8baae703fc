use nft_contract::amount::{
    accept_text, normalize, parse_amount, settle, write_amount, ONE_NEAR,
};

fn text(s: &str) -> String {
    s.to_string()
}

#[test]
fn parses_whole_and_fraction() {
    assert_eq!(parse_amount(&text("2.0")), Some(2 * ONE_NEAR));
    assert_eq!(parse_amount(&text("1.5")), Some(1_500_000_000_000_000_000_000_000));
    assert_eq!(parse_amount(&text("127.864")), Some(127_864_000_000_000_000_000_000_000));
    assert_eq!(parse_amount(&text("0012.50")), Some(12_500_000_000_000_000_000_000_000));
}

#[test]
fn parses_amounts_below_one() {
    assert_eq!(parse_amount(&text("0.5")), Some(500_000_000_000_000_000_000_000));
    assert_eq!(parse_amount(&text("0.0021489")), Some(2_148_900_000_000_000_000_000));
    assert_eq!(parse_amount(&text("0.000000000000000000000001")), Some(1));
    assert_eq!(parse_amount(&text("0.100000000000000000000001")), Some(100_000_000_000_000_000_000_001));
}

#[test]
fn parses_zero_in_every_spelling() {
    assert_eq!(parse_amount(&text("0.0")), Some(0));
    assert_eq!(parse_amount(&text("0.000")), Some(0));
    assert_eq!(parse_amount(&text("0.000000000000000000000000")), Some(0));
    assert_eq!(parse_amount(&text("00.0")), Some(0));
    assert_eq!(parse_amount(&text("000.00")), Some(0));
}

#[test]
fn parses_whole_numbers_without_a_fraction_part() {
    assert_eq!(parse_amount(&text("2")), Some(2 * ONE_NEAR));
    assert_eq!(parse_amount(&text("12")), Some(12 * ONE_NEAR));
    assert_eq!(parse_amount(&text("0")), Some(0));
    assert_eq!(parse_amount(&text("007")), Some(7 * ONE_NEAR));
    assert_eq!(
        parse_amount(&text("99999999999999")),
        Some(99_999_999_999_999_000_000_000_000_000_000_000_000)
    );
}

#[test]
fn normalize_adds_a_missing_fraction_part() {
    assert_eq!(normalize(text("2")), "2.0");
    assert_eq!(normalize(text("2.0")), "2.0");
    assert_eq!(normalize(text("0.125")), "0.125");
    assert_eq!(normalize(text("12")), "12.0");
    assert_eq!(normalize(text("")), ".0");
    assert_eq!(normalize(text("5.")), "5..0");
    assert_eq!(normalize(text("two")), "two.0");
}

#[test]
fn parses_the_largest_amount() {
    assert_eq!(
        parse_amount(&text("99999999999999.999999999999999999999999")),
        Some(99_999_999_999_999_999_999_999_999_999_999_999_999)
    );
}

#[test]
fn refuses_what_is_no_amount() {
    for bad in [
        "", ".", ".5", "5.", "2.0.0", "2,0", "-2.0", "+2.0", "-2", "+2", " 2.0", "2.0 ", " 2",
        "2.0a", "a.0", "a", "1e5", "1e-6", "NaN", "inf", "１.０", "2.é", "２",
        "123456789012345.0",
        "123456789012345",
        "0.0000000000000000000000001",
        "1.0000000000000000000000000",
    ] {
        assert_eq!(parse_amount(&text(bad)), None, "{:?}", bad);
    }
}

#[test]
fn settle_keeps_five_decimals_from_one_near_on() {
    assert_eq!(settle(3_500_000_000_000_000_000_000_000), 3_500_000_000_000_000_000_000_000);
    assert_eq!(settle(3_193_264_587_249_763_651_824_729), 3_193_260_000_000_000_000_000_000);
    assert_eq!(settle(ONE_NEAR), ONE_NEAR);
    assert_eq!(settle(ONE_NEAR + 9_999_999_999_999_999_999), ONE_NEAR);
    assert_eq!(settle(u128::MAX), 340_282_366_920_938_463_460_000_000_000_000_000_000);
}

#[test]
fn settle_keeps_five_leading_digits_below_one_near() {
    assert_eq!(settle(21_409_258_000_000_000_000_000), 21_409_000_000_000_000_000_000);
    assert_eq!(settle(999_999_999_999_999_999_999_999), 999_990_000_000_000_000_000_000);
    assert_eq!(settle(123_456), 123_450);
    assert_eq!(settle(100_000), 100_000);
}

#[test]
fn settle_keeps_small_amounts_whole() {
    assert_eq!(settle(0), 0);
    assert_eq!(settle(1), 1);
    assert_eq!(settle(99_999), 99_999);
}

#[test]
fn settle_is_idempotent_and_monotone_on_samples() {
    let samples: [u128; 8] = [
        0,
        7,
        123_456,
        21_409_258_000_000_000_000_000,
        999_999_999_999_999_999_999_999,
        ONE_NEAR,
        3_193_264_587_249_763_651_824_729,
        u128::MAX,
    ];
    for (i, a) in samples.iter().enumerate() {
        assert_eq!(settle(settle(*a)), settle(*a));
        assert!(settle(*a) <= *a);
        for b in samples.iter().skip(i) {
            assert!(settle(*a) <= settle(*b));
        }
    }
}

#[test]
fn writes_amounts_with_a_fraction_part() {
    assert_eq!(write_amount(3_500_000_000_000_000_000_000_000), Some(text("3.5")));
    assert_eq!(write_amount(2 * ONE_NEAR), Some(text("2.0")));
    assert_eq!(write_amount(12 * ONE_NEAR), Some(text("12.0")));
    assert_eq!(write_amount(0), Some(text("0.0")));
    assert_eq!(write_amount(ONE_NEAR / 500), Some(text("0.002")));
}

#[test]
fn writes_amounts_cut_down() {
    assert_eq!(write_amount(3_193_264_587_249_763_651_824_729), Some(text("3.19326")));
    assert_eq!(write_amount(21_409_258_000_000_000_000_000), Some(text("0.021409")));
    assert_eq!(write_amount(1), Some(text("0.000000000000000000000001")));
    assert_eq!(write_amount(123_456), Some(text("0.00000000000000000012345")));
}

#[test]
fn written_amounts_read_back_settled() {
    let samples: [u128; 9] = [
        0,
        1,
        99_999,
        123_456,
        21_409_258_000_000_000_000_000,
        999_999_999_999_999_999_999_999,
        ONE_NEAR,
        3_193_264_587_249_763_651_824_729,
        99_999_999_999_999_999_999_999_999_999_999_999_999,
    ];
    for y in samples {
        let written = write_amount(y).expect("an amount below 10^38 can be written");
        assert_eq!(parse_amount(&written), Some(settle(y)));
    }
}

#[test]
fn refuses_to_write_what_cannot_be_read_back() {
    assert_eq!(write_amount(100_000_000_000_000_000_000_000_000_000_000_000_000), None);
    assert_eq!(write_amount(u128::MAX), None);
}

#[test]
fn accept_text_adds_the_fraction_part() {
    assert_eq!(accept_text(text("3"), 3 * ONE_NEAR), Some(text("3.0")));
    assert_eq!(accept_text(text("3.5"), 3_500_000_000_000_000_000_000_000), Some(text("3.5")));
    assert_eq!(accept_text(text("3.19326"), 3_193_264_587_249_763_651_824_729), Some(text("3.19326")));
}

#[test]
fn accept_text_refuses_a_text_for_another_amount() {
    assert_eq!(accept_text(text("3.5"), 3 * ONE_NEAR), None);
    assert_eq!(accept_text(text("3"), 3_500_000_000_000_000_000_000_000), None);
    assert_eq!(accept_text(text("3.193264"), 3_193_264_587_249_763_651_824_729), None);
    assert_eq!(accept_text(text("three"), 3 * ONE_NEAR), None);
    assert_eq!(accept_text(text(""), 0), None);
}
