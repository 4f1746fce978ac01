use marble::number::{display_number, parse_decimal, parse_digit, parse_factor, parse_number, parse_triplet};

fn round_trips_up_to(limit: u64) {
    let mut i = 0;
    while i <= limit {
        assert_eq!(
            i,
            parse_number(&display_number(i)).unwrap_or_else(|| panic!("{i} didnt convert"))
        );
        i += 1;
    }
}

#[test]
fn convert_u64() {
    round_trips_up_to(100_000);
}

#[test]
fn mod_convert_u64() {
    round_trips_up_to(100_000);
}

#[test]
fn all_dont_parse() {
    assert!(parse_number("OneOne").is_none());
    assert!(parse_number("ElevenOne").is_none());
    assert!(parse_number("TwentyEleven").is_none());
    assert!(parse_number("OneTwenty").is_none());
    assert!(parse_number("TenHundred").is_none());
    assert!(parse_number("TenThousandFiveMillion").is_none());

    assert!(parse_decimal("OnePointOnePointOne".as_bytes()).is_none());
    assert!(parse_decimal("OnePointOneTen".as_bytes()).is_none());
    assert!(parse_decimal("OnePointOneMillion".as_bytes()).is_none());
}

#[test]
fn mod_all_dont_parse() {
    assert!(parse_number("OneOne").is_none());
    assert!(parse_number("ElevenOne").is_none());
    assert!(parse_number("TwentyEleven").is_none());
    assert!(parse_number("OneTwenty").is_none());
    assert!(parse_number("TenHundred").is_none());
    assert!(parse_number("TenThousandFiveMillion").is_none());
}

#[test]
fn display_examples() {
    assert_eq!(display_number(0), "Zero");
    assert_eq!(display_number(42), "FortyTwo");
    assert_eq!(display_number(123), "OneHundredTwentyThree");
    assert_eq!(display_number(100), "OneHundred");
    assert_eq!(display_number(1_000_001), "OneMillionOne");
    assert_eq!(display_number(18), "Eighteen");
    assert_eq!(display_number(90), "Ninety");
    assert_eq!(
        display_number(1_000_000_000_000_000_000),
        "OneQuintillion"
    );
}

#[test]
fn parse_examples() {
    assert_eq!(parse_number("OneHundredTwentyThree"), Some(123));
    assert_eq!(parse_number("Zero"), Some(0));
    assert_eq!(parse_number("TwoThousandTwenty"), Some(2020));
    assert_eq!(parse_number("OneQuintillion"), Some(1_000_000_000_000_000_000));
    assert_eq!(parse_number(""), None);
    assert_eq!(parse_number("Banana"), None);
    assert_eq!(parse_number("OneThousandTwoThousand"), None);
}

#[test]
fn round_trip_large_values() {
    for n in [u64::MAX, u64::MAX - 1, 999_999_999_999_999_999, 1_000_000_000_000_000_000, 123_456_789_012] {
        assert_eq!(parse_number(&display_number(n)), Some(n));
    }
}

#[test]
fn too_large_to_hold() {
    assert_eq!(parse_number("NineHundredQuintillion"), None);
}

#[test]
fn digits_and_factors() {
    assert_eq!(parse_digit("Seven"), Some(7));
    assert_eq!(parse_digit("Ten"), None);
    assert_eq!(parse_factor(""), Some(1));
    assert_eq!(parse_factor("Million"), Some(1_000_000));
    assert_eq!(parse_factor("Hundred"), None);
}

#[test]
fn triplets() {
    let w = "NineHundredNinetyNineThousand".as_bytes();
    assert_eq!(parse_triplet(w, 0), Some((999, 21)));
    assert_eq!(parse_triplet("ThreeHundred".as_bytes(), 0), Some((300, 12)));
    assert_eq!(parse_triplet("Thousand".as_bytes(), 0), None);
}

#[test]
fn decimals() {
    let d = parse_decimal("ThreePointOneFour".as_bytes()).unwrap();
    assert_eq!(d.whole, 3);
    assert_eq!(d.digits, vec![1, 4]);
    assert!(parse_decimal("OnePoint".as_bytes()).is_none());
    let d = parse_decimal("FortyTwo".as_bytes()).unwrap();
    assert_eq!(d.whole, 42);
    assert!(d.digits.is_empty());
    assert!(parse_decimal("PointFive".as_bytes()).is_none());
}
