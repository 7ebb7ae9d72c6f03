use rust_remover::duration::{
    duration_to_ascii, parse_duration, parse_duration_would_panic, parse_u64, Duration, IntErrorKind,
};
use rust_remover::text::{i64_to_decimal, u64_to_decimal};

#[test]
fn parse_duration_units() {
    assert_eq!(parse_duration("5w"), Ok(Duration { seconds: 5 * 604800 }));
    assert_eq!(parse_duration("3d"), Ok(Duration { seconds: 3 * 86400 }));
    assert_eq!(parse_duration("2h"), Ok(Duration { seconds: 7200 }));
    assert_eq!(parse_duration("10m"), Ok(Duration { seconds: 600 }));
    assert_eq!(parse_duration("+7m"), Ok(Duration { seconds: 420 }));
    assert_eq!(parse_duration("0d"), Ok(Duration { seconds: 0 }));
}

#[test]
fn parse_duration_errors() {
    assert_eq!(parse_duration("5x"), Err(String::from("Unkown duration unit")));
    assert_eq!(parse_duration("5s"), Err(String::from("Unkown duration unit")));
    assert_eq!(parse_duration("xw"), Err(String::from("ParseIntError { kind: InvalidDigit }")));
    assert_eq!(parse_duration("w"), Err(String::from("ParseIntError { kind: Empty }")));
    assert_eq!(parse_duration("+w"), Err(String::from("ParseIntError { kind: InvalidDigit }")));
    assert_eq!(parse_duration("-5w"), Err(String::from("ParseIntError { kind: InvalidDigit }")));
    assert_eq!(parse_duration("99999999999999999999x"), Err(String::from("ParseIntError { kind: PosOverflow }")));
    // the number is read before the unit
    assert_eq!(parse_duration("abcx"), Err(String::from("ParseIntError { kind: InvalidDigit }")));
}

#[test]
fn parse_duration_wraps_like_a_cast() {
    // u64::MAX reads as -1 once cast to i64
    assert_eq!(parse_duration("18446744073709551615m"), Ok(Duration { seconds: -60 }));
}

#[test]
fn parse_duration_panic_conditions() {
    assert!(parse_duration_would_panic(""));
    assert!(parse_duration_would_panic("5é"));
    assert!(parse_duration_would_panic("9223372036854775807w"));
    assert!(parse_duration_would_panic("15250284453w"));
    assert!(!parse_duration_would_panic("15250284452w"));
    assert!(!parse_duration_would_panic("5w"));
    assert!(!parse_duration_would_panic("5x"));
    assert!(!parse_duration_would_panic("éw"));
    assert_eq!(parse_duration("15250284452w"), Ok(Duration { seconds: 15250284452 * 604800 }));
}

#[test]
fn parse_u64_like_std() {
    for s in ["0", "42", "+42", "", "+", "-", "-1", "1a", "18446744073709551615", "18446744073709551616", "007"] {
        let mine = parse_u64(s).map_err(|k| k.debug_text());
        let std = s.parse::<u64>().map_err(|e| format!("{:?}", e));
        assert_eq!(mine, std, "input {:?}", s);
    }
    assert_eq!(parse_u64("12x99999999999999999999"), Err(IntErrorKind::InvalidDigit));
}

#[test]
fn duration_to_ascii_breaks_down() {
    assert_eq!(duration_to_ascii(Duration { seconds: 0 }), "0w 0d 0h 0m 0s");
    assert_eq!(duration_to_ascii(Duration { seconds: 694861 }), "1w 1d 1h 1m 1s");
    assert_eq!(duration_to_ascii(Duration { seconds: -694861 }), "-1w -1d -1h -1m -1s");
    assert_eq!(duration_to_ascii(Duration { seconds: 59 }), "0w 0d 0h 0m 59s");
    assert_eq!(duration_to_ascii(Duration { seconds: i64::MIN }), "-15250284452471w -3d -15h -30m -8s");
}

#[test]
fn parsed_duration_reads_back() {
    let d = parse_duration("10d").unwrap();
    assert_eq!(duration_to_ascii(d), "1w 3d 0h 0m 0s");
    let d = parse_duration("90m").unwrap();
    assert_eq!(duration_to_ascii(d), "0w 0d 1h 30m 0s");
}

#[test]
fn decimal_text() {
    assert_eq!(u64_to_decimal(0), "0");
    assert_eq!(u64_to_decimal(1234567890), "1234567890");
    assert_eq!(u64_to_decimal(u64::MAX), "18446744073709551615");
    assert_eq!(i64_to_decimal(-42), "-42");
    assert_eq!(i64_to_decimal(i64::MIN), "-9223372036854775808");
    assert_eq!(i64_to_decimal(i64::MAX), "9223372036854775807");
}

#[test]
fn decimal_round_trip() {
    for v in [0u64, 7, 10, 99, 1000, 123456789, u64::MAX] {
        assert_eq!(parse_u64(&u64_to_decimal(v)), Ok(v));
    }
}
