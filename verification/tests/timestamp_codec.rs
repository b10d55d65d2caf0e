use snapchat_log_parser::error::DecodeError;
use snapchat_log_parser::timestamp::{decode, days_in_month, encode, Timestamp};

fn noon_2021() -> Timestamp {
    Timestamp { year: 2021, month: 1, day: 1, hour: 12, minute: 0, second: 0 }
}

#[test]
fn encode_exact_format() {
    assert_eq!(encode(&noon_2021()), "2021-01-01 12:00:00 UTC");
    let t = Timestamp { year: 999, month: 12, day: 31, hour: 23, minute: 59, second: 59 };
    assert_eq!(encode(&t), "0999-12-31 23:59:59 UTC");
}

#[test]
fn decode_exact_format() {
    assert_eq!(decode("2021-01-01 12:00:00 UTC").unwrap(), noon_2021());
}

#[test]
fn round_trip_decode_encode() {
    let samples = [
        Timestamp { year: 0, month: 1, day: 1, hour: 0, minute: 0, second: 0 },
        Timestamp { year: 9999, month: 12, day: 31, hour: 23, minute: 59, second: 59 },
        Timestamp { year: 2020, month: 2, day: 29, hour: 6, minute: 7, second: 8 },
        noon_2021(),
    ];
    for t in samples {
        assert_eq!(decode(&encode(&t)).unwrap(), t);
    }
}

#[test]
fn decode_rejects_wrong_shapes() {
    let bad = [
        "2021-01-01T12:00:00Z",
        "2021-01-01 12:00:00",
        "2021-01-01 12:00:00 utc",
        "2021/01/01 12:00:00 UTC",
        "2021-1-01 12:00:00 UTC",
        "2021-01-01 12:00:00 UTC ",
        "",
        "not a timestamp at all!",
    ];
    for s in bad {
        assert_eq!(decode(s), Err(DecodeError::MalformedTimestamp), "{s:?}");
    }
}

#[test]
fn decode_rejects_out_of_range_fields() {
    let bad = [
        "2021-00-01 12:00:00 UTC",
        "2021-13-01 12:00:00 UTC",
        "2021-01-00 12:00:00 UTC",
        "2021-01-32 12:00:00 UTC",
        "2021-02-29 12:00:00 UTC",
        "2100-02-29 12:00:00 UTC",
        "2021-04-31 12:00:00 UTC",
        "2021-01-01 24:00:00 UTC",
        "2021-01-01 12:60:00 UTC",
        "2021-01-01 12:00:60 UTC",
    ];
    for s in bad {
        assert_eq!(decode(s), Err(DecodeError::MalformedTimestamp), "{s:?}");
    }
    assert!(decode("2020-02-29 12:00:00 UTC").is_ok());
    assert!(decode("2000-02-29 12:00:00 UTC").is_ok());
}

#[test]
fn leap_year_month_lengths() {
    assert_eq!(days_in_month(2021, 2), 28);
    assert_eq!(days_in_month(2020, 2), 29);
    assert_eq!(days_in_month(1900, 2), 28);
    assert_eq!(days_in_month(2000, 2), 29);
    assert_eq!(days_in_month(2021, 4), 30);
    assert_eq!(days_in_month(2021, 12), 31);
}

#[test]
fn chronological_order() {
    let a = noon_2021();
    let mut b = a;
    b.second = 1;
    assert!(a.le(&b));
    assert!(!b.le(&a));
    assert!(a.le(&a));
    let c = Timestamp { year: 2022, month: 1, day: 1, hour: 0, minute: 0, second: 0 };
    assert!(b.le(&c));
}
