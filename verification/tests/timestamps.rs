use global_maps::serde::{
    deser_naive_date_time, deser_opt_naive_date_time, ser_naive_date_time,
    ser_opt_naive_date_time, NaiveDateTime,
};

#[test]
fn deserialize_reads_all_fields() {
    let ts = deser_naive_date_time("2021-02-03T04:05:06").unwrap();
    assert_eq!(
        ts,
        NaiveDateTime { year: 2021, month: 2, day: 3, hour: 4, minute: 5, second: 6 }
    );
}

#[test]
fn round_trip_through_the_pattern() {
    for s in ["1999-12-31T23:59:59", "2020-02-29T00:00:00", "0001-01-01T00:00:00"] {
        let ts = deser_naive_date_time(s).unwrap();
        assert_eq!(ser_naive_date_time(&ts), s);
    }
}

#[test]
fn serialize_pads_every_component() {
    let ts = NaiveDateTime { year: 33, month: 1, day: 2, hour: 3, minute: 4, second: 5 };
    assert_eq!(ser_naive_date_time(&ts), "0033-01-02T03:04:05");
}

#[test]
fn nonconforming_strings_are_rejected() {
    for s in [
        "",
        "2021-02-03",
        "2021-02-03 04:05:06",
        "2021/02/03T04:05:06",
        "2021-13-01T00:00:00",
        "2021-00-01T00:00:00",
        "2021-02-30T00:00:00",
        "2021-02-29T00:00:00",
        "2021-04-31T00:00:00",
        "2021-01-00T00:00:00",
        "2021-01-01T24:00:00",
        "2021-01-01T00:60:00",
        "2021-01-01T00:00:60",
        "2021-01-01T00:00:0a",
        "12021-01-01T00:00:00",
    ] {
        assert!(deser_naive_date_time(s).is_none(), "accepted: {s}");
    }
}

#[test]
fn leap_years_follow_the_gregorian_rule() {
    assert!(deser_naive_date_time("2000-02-29T12:00:00").is_some());
    assert!(deser_naive_date_time("1900-02-29T12:00:00").is_none());
    assert!(deser_naive_date_time("2024-02-29T12:00:00").is_some());
}

#[test]
fn optional_timestamps() {
    assert_eq!(deser_opt_naive_date_time(None), Some(None));
    assert_eq!(
        deser_opt_naive_date_time(Some("2021-02-03T04:05:06")),
        Some(Some(NaiveDateTime { year: 2021, month: 2, day: 3, hour: 4, minute: 5, second: 6 }))
    );
    assert_eq!(deser_opt_naive_date_time(Some("nope")), None);
    let ts = NaiveDateTime { year: 2021, month: 2, day: 3, hour: 4, minute: 5, second: 6 };
    assert_eq!(ser_opt_naive_date_time(&Some(ts)).as_deref(), Some("2021-02-03T04:05:06"));
    assert_eq!(ser_opt_naive_date_time(&None), None);
}
