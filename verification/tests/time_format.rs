fn millis_of(seconds: f64) -> u64 {
    (seconds * 1000.0) as u64
}

#[test]
fn zero() {
    let time = 0.0;
    let formatted = global_maps::time::format(millis_of(time));
    assert_eq!(formatted, "00:00.000");
}

#[test]
fn only_seconds() {
    let time = 53.727069;
    let formatted = global_maps::time::format(millis_of(time));
    assert_eq!(formatted, "00:53.727");
}

#[test]
fn minutes() {
    let time = 153.727069;
    let formatted = global_maps::time::format(millis_of(time));
    assert_eq!(formatted, "02:33.727");
}

#[test]
fn hours() {
    let time = 11153.727069;
    let formatted = global_maps::time::format(millis_of(time));
    assert_eq!(formatted, "03:05:53.727");
}

#[test]
fn long_runs_keep_all_hour_digits() {
    assert_eq!(global_maps::time::format(360000000), "100:00:00.000");
    assert_eq!(global_maps::time::format(35999999), "09:59:59.999");
}
