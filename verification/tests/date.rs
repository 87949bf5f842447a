use pactience::date::{civil_from_epoch, days_from_civil, epoch_from_date_time, format_date};

#[test]
fn epoch_boundaries() {
    assert_eq!(days_from_civil(1970, 1, 1), 0);
    assert_eq!(epoch_from_date_time(1970, 1, 1, 0, 0), 0);
    // Verified against `date -u -d "2024-03-27 15:44:00" +%s`.
    assert_eq!(epoch_from_date_time(2024, 3, 27, 15, 44), 1_711_554_240);
}

#[test]
fn round_trip() {
    for &(y, m, d) in &[(1970, 1, 1), (2000, 2, 29), (2024, 12, 31), (1900, 3, 1)] {
        let epoch = epoch_from_date_time(y, m, d, 0, 0);
        assert_eq!(civil_from_epoch(epoch), (y, m, d));
        assert_eq!(format_date(epoch), format!("{y:04}-{m:02}-{d:02}"));
    }
}

#[test]
fn dates_before_the_epoch_and_negative_years() {
    assert_eq!(days_from_civil(1969, 12, 31), -1);
    assert_eq!(civil_from_epoch(-1), (1969, 12, 31));
    assert_eq!(format_date(-86_400), "1969-12-31");
    assert_eq!(format_date(0), "1970-01-01");
}

#[test]
fn time_of_day_is_dropped_by_the_calendar() {
    let epoch = epoch_from_date_time(2024, 3, 27, 23, 59);
    assert_eq!(civil_from_epoch(epoch), (2024, 3, 27));
}

#[test]
fn date_time_to_epoch_and_back_keeps_the_date() {
    for (y, m, d, h, mi) in [
        (2024, 3, 27, 15, 44),
        (2024, 2, 29, 23, 59),
        (2000, 2, 29, 0, 0),
        (1900, 2, 28, 12, 0),
        (1970, 1, 1, 0, 0),
        (1969, 12, 31, 23, 59),
        (2100, 3, 1, 6, 30),
        (1600, 12, 31, 0, 1),
    ] {
        let e = epoch_from_date_time(y, m, d, h, mi);
        assert_eq!(civil_from_epoch(e), (y, m, d));
    }
    assert_eq!(format_date(epoch_from_date_time(2024, 2, 29, 23, 59)), "2024-02-29");
}
