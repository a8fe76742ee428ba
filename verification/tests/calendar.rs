use infotrash::filetime::calendar_of;

#[test]
fn epoch_is_1601_01_01_monday() {
    let c = calendar_of(0);
    assert_eq!(c.year, 1601);
    assert_eq!(c.month, 1);
    assert_eq!(c.day, 1);
    assert_eq!(c.hour, 0);
    assert_eq!(c.minute, 0);
    assert_eq!(c.second, 0);
    assert_eq!(c.millisecond, 0);
    assert_eq!(c.day_of_week, 1);
}

#[test]
fn unix_epoch_is_1970_01_01_thursday() {
    // The well-known FILETIME value of 1970-01-01T00:00:00 UTC.
    let c = calendar_of(116444736000000000);
    assert_eq!(c.year, 1970);
    assert_eq!(c.month, 1);
    assert_eq!(c.day, 1);
    assert_eq!(c.hour, 0);
    assert_eq!(c.minute, 0);
    assert_eq!(c.second, 0);
    assert_eq!(c.day_of_week, 4);
}

#[test]
fn start_of_2020_is_a_wednesday() {
    // 153036 days and no seconds after the 1601 epoch.
    let c = calendar_of(132223104000000000);
    assert_eq!(c.year, 2020);
    assert_eq!(c.month, 1);
    assert_eq!(c.day, 1);
    assert_eq!(c.hour, 0);
    assert_eq!(c.minute, 0);
    assert_eq!(c.second, 0);
    assert_eq!(c.day_of_week, 3);
}

#[test]
fn leap_day_afternoon() {
    // 2020-02-29T12:34:56 UTC: day 153095 after the epoch, 45296 seconds in.
    let ticks = (153095u64 * 86400 + 12 * 3600 + 34 * 60 + 56) * 10_000_000;
    let c = calendar_of(ticks);
    assert_eq!(c.year, 2020);
    assert_eq!(c.month, 2);
    assert_eq!(c.day, 29);
    assert_eq!(c.hour, 12);
    assert_eq!(c.minute, 34);
    assert_eq!(c.second, 56);
}

#[test]
fn century_year_1900_is_not_leap() {
    // 1900-02-28T23:59:59 plus one second must land on March 1st.
    // 1900-02-28 is day 109207 + 31 + 27 = 109265 after the epoch.
    let days: u64 = 109265;
    let ticks = (days * 86400 + 23 * 3600 + 59 * 60 + 59 + 1) * 10_000_000;
    let c = calendar_of(ticks);
    assert_eq!(c.year, 1900);
    assert_eq!(c.month, 3);
    assert_eq!(c.day, 1);
    assert_eq!(c.hour, 0);
}

#[test]
fn century_year_2000_is_leap() {
    // 2000-02-28 plus one day is February 29th.
    // 2000-02-28 is day 145731 + 31 + 27 = 145789 after the epoch.
    let days: u64 = 145789 + 1;
    let ticks = days * 86400 * 10_000_000;
    let c = calendar_of(ticks);
    assert_eq!(c.year, 2000);
    assert_eq!(c.month, 2);
    assert_eq!(c.day, 29);
}

#[test]
fn sub_second_ticks_become_milliseconds() {
    // One second and 1234567 ticks: 123 whole milliseconds.
    let c = calendar_of(10_000_000 + 1_234_567);
    assert_eq!(c.second, 1);
    assert_eq!(c.millisecond, 123);
}

#[test]
fn seconds_round_trip_through_the_calendar() {
    // Re-encoding the calendar fields gives back the timestamp's whole
    // seconds, across day and month boundaries.
    let samples: [u64; 6] = [
        0,
        864000000000 - 10_000_000,
        116444736000000000,
        132223104000000000,
        132223200000000000,
        u64::MAX,
    ];
    for &t in samples.iter() {
        let c = calendar_of(t);
        let mut days: u64 = 0;
        for y in 1601..c.year {
            days += if (y % 4 == 0 && y % 100 != 0) || y % 400 == 0 { 366 } else { 365 };
        }
        let lengths = [
            31u64,
            if (c.year % 4 == 0 && c.year % 100 != 0) || c.year % 400 == 0 { 29 } else { 28 },
            31,
            30,
            31,
            30,
            31,
            31,
            30,
            31,
            30,
            31,
        ];
        for m in 1..c.month {
            days += lengths[(m - 1) as usize];
        }
        days += (c.day - 1) as u64;
        let secs =
            days * 86400 + (c.hour as u64) * 3600 + (c.minute as u64) * 60 + c.second as u64;
        assert_eq!(secs, t / 10_000_000);
    }
}
