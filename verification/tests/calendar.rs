use chrono::{DateTime, Datelike, NaiveDate, TimeZone, Timelike};
use chrono_tz::Europe::Brussels;
use transitpulse::calendar::{LocalDateTime, MAX_SECS, MIN_SECS};
use transitpulse::gtfs::weekday_column;
use transitpulse::realtime::day_string;
use transitpulse::status::{day_secs_to_utc, service_date, StatusService};

#[test]
fn days_are_named_from_the_first_to_the_last() {
    assert_eq!(day_string(MIN_SECS), "-262143-01-01");
    assert_eq!(day_string(MIN_SECS - 1), "unknown");
    assert_eq!(day_string(MAX_SECS), "+262142-12-31");
    assert_eq!(day_string(MAX_SECS + 1), "unknown");
    for secs in [-62_135_596_801, -62_198_755_200, 0, 253_402_300_799, 253_402_300_800] {
        let named = DateTime::from_timestamp(secs, 0)
            .unwrap()
            .format("%Y-%m-%d")
            .to_string();
        assert_eq!(day_string(secs), named);
    }
}

#[test]
fn a_day_of_service_has_the_weekday_of_its_date() {
    let names = [
        "monday", "tuesday", "wednesday", "thursday", "friday", "saturday", "sunday",
    ];
    for (year, month, day) in [
        (2024, 2, 29),
        (2026, 9, 23),
        (1900, 2, 28),
        (2000, 12, 31),
        (1, 1, 1),
    ] {
        let at = LocalDateTime {
            year,
            month,
            day,
            hour: 0,
            minute: 0,
            second: 0,
        };
        let date = NaiveDate::from_ymd_opt(year, month, day).unwrap();
        let name = names[date.weekday().num_days_from_monday() as usize];
        assert_eq!(weekday_column(&service_date(at)).unwrap(), name);
    }
}

#[test]
fn a_clock_reads_back_the_time_it_was_set_by() {
    for month in 1..=12 {
        for secs in [0, 3 * 3600, 12 * 3600 + 61, 86_399] {
            let midnight = LocalDateTime {
                year: 2026,
                month,
                day: 15,
                hour: 0,
                minute: 0,
                second: 0,
            };
            let at = day_secs_to_utc(midnight, secs) / 1000;
            let shown = StatusService::now_brussels(at);
            assert_eq!(shown.month, month);
            assert_eq!(shown.day, 15);
            let of_day = shown.hour * 3600 + shown.minute * 60 + shown.second;
            assert_eq!(i64::from(of_day), secs);
            let theirs = Brussels.timestamp_opt(at, 0).unwrap();
            assert_eq!(theirs.hour(), shown.hour);
            assert_eq!(theirs.minute(), shown.minute);
        }
    }
}
