use screen_mirror::clock::epoch_millis;
use screen_mirror::logging::{
    civil_date, civil_from_days, format_timestamp, log_line, timestamp, wall_clock, WallClock,
};

#[test]
fn a_line_is_one_buffer_ending_in_one_newline() {
    let line = log_line("2026-07-31 20:03:14.510", "receiver GPU selected: index=0");

    assert_eq!(line, "2026-07-31 20:03:14.510 receiver GPU selected: index=0\n");
    assert_eq!(line.matches('\n').count(), 1);
}

#[test]
fn a_timestamp_is_fixed_width_so_lines_stay_aligned_and_sort_by_time() {
    let clock = WallClock {
        year: 2026,
        month: 7,
        day: 4,
        hour: 9,
        minute: 5,
        second: 3,
        millisecond: 42,
    };

    assert_eq!(format_timestamp(&clock), "2026-07-04 09:05:03.042");
}

#[test]
fn the_clock_the_platform_reports_is_a_plausible_wall_clock() {
    let stamped = timestamp();

    assert_eq!(stamped.len(), "2026-07-04 09:05:03.042".len(), "{stamped}");
    assert!(stamped.starts_with("20"), "{stamped}");
}

#[test]
fn later_moments_have_later_timestamps() {
    let mut stamps = Vec::new();
    for millis in [
        0_u64,
        999,
        1_000,
        59_999,
        3_600_000,
        86_399_999,
        86_400_000,
        951_782_400_000,
        1_709_164_800_000,
        4_102_444_800_000,
    ] {
        stamps.push(format_timestamp(&wall_clock(millis)));
    }
    assert_eq!(stamps[0], "1970-01-01 00:00:00.000");
    assert_eq!(stamps[5], "1970-01-01 23:59:59.999");
    assert_eq!(stamps[6], "1970-01-02 00:00:00.000");
    assert_eq!(stamps[7], "2000-02-29 00:00:00.000");
    assert_eq!(stamps[8], "2024-02-29 00:00:00.000");
    assert_eq!(stamps[9], "2100-01-01 00:00:00.000");
    let mut sorted = stamps.clone();
    sorted.sort();
    assert_eq!(stamps, sorted);
}

#[test]
fn day_numbers_follow_the_calendar() {
    assert_eq!(civil_from_days(0), (1970, 1, 1));
    assert_eq!(civil_from_days(-1), (1969, 12, 31));
    assert_eq!(civil_from_days(59), (1970, 3, 1));
    assert_eq!(civil_from_days(364), (1970, 12, 31));
    assert_eq!(civil_from_days(11_016), (2000, 2, 29));
    assert_eq!(civil_from_days(47_540), (2100, 2, 28));
    assert_eq!(civil_from_days(47_541), (2100, 3, 1));
    assert_eq!(civil_date(-1), (1969, 12, 31));
    assert_eq!(civil_date(-719_468), (0, 3, 1));
    assert_eq!(civil_date(-719_469), (0, 2, 29));
}

#[test]
fn a_whole_cycle_of_days_is_walked_date_by_date() {
    let (mut year, mut month, mut day) = (1970_i64, 1_u16, 1_u16);
    for days in 0..146_097_i64 {
        assert_eq!(civil_date(days), (year, month, day));
        let leap = year % 4 == 0 && (year % 100 != 0 || year % 400 == 0);
        let length = match month {
            2 => {
                if leap {
                    29
                } else {
                    28
                }
            }
            4 | 6 | 9 | 11 => 30,
            _ => 31,
        };
        day += 1;
        if day > length {
            day = 1;
            month += 1;
        }
        if month > 12 {
            month = 1;
            year += 1;
        }
    }
}

#[test]
fn a_clock_reading_is_clamped_and_zero_before_the_epoch() {
    assert_eq!(epoch_millis(None), 0);
    assert_eq!(epoch_millis(Some(0)), 0);
    assert_eq!(epoch_millis(Some(1_785_000_000_123)), 1_785_000_000_123);
    assert_eq!(epoch_millis(Some(u64::MAX as u128)), u64::MAX);
    assert_eq!(epoch_millis(Some(u64::MAX as u128 + 1)), u64::MAX);
}
