//! Log lines.

use dooraccess_rs::log::{compose, epoch_parts, render, secs_in_time_t_range, Tm};

fn make_tm(year: i32, mon: i32, mday: i32, hour: i32, min: i32, sec: i32) -> Tm {
    Tm {
        tm_year: year - 1900,
        tm_mon: mon - 1,
        tm_mday: mday,
        tm_hour: hour,
        tm_min: min,
        tm_sec: sec,
    }
}

#[test]
fn render_exact_value_with_millis_zero_pad() {
    let tm = make_tm(1970, 1, 1, 0, 0, 1);
    assert_eq!(
        render(&tm, 7, "hello"),
        "dooraccess-rs: 1970/01/01 00:00:01.007 hello"
    );
}

#[test]
fn render_millis_no_pad_and_field_widths() {
    let tm = make_tm(2026, 6, 10, 9, 5, 3);
    assert_eq!(
        render(&tm, 123, "ring detected"),
        "dooraccess-rs: 2026/06/10 09:05:03.123 ring detected"
    );
}

#[test]
fn format_log_line_pre_epoch_degrades_no_panic() {
    let (secs, millis) = epoch_parts(None);
    assert_eq!((secs, millis), (0, 0));
    let line = compose(Some(make_tm(1970, 1, 1, 0, 0, 0)), millis, "x");
    assert!(!line.is_empty());
    assert!(line.contains('x'), "{line}");
    assert!(line.starts_with("dooraccess-rs: "), "{line}");
    assert!(line.contains(".000 x"), "{line}");
}

#[test]
fn compose_localtime_null_degrades_to_placeholder() {
    assert_eq!(
        compose(None, 0, "x"),
        "dooraccess-rs: 1900/01/00 00:00:00.000 x"
    );
    assert_eq!(
        compose(None, 42, "ring"),
        "dooraccess-rs: 1900/01/00 00:00:00.042 ring"
    );
}

#[test]
fn compose_localtime_some_renders_given_tm() {
    let tm = make_tm(1970, 1, 1, 0, 0, 1);
    assert_eq!(
        compose(Some(tm), 7, "y"),
        "dooraccess-rs: 1970/01/01 00:00:01.007 y"
    );
}

#[test]
fn secs_in_time_t_range_detects_i32_truncation() {
    assert!(secs_in_time_t_range::<i32>(i64::from(i32::MAX)));
    assert!(!secs_in_time_t_range::<i32>(i64::from(i32::MAX) + 1));
    assert!(!secs_in_time_t_range::<i32>(4_000_000_000));
    assert!(secs_in_time_t_range::<i32>(1_700_000_000));
    assert!(secs_in_time_t_range::<i64>(i64::MAX));
}

#[test]
fn format_log_line_normal_shape() {
    let (secs, millis) = epoch_parts(Some((1_700_000_000, 456_000_000)));
    assert_eq!(secs, 1_700_000_000);
    let line = compose(Some(make_tm(2023, 11, 14, 22, 13, 20)), millis, "msg");
    assert!(line.starts_with("dooraccess-rs: "), "{line}");
    assert!(line.ends_with(" msg"), "{line}");
    assert!(line.contains(".456 "), "{line}");
}

#[test]
fn odd_times_are_written_too() {
    assert_eq!(
        render(&make_tm(12345, 1, 1, -1, 0, 0), 1000, ""),
        "dooraccess-rs: 12345/01/01 -1:00:00.1000 "
    );
}

#[test]
fn the_largest_year_and_month_are_written() {
    let tm = Tm {
        tm_year: i32::MAX,
        tm_mon: i32::MAX,
        tm_mday: 1,
        tm_hour: 2,
        tm_min: 3,
        tm_sec: 4,
    };
    let line = "dooraccess-rs: 2147485547/2147483648/01 02:03:04.005 x";
    assert_eq!(render(&tm, 5, "x"), line);
    assert_eq!(compose(Some(tm), 5, "x"), line);
}
