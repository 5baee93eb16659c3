use fuel_logger::localtime::{snapshot_relative_path, stamp_text, LocalDateTime};

#[test]
fn snapshot_path_uses_prague_local_time() {
    // 2023-11-14 22:13:20 UTC is 23:13:20 in Prague (CET, UTC+1).
    assert_eq!(snapshot_relative_path(1, 1_700_000_000_000_000_000), "1/2023-11-14-23-13-20.png");
    // 2023-07-22 04:26:40 UTC is 06:26:40 in Prague (CEST, UTC+2).
    assert_eq!(snapshot_relative_path(12, 1_690_000_000_500_000_000), "12/2023-07-22-06-26-40.png");
}

fn at(year: i32, month: u32, day: u32, hour: u32, minute: u32, second: u32) -> LocalDateTime {
    LocalDateTime { year, month, day, hour, minute, second, nanosecond: 0 }
}

#[test]
fn stamps_pad_every_field() {
    assert_eq!(stamp_text(at(2023, 11, 14, 23, 13, 20)), "2023-11-14-23-13-20");
    assert_eq!(stamp_text(at(2024, 1, 2, 3, 4, 5)), "2024-01-02-03-04-05");
    assert_eq!(stamp_text(at(987, 12, 31, 0, 0, 0)), "0987-12-31-00-00-00");
    assert_eq!(stamp_text(at(5, 6, 7, 8, 9, 10)), "0005-06-07-08-09-10");
}

#[test]
fn stamps_sign_years_outside_four_digits() {
    assert_eq!(stamp_text(at(-1, 1, 1, 0, 0, 0)), "-0001-01-01-00-00-00");
    assert_eq!(stamp_text(at(-12345, 1, 1, 0, 0, 0)), "-12345-01-01-00-00-00");
    assert_eq!(stamp_text(at(10000, 1, 1, 0, 0, 0)), "+10000-01-01-00-00-00");
    assert_eq!(stamp_text(at(9999, 1, 1, 0, 0, 0)), "9999-01-01-00-00-00");
}
