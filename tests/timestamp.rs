use t_invest_sdk::{
    datetime_utc_to_timestamp, naive_date_to_timestamp, timestamp_to_datetime_utc,
    timestamp_to_naive_date, CalendarDate, SdkError, Timestamp, UtcInstant,
};

#[test]
fn naive_date_to_timestamp_conversion() {
    // Test Unix epoch date (1970-01-01)
    let epoch_date = CalendarDate::from_ymd_opt(1970, 1, 1).unwrap();
    let timestamp = naive_date_to_timestamp(epoch_date);
    assert_eq!(timestamp.seconds, 0);
    assert_eq!(timestamp.nanos, 0);

    // Test a specific date (2023-12-25)
    let christmas_2023 = CalendarDate::from_ymd_opt(2023, 12, 25).unwrap();
    let timestamp = naive_date_to_timestamp(christmas_2023);
    // 2023-12-25 00:00:00 UTC is 1703462400 seconds since Unix epoch
    assert_eq!(timestamp.seconds, 1703462400);
    assert_eq!(timestamp.nanos, 0);

    // Test a date before epoch (1969-12-31)
    let pre_epoch_date = CalendarDate::from_ymd_opt(1969, 12, 31).unwrap();
    let timestamp = naive_date_to_timestamp(pre_epoch_date);
    assert_eq!(timestamp.seconds, -86400); // -1 day in seconds
    assert_eq!(timestamp.nanos, 0);

    // Test leap year date (2024-02-29)
    let leap_day = CalendarDate::from_ymd_opt(2024, 2, 29).unwrap();
    let timestamp = naive_date_to_timestamp(leap_day);
    // 2024-02-29 00:00:00 UTC is 1709164800 seconds since Unix epoch
    assert_eq!(timestamp.seconds, 1709164800);
    assert_eq!(timestamp.nanos, 0);
}

#[test]
fn timestamp_to_naive_date_conversion() {
    // Test Unix epoch timestamp
    let epoch_timestamp = Timestamp {
        seconds: 0,
        nanos: 0,
    };
    let date = timestamp_to_naive_date(&epoch_timestamp).unwrap();
    assert_eq!(date, CalendarDate::from_ymd_opt(1970, 1, 1).unwrap());

    // Test timestamp with time component (should extract only date part)
    let timestamp_with_time = Timestamp {
        seconds: 1703462400 + 3661, // Christmas 2023 at 01:01:01
        nanos: 500000000,           // 0.5 seconds
    };
    let date = timestamp_to_naive_date(&timestamp_with_time).unwrap();
    assert_eq!(date, CalendarDate::from_ymd_opt(2023, 12, 25).unwrap());

    // Test negative timestamp (before epoch)
    let pre_epoch_timestamp = Timestamp {
        seconds: -86400,
        nanos: 0,
    };
    let date = timestamp_to_naive_date(&pre_epoch_timestamp).unwrap();
    assert_eq!(date, CalendarDate::from_ymd_opt(1969, 12, 31).unwrap());

    // Test leap year timestamp
    let leap_day_timestamp = Timestamp {
        seconds: 1709164800,
        nanos: 0,
    };
    let date = timestamp_to_naive_date(&leap_day_timestamp).unwrap();
    assert_eq!(date, CalendarDate::from_ymd_opt(2024, 2, 29).unwrap());
}

#[test]
fn timestamp_to_naive_date_error_cases() {
    // Test invalid timestamp (too far in the future to be represented)
    let invalid_timestamp = Timestamp {
        seconds: i64::MAX,
        nanos: 0,
    };
    let result = timestamp_to_naive_date(&invalid_timestamp);
    assert!(result.is_err());
    assert!(result.unwrap_err().message().contains("Invalid timestamp"));

    // Test invalid nanoseconds (too large)
    let invalid_nanos = Timestamp {
        seconds: 0,
        nanos: 2_000_000_000, // More than 1 second worth of nanoseconds
    };
    let result = timestamp_to_naive_date(&invalid_nanos);
    assert!(result.is_err());
    assert!(result.unwrap_err().message().contains("Invalid timestamp"));
}

#[test]
fn round_trip_date_conversion() {
    // Test that converting date -> timestamp -> date gives the same result
    let original_dates = vec![
        CalendarDate::from_ymd_opt(1970, 1, 1).unwrap(),
        CalendarDate::from_ymd_opt(2023, 12, 25).unwrap(),
        CalendarDate::from_ymd_opt(1969, 12, 31).unwrap(),
        CalendarDate::from_ymd_opt(2024, 2, 29).unwrap(),
        CalendarDate::from_ymd_opt(2000, 1, 1).unwrap(),
        CalendarDate::from_ymd_opt(1999, 12, 31).unwrap(),
    ];

    for original_date in original_dates {
        let timestamp = naive_date_to_timestamp(original_date);
        let converted_back = timestamp_to_naive_date(&timestamp).unwrap();
        assert_eq!(original_date, converted_back);
    }
}

#[test]
fn timestamp_conversion_preserves_date_ignores_time() {
    // Test that timestamps with different times on the same date convert to the same date
    let base_date = CalendarDate::from_ymd_opt(2023, 6, 15).unwrap();
    let base_timestamp_seconds = naive_date_to_timestamp(base_date).seconds;

    let timestamps_same_day = vec![
        Timestamp {
            seconds: base_timestamp_seconds,
            nanos: 0,
        },
        Timestamp {
            seconds: base_timestamp_seconds + 3600, // +1 hour
            nanos: 0,
        },
        Timestamp {
            seconds: base_timestamp_seconds + 86399, // 23:59:59 same day
            nanos: 999999999,
        },
    ];

    for timestamp in timestamps_same_day {
        let converted_date = timestamp_to_naive_date(&timestamp).unwrap();
        assert_eq!(converted_date, base_date);
    }
}

#[test]
fn datetime_utc_to_timestamp_conversion() {
    // Test basic conversion
    let datetime = UtcInstant::from_timestamp(1672531200, 0).unwrap(); // 2023-01-01 00:00:00 UTC
    let timestamp = datetime_utc_to_timestamp(datetime);
    assert_eq!(timestamp.seconds, 1672531200);
    assert_eq!(timestamp.nanos, 0);

    // Test with nanoseconds
    let datetime = UtcInstant::from_timestamp(1672531200, 123456789).unwrap();
    let timestamp = datetime_utc_to_timestamp(datetime);
    assert_eq!(timestamp.seconds, 1672531200);
    assert_eq!(timestamp.nanos, 123456789);

    // Test edge cases
    let datetime = UtcInstant::from_timestamp(0, 0).unwrap(); // Unix epoch
    let timestamp = datetime_utc_to_timestamp(datetime);
    assert_eq!(timestamp.seconds, 0);
    assert_eq!(timestamp.nanos, 0);

    // Test negative timestamp (before Unix epoch)
    let datetime = UtcInstant::from_timestamp(-86400, 0).unwrap(); // 1969-12-31 00:00:00 UTC
    let timestamp = datetime_utc_to_timestamp(datetime);
    assert_eq!(timestamp.seconds, -86400);
    assert_eq!(timestamp.nanos, 0);
}

#[test]
fn timestamp_to_datetime_utc_conversion() {
    // Test basic conversion
    let timestamp = Timestamp {
        seconds: 1672531200,
        nanos: 0,
    };
    let datetime = timestamp_to_datetime_utc(&timestamp).unwrap();
    assert_eq!(datetime.timestamp(), 1672531200);
    assert_eq!(datetime.timestamp_subsec_nanos(), 0);

    // Test with nanoseconds
    let timestamp = Timestamp {
        seconds: 1672531200,
        nanos: 123456789,
    };
    let datetime = timestamp_to_datetime_utc(&timestamp).unwrap();
    assert_eq!(datetime.timestamp(), 1672531200);
    assert_eq!(datetime.timestamp_subsec_nanos(), 123456789);

    // Test Unix epoch
    let timestamp = Timestamp {
        seconds: 0,
        nanos: 0,
    };
    let datetime = timestamp_to_datetime_utc(&timestamp).unwrap();
    assert_eq!(datetime.timestamp(), 0);
    assert_eq!(datetime.timestamp_subsec_nanos(), 0);

    // Test negative timestamp (before Unix epoch)
    let timestamp = Timestamp {
        seconds: -86400,
        nanos: 0,
    };
    let datetime = timestamp_to_datetime_utc(&timestamp).unwrap();
    assert_eq!(datetime.timestamp(), -86400);
    assert_eq!(datetime.timestamp_subsec_nanos(), 0);
}

#[test]
fn timestamp_to_datetime_utc_error_cases() {
    // Test invalid timestamp (too far in the future)
    let invalid_timestamp = Timestamp {
        seconds: i64::MAX,
        nanos: 0,
    };
    let result = timestamp_to_datetime_utc(&invalid_timestamp);
    assert!(result.is_err());
    assert!(result.unwrap_err().message().contains("Invalid timestamp"));

    // Test invalid nanoseconds (too large)
    let invalid_nanos = Timestamp {
        seconds: 0,
        nanos: 2_000_000_000, // More than 1 second worth of nanoseconds
    };
    let result = timestamp_to_datetime_utc(&invalid_nanos);
    assert!(result.is_err());
    assert!(result.unwrap_err().message().contains("Invalid timestamp"));

    // Test negative nanoseconds
    let negative_nanos = Timestamp {
        seconds: 0,
        nanos: -1,
    };
    let result = timestamp_to_datetime_utc(&negative_nanos);
    assert!(result.is_err());
    assert!(result.unwrap_err().message().contains("Invalid timestamp"));
}

#[test]
fn round_trip_datetime_utc_conversion() {
    // Test that converting datetime -> timestamp -> datetime gives the same result
    let test_datetimes = vec![
        UtcInstant::from_timestamp(0, 0).unwrap(), // Unix epoch
        UtcInstant::from_timestamp(1672531200, 0).unwrap(), // 2023-01-01 00:00:00 UTC
        UtcInstant::from_timestamp(1672531200, 123456789).unwrap(), // With nanoseconds
        UtcInstant::from_timestamp(-86400, 0).unwrap(), // Before Unix epoch
        UtcInstant::from_timestamp(1703980800, 999999999).unwrap(), // 2023-12-31 00:00:00.999999999 UTC
    ];

    for original_datetime in test_datetimes {
        let timestamp = datetime_utc_to_timestamp(original_datetime);
        let converted_back = timestamp_to_datetime_utc(&timestamp).unwrap();
        assert_eq!(original_datetime, converted_back);
    }
}

#[test]
fn datetime_utc_preserves_precision() {
    // Test that conversion preserves nanosecond precision
    let datetime = UtcInstant::from_timestamp(1672531200, 123456789).unwrap();
    let timestamp = datetime_utc_to_timestamp(datetime);

    assert_eq!(timestamp.seconds, 1672531200);
    assert_eq!(timestamp.nanos, 123456789);

    let converted_back = timestamp_to_datetime_utc(&timestamp).unwrap();
    assert_eq!(converted_back.timestamp(), 1672531200);
    assert_eq!(converted_back.timestamp_subsec_nanos(), 123456789);
    assert_eq!(datetime, converted_back);
}

#[test]
fn datetime_utc_conversion_different_times() {
    // Test various times throughout a day
    let base_timestamp = 1672531200; // 2023-01-01 00:00:00 UTC

    let test_times = vec![
        (base_timestamp, 0),                 // Midnight
        (base_timestamp + 3600, 0),          // 1 AM
        (base_timestamp + 43200, 500000000), // Noon with 0.5 seconds
        (base_timestamp + 82800, 999999999), // 11 PM with max nanoseconds
    ];

    for (seconds, nanos) in test_times {
        let original_datetime = UtcInstant::from_timestamp(seconds, nanos).unwrap();
        let timestamp = datetime_utc_to_timestamp(original_datetime);
        let converted_back = timestamp_to_datetime_utc(&timestamp).unwrap();

        assert_eq!(original_datetime, converted_back);
        assert_eq!(timestamp.seconds, seconds);
        assert_eq!(timestamp.nanos, nanos as i32);
    }
}

#[test]
fn day_numbers_follow_the_calendar() {
    let epoch = CalendarDate::from_ymd_opt(1970, 1, 1).unwrap();
    assert_eq!(epoch.num_days_from_ce(), 719_163);
    let first = CalendarDate::from_ymd_opt(1, 1, 1).unwrap();
    assert_eq!(first.num_days_from_ce(), 1);
    assert!(CalendarDate::from_ymd_opt(2023, 2, 29).is_none());
    assert!(CalendarDate::from_ymd_opt(2023, 13, 1).is_none());
    assert_eq!(
        CalendarDate::from_num_days_from_ce_opt(719_163),
        Some(epoch)
    );
}

#[test]
fn calendar_range_edges() {
    let min = CalendarDate::from_ymd_opt(-262143, 1, 1).unwrap();
    let max = CalendarDate::from_ymd_opt(262142, 12, 31).unwrap();
    assert_eq!(min.num_days_from_ce(), -95_746_129);
    assert_eq!(max.num_days_from_ce(), 95_745_399);
    assert!(CalendarDate::from_ymd_opt(262143, 1, 1).is_none());
    assert!(CalendarDate::from_num_days_from_ce_opt(95_745_400).is_none());
    assert!(CalendarDate::from_num_days_from_ce_opt(-95_746_130).is_none());

    assert_eq!(naive_date_to_timestamp(min).seconds, -8_334_601_228_800);
    let last = Timestamp { seconds: 8_210_266_876_799, nanos: 999_999_999 };
    assert_eq!(timestamp_to_naive_date(&last), Ok(max));
    let beyond = Timestamp { seconds: 8_210_266_876_800, nanos: 0 };
    assert_eq!(
        timestamp_to_naive_date(&beyond),
        Err(SdkError::InvalidTimestamp { seconds: 8_210_266_876_800, nanos: 0 })
    );
    let before = Timestamp { seconds: -8_334_601_228_801, nanos: 0 };
    assert!(timestamp_to_datetime_utc(&before).is_err());
}

#[test]
fn leap_second_nanos_are_rejected() {
    let ts = Timestamp { seconds: 59, nanos: 1_500_000_000 };
    assert_eq!(
        timestamp_to_naive_date(&ts),
        Err(SdkError::InvalidTimestamp { seconds: 59, nanos: 1_500_000_000 })
    );
    assert!(timestamp_to_datetime_utc(&ts).is_err());
    assert!(UtcInstant::from_timestamp(59, 1_500_000_000).is_none());
    assert!(UtcInstant::from_timestamp(0, 1_000_000_000).is_none());
}

#[test]
fn negative_nanos_fail_for_dates() {
    let ts = Timestamp { seconds: 100, nanos: -1 };
    let err = timestamp_to_naive_date(&ts).unwrap_err();
    assert_eq!(err, SdkError::InvalidTimestamp { seconds: 100, nanos: -1 });
    assert_eq!(err.message(), "Invalid timestamp: 100 seconds, -1 nanos");
}

#[test]
fn time_of_day_before_epoch_truncates_to_that_day() {
    let date = CalendarDate::from_ymd_opt(1969, 12, 31).unwrap();
    let ts = Timestamp { seconds: -1, nanos: 999_999_999 };
    assert_eq!(timestamp_to_naive_date(&ts), Ok(date));
}

#[test]
fn leap_years_follow_the_gregorian_rule() {
    assert!(CalendarDate::from_ymd_opt(2000, 2, 29).is_some());
    assert!(CalendarDate::from_ymd_opt(1900, 2, 29).is_none());
    assert!(CalendarDate::from_ymd_opt(2023, 4, 31).is_none());
    assert!(CalendarDate::from_ymd_opt(2023, 1, 0).is_none());
    let march_first = CalendarDate::from_ymd_opt(2024, 3, 1).unwrap();
    let leap_day = CalendarDate::from_ymd_opt(2024, 2, 29).unwrap();
    assert_eq!(march_first.num_days_from_ce(), leap_day.num_days_from_ce() + 1);
    assert_eq!(CalendarDate::from_ymd_opt(0, 12, 31).unwrap().num_days_from_ce(), 0);
}
