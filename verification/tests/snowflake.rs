use chrono::{TimeZone, Utc};
use discord_recon::snowflake::{
    decode, decode_rows, format_utc, parse_snowflake, relative_age, SnowflakeError, DISCORD_EPOCH,
};

#[test]
fn epoch_is_2015_01_01() {
    assert_eq!(DISCORD_EPOCH, 1_420_070_400_000);
    assert_eq!(format_utc(DISCORD_EPOCH), "2015-01-01 00:00:00");
}

#[test]
fn decodes_discord_docs_example() {
    // Example snowflake from Discord's own documentation.
    let info = decode(80351110224678912);
    assert_eq!(info.timestamp_ms, 1_439_227_597_529);
    assert_eq!(format_utc(info.timestamp_ms), "2015-08-10 17:26:37");
    assert_eq!(info.worker_id, 0);
    assert_eq!(info.process_id, 1);
    assert_eq!(info.increment, 0);
}

#[test]
fn decodes_worker_process_increment_bits() {
    // Craft an id with known bits: ts=0, worker=1, process=2, inc=42.
    let id: u64 = (1 << 17) | (2 << 12) | 42;
    let info = decode(id + (1 << 22));
    assert_eq!(info.worker_id, 1);
    assert_eq!(info.process_id, 2);
    assert_eq!(info.increment, 42);
}

#[test]
fn parses_and_rejects_inputs() {
    assert_eq!(
        parse_snowflake("80351110224678912").unwrap(),
        80351110224678912
    );
    assert!(parse_snowflake("abc").is_err());
    assert!(parse_snowflake("").is_err());
    assert!(parse_snowflake("123").is_err()); // too small
    assert!(parse_snowflake("99999999999999999999999999").is_err()); // > u64
}

#[test]
fn computes_relative_age() {
    let now = Utc.with_ymd_and_hms(2026, 1, 1, 0, 0, 0).unwrap();
    let now_ms = now.timestamp_millis();
    let one_year_ms = (now.timestamp_millis() - 365 * 86_400_000) as u64;
    assert_eq!(relative_age(now_ms, one_year_ms), "1 year ago");
    let eleven_years_ms = (now.timestamp_millis() - 11 * 365 * 86_400_000) as u64;
    assert_eq!(relative_age(now_ms, eleven_years_ms), "11 years ago");
}

#[test]
fn snowflake_errors_name_their_cause() {
    assert_eq!(parse_snowflake("abc"), Err(SnowflakeError::NotNumeric));
    assert_eq!(parse_snowflake("   "), Err(SnowflakeError::NotNumeric));
    assert_eq!(parse_snowflake("-5"), Err(SnowflakeError::NotNumeric));
    assert_eq!(parse_snowflake("+4194304"), Err(SnowflakeError::NotNumeric));
    assert_eq!(
        parse_snowflake("18446744073709551616"),
        Err(SnowflakeError::OutOfRange)
    );
    assert_eq!(parse_snowflake("4194303"), Err(SnowflakeError::TooSmall));
    assert_eq!(parse_snowflake("4194304"), Ok(4194304));
    assert_eq!(
        parse_snowflake("18446744073709551615"),
        Ok(18446744073709551615)
    );
}

#[test]
fn snowflake_parse_trims_whitespace_and_keeps_leading_zeros() {
    assert_eq!(
        parse_snowflake("  80351110224678912\n"),
        Ok(80351110224678912)
    );
    assert_eq!(parse_snowflake("\u{3000}0004194304\t"), Ok(4194304));
}

#[test]
fn decode_recomposes_into_the_id() {
    for id in [4194304u64, 80351110224678912, 175928847299117063, u64::MAX] {
        let info = decode(id);
        assert_eq!(info.id, id);
        assert!(info.worker_id < 32 && info.process_id < 32 && info.increment < 4096);
        let rebuilt = ((info.timestamp_ms - DISCORD_EPOCH) << 22)
            | (info.worker_id << 17)
            | (info.process_id << 12)
            | info.increment;
        assert_eq!(rebuilt, id);
    }
}

#[test]
fn decode_of_largest_id() {
    let info = decode(u64::MAX);
    assert_eq!(info.timestamp_ms, (u64::MAX >> 22) + DISCORD_EPOCH);
    assert_eq!(info.worker_id, 31);
    assert_eq!(info.process_id, 31);
    assert_eq!(info.increment, 4095);
}

#[test]
fn format_utc_out_of_range() {
    assert_eq!(format_utc(u64::MAX), "(out of range)");
    assert_eq!(format_utc(1_439_227_597_999), "2015-08-10 17:26:37");
}

#[test]
fn relative_age_units_and_future() {
    let now: i64 = 1_767_225_600_000;
    let day: i64 = 86_400_000;
    assert_eq!(relative_age(now, (now - 3 * day) as u64), "3 days ago");
    assert_eq!(relative_age(now, (now - day) as u64), "1 day ago");
    assert_eq!(relative_age(now, (now - 45 * day) as u64), "1 month ago");
    assert_eq!(relative_age(now, (now - 90 * day) as u64), "3 months ago");
    assert_eq!(relative_age(now, (now - 5 * 3_600_000) as u64), "5 hours ago");
    assert_eq!(relative_age(now, (now - 59_999) as u64), "0 minutes ago");
    assert_eq!(relative_age(now, (now - 60_000) as u64), "1 minute ago");
    assert_eq!(relative_age(now, now as u64), "0 minutes ago");
    // A moment to come is always told as "in 0 minutes".
    assert_eq!(relative_age(now, (now + 10 * day) as u64), "in 0 minutes");
}

#[test]
fn decode_rows_of_a_batch() {
    let now: i64 = 1_767_225_600_000;
    let ids = vec!["80351110224678912".to_string()];
    let rows = decode_rows(&ids, now).unwrap();
    assert_eq!(rows.len(), 1);
    assert_eq!(
        rows[0],
        vec![
            "80351110224678912",
            "2015-08-10 17:26:37",
            "10 years ago",
            "0",
            "1",
            "0"
        ]
    );

    let bad = vec![
        "80351110224678912".to_string(),
        "oops".to_string(),
        "1".to_string(),
    ];
    let err = decode_rows(&bad, now).unwrap_err();
    assert_eq!(err.index, 1);
    assert_eq!(err.error, SnowflakeError::NotNumeric);
}

#[test]
fn printed_ids_parse_back_and_timestamps_grow() {
    let now: i64 = 1_767_225_600_000;
    let ids = vec!["175928847299117063".to_string(), "4194304".to_string()];
    let rows = decode_rows(&ids, now).unwrap();
    for (raw, row) in ids.iter().zip(rows.iter()) {
        assert_eq!(parse_snowflake(&row[0]), parse_snowflake(raw));
    }
    assert!(decode(80351110224678912).timestamp_ms <= decode(175928847299117063).timestamp_ms);
    assert_eq!(decode(4194304).timestamp_ms, DISCORD_EPOCH + 1);
}
