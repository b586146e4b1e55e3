use chrono::TimeZone;
use solar_sonar::log_kind::LogName;
use solar_sonar::logs::{ChatLogFileParts, LogDirKind, LogFile};
use solar_sonar::time::Timestamp;

fn utc(year: i32, month: u32, day: u32, hour: u32, min: u32, sec: u32) -> Timestamp {
    let dt = chrono::Utc.with_ymd_and_hms(year, month, day, hour, min, sec).single().unwrap();
    Timestamp(dt.timestamp(), dt.timestamp_subsec_nanos())
}

#[test]
fn test_log_filename() {
    const FILENAME: &str = "our.intel_20260212_035141_12345678.txt";
    let expected = Some(LogFile::new(
        FILENAME.to_string(),
        ChatLogFileParts {
            name: LogName::Chat("our.intel".to_string()),
            character_id: 12345678,
            timestamp: utc(2026, 2, 12, 3, 51, 41),
        },
    ));
    let actual = LogFile::from_path_buf(FILENAME.to_string(), LogDirKind::Chat);
    assert_eq!(expected, actual);
}
