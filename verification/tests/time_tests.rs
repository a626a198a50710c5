use bubble_bridge::time::{date_to_ms, ms_to_date, systemtime_to_millis};

#[test]
fn ms_to_date_is_nanoseconds() {
    assert_eq!(ms_to_date(1234), 1_234_000_000);
    assert_eq!(ms_to_date(0), 0);
}

#[test]
fn date_to_ms_truncates_to_whole_milliseconds() {
    assert_eq!(date_to_ms(1_234_999_999), 1234);
    assert_eq!(systemtime_to_millis(999_999), 0);
}

#[test]
fn date_round_trip() {
    for ms in [0u64, 1, 1_700_000_000_000, u64::MAX] {
        assert_eq!(date_to_ms(ms_to_date(ms)), ms);
    }
}

#[test]
fn date_to_ms_matches_system_time() {
    let t = std::time::SystemTime::UNIX_EPOCH + std::time::Duration::from_nanos(1_700_000_000_123_456_789);
    let nanos = t.duration_since(std::time::SystemTime::UNIX_EPOCH).unwrap().as_nanos() as i128;
    assert_eq!(systemtime_to_millis(nanos), t.duration_since(std::time::SystemTime::UNIX_EPOCH).unwrap().as_millis() as u64);
}
