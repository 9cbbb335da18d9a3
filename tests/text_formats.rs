use simple_process_tracker_rs::process_scanner::from_utf16_until_nul_byte;
use simple_process_tracker_rs::socket::{socket_name_for, SOCKET_NAMESPACED, SOCKET_PATH};
use simple_process_tracker_rs::{
    duration_to_string, get_socket_name, parse_datetime, parse_range, string_to_duration,
};

#[test]
fn duration_round_trip_on_padded_text() {
    for text in ["00:00:00", "01:00:00", "34:17:36", "99:59:59", "123:04:05"] {
        let seconds = string_to_duration(text).unwrap();
        assert_eq!(duration_to_string(seconds), text);
    }
    assert_eq!(string_to_duration("34:17:36").unwrap(), 123456);
    assert_eq!(duration_to_string(123456), "34:17:36");
}

#[test]
fn duration_round_trip_on_numbers() {
    for n in [0u64, 59, 60, 3599, 3600, 86399, 123456, u64::MAX] {
        assert_eq!(string_to_duration(&duration_to_string(n)).unwrap(), n);
    }
    assert_eq!(duration_to_string(u64::MAX), "5124095576030431:00:15");
}

#[test]
fn duration_accepts_unnormalised_parts() {
    assert_eq!(string_to_duration("0:90:00").unwrap(), 5400);
    assert_eq!(string_to_duration("+1:0:5").unwrap(), 3605);
}

#[test]
fn duration_rejects_malformed_text() {
    assert_eq!(string_to_duration("abc").unwrap_err(), "invalid duration input");
    assert_eq!(string_to_duration("0").unwrap_err(), "invalid duration input");
    assert_eq!(string_to_duration("1:2").unwrap_err(), "invalid duration input");
    assert_eq!(string_to_duration("1:2:3:4").unwrap_err(), "invalid duration input");
    assert_eq!(
        string_to_duration("a:b:c").unwrap_err(),
        "invalid duration a:b:c -> invalid digit found in string"
    );
    assert_eq!(
        string_to_duration("::").unwrap_err(),
        "invalid duration :: -> cannot parse integer from empty string"
    );
    assert_eq!(
        string_to_duration("-1:00:00").unwrap_err(),
        "invalid duration -1:00:00 -> invalid digit found in string"
    );
    assert_eq!(
        string_to_duration("1:+:00").unwrap_err(),
        "invalid duration 1:+:00 -> invalid digit found in string"
    );
    assert!(string_to_duration(" 1:00:00").is_err());
}

#[test]
fn duration_rejects_overflow() {
    assert_eq!(
        string_to_duration("5124095576030431:00:16").unwrap_err(),
        "invalid duration 5124095576030431:00:16 -> number too large to fit in target type"
    );
    assert_eq!(
        string_to_duration("18446744073709551616:x:00").unwrap_err(),
        "invalid duration 18446744073709551616:x:00 -> number too large to fit in target type"
    );
    assert_eq!(
        string_to_duration("5124095576030431:00:15").unwrap(),
        u64::MAX
    );
}

#[test]
fn range_is_ascending_without_repeats() {
    assert_eq!(parse_range("3-5,0-4,4").unwrap(), vec![0, 1, 2, 3, 4, 5]);
    assert_eq!(parse_range("7,5,0-3").unwrap(), vec![0, 1, 2, 3, 5, 7]);
    assert_eq!(parse_range("2,2,2").unwrap(), vec![2]);
    assert_eq!(parse_range("5-3").unwrap(), Vec::<usize>::new());
    assert_eq!(parse_range("4-4").unwrap(), vec![4]);
}

#[test]
fn range_rejects_malformed_tokens() {
    assert_eq!(parse_range("1-2-3").unwrap_err(), "invalid range 1-2-3");
    assert_eq!(parse_range("x").unwrap_err(), "invalid digit found in string");
    assert_eq!(parse_range("").unwrap_err(), "cannot parse integer from empty string");
    assert_eq!(parse_range("1,,2").unwrap_err(), "cannot parse integer from empty string");
    assert_eq!(parse_range("-3").unwrap_err(), "cannot parse integer from empty string");
    assert_eq!(parse_range("1,2x,y").unwrap_err(), "invalid digit found in string");
    assert_eq!(
        parse_range("99999999999999999999").unwrap_err(),
        "number too large to fit in target type"
    );
}

#[test]
fn datetime_text_is_read_in_its_format() {
    let d = parse_datetime("2023/05/06 07:08:09").unwrap();
    assert_eq!(d.format("%Y-%m-%d %H:%M:%S").to_string(), "2023-05-06 07:08:09");
    let reason = chrono::NaiveDateTime::parse_from_str("2023-05-06 07:08:09", "%Y/%m/%d %H:%M:%S")
        .unwrap_err()
        .to_string();
    assert_eq!(
        parse_datetime("2023-05-06 07:08:09").unwrap_err(),
        format!("invalid date time 2023-05-06 07:08:09 -> {reason}")
    );
    assert!(parse_datetime("2023/13/06 07:08:09").is_err());
}

#[test]
fn utf16_names_stop_at_the_first_zero() {
    let mut buffer = [0u16; 8];
    for (i, c) in "bash".encode_utf16().enumerate() {
        buffer[i] = c;
    }
    buffer[6] = 'x' as u16;
    assert_eq!(from_utf16_until_nul_byte(&buffer).unwrap(), "bash");
    let full: Vec<u16> = "abc".encode_utf16().collect();
    assert_eq!(from_utf16_until_nul_byte(&full).unwrap(), "abc");
    let pair: Vec<u16> = "a\u{1F600}b".encode_utf16().chain([0, 0x62]).collect();
    assert_eq!(from_utf16_until_nul_byte(&pair).unwrap(), "a\u{1F600}b");
    assert_eq!(
        from_utf16_until_nul_byte(&[0xDC00, 0xD800, 0]).unwrap_err(),
        "invalid utf-16: lone surrogate found"
    );
    assert_eq!(
        from_utf16_until_nul_byte(&[0xD800, 0x61, 0]).unwrap_err(),
        "invalid utf-16: lone surrogate found"
    );
}

#[test]
fn socket_name_follows_namespace_support() {
    assert_eq!(socket_name_for(true), "@simple-process-tracker.sock");
    assert_eq!(socket_name_for(false), "/tmp/simple-process-tracker.sock");
    let name = get_socket_name();
    assert!(name == SOCKET_NAMESPACED || name == SOCKET_PATH);
}
