use atuin_web::templates::{uuid7_sliceable, uuid7_timestamp, uuid7_timestamp_at};

const EM_DASH: &str = "\u{2014}";

#[test]
fn uuid7_age_to_the_minute() {
    let id = "00000000-0000-7000-8000-000000000000";
    assert_eq!(uuid7_timestamp_at(id, Some(9_420_000)), "2h 37m ago");
    assert_eq!(uuid7_timestamp_at(id, Some(9_479_999)), "2h 37m ago");
    assert_eq!(uuid7_timestamp_at(id, Some(59_999)), "0s ago");
    assert_eq!(uuid7_timestamp_at(id, None), EM_DASH);
}

#[test]
fn uuid7_reads_the_first_48_bits() {
    // 0x0000_0001_0000 ms = 65536 ms after the epoch.
    let id = "00000001-0000-7000-8000-000000000000";
    assert_eq!(uuid7_timestamp_at(id, Some(65_536 + 3_600_000)), "1h ago");
    assert_eq!(uuid7_timestamp_at(id, Some(65_535)), EM_DASH);
    let upper = "0000000A-BCDE-7000";
    assert_eq!(uuid7_timestamp_at(upper, Some(0xA_BCDE + 120_000)), "2m ago");
}

#[test]
fn uuid7_refuses_what_is_no_hex() {
    assert_eq!(uuid7_timestamp_at("short", Some(0)), EM_DASH);
    assert_eq!(uuid7_timestamp_at("zzzzzzzzzzzzzzzz", Some(u64::MAX)), EM_DASH);
    // A leading '+' is read as a sign.
    assert_eq!(uuid7_timestamp_at("+0000000000100", Some(60_001)), "1m ago");
}

#[test]
fn uuid7_slicing() {
    assert!(uuid7_sliceable("0000000000000000"));
    assert!(uuid7_sliceable("\u{e9}"));
    assert!(!uuid7_sliceable("00000000000\u{e9}0000"));
    assert!(uuid7_sliceable("0000000000\u{e9}0000"));
    assert_eq!(uuid7_timestamp_at("0000000000\u{e9}0000", Some(1)), EM_DASH);
}

#[test]
fn uuid7_with_the_clock() {
    let s = uuid7_timestamp("00000000-0000-7000-8000-000000000000");
    assert!(s.ends_with(" ago"));
    let future = uuid7_timestamp("ffffffff-ffff-7000-8000-000000000000");
    assert_eq!(future, EM_DASH);
}
