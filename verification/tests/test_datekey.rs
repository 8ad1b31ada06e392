use wiserone::datekey::{html_file_name, is_today, DateKey};

/// The key renders zero-padded as `YYYY_MM_DD`.
#[test]
fn test_format_key_zero_padded() {
    let key = DateKey { year: 2024, month: 1, day: 5 };
    assert_eq!(key.format_key(), "2024_01_05");
    let key = DateKey { year: 987, month: 12, day: 31 };
    assert_eq!(key.format_key(), "0987_12_31");
}

/// `is_today` accepts exactly the matching date, comparing each
/// component numerically so zero padding can never cause a mismatch.
#[test]
fn test_is_today_matches_components() {
    let key = DateKey { year: 2024, month: 1, day: 5 };
    assert!(is_today("2024-01-05", &key));
    assert!(!is_today("2024-01-06", &key));
    assert!(!is_today("2024-02-05", &key));
    assert!(!is_today("2023-01-05", &key));
}

/// A candidate that is not exactly `YYYY-MM-DD` never matches.
#[test]
fn test_is_today_rejects_malformed() {
    let key = DateKey { year: 2024, month: 1, day: 5 };
    assert!(!is_today("2024-1-5", &key));
    assert!(!is_today("2024-01-05T00:00:00", &key));
    assert!(!is_today("2024_01_05", &key));
    assert!(!is_today("", &key));
    assert!(!is_today("yyyy-mm-dd", &key));
}

/// Component validation admits exactly the renderable dates.
#[test]
fn test_from_ymd_ranges() {
    assert!(DateKey::from_ymd(2024, 1, 5).is_some());
    assert!(DateKey::from_ymd(0, 1, 1).is_some());
    assert!(DateKey::from_ymd(9999, 12, 31).is_some());
    assert!(DateKey::from_ymd(-1, 1, 1).is_none());
    assert!(DateKey::from_ymd(10000, 1, 1).is_none());
    assert!(DateKey::from_ymd(2024, 0, 1).is_none());
    assert!(DateKey::from_ymd(2024, 13, 1).is_none());
    assert!(DateKey::from_ymd(2024, 1, 0).is_none());
    assert!(DateKey::from_ymd(2024, 1, 32).is_none());
}

/// The clock yields a usable key.
#[test]
fn test_today_is_renderable() {
    let key = DateKey::today().expect("the current date should be renderable");
    let rendered = key.format_key();
    assert_eq!(rendered.len(), 10);
    assert_eq!(&rendered[4..5], "_");
    assert_eq!(&rendered[7..8], "_");
}

/// A page's file name is the date part of `dateAdded`, underscored,
/// with the `.html` extension.
#[test]
fn test_html_file_name() {
    assert_eq!(html_file_name("2024-01-02T12:34:56"), "2024_01_02.html");
    assert_eq!(html_file_name("2024-01-02"), "2024_01_02.html");
    assert_eq!(html_file_name(""), ".html");
    assert_eq!(html_file_name("T2024"), ".html");
}
