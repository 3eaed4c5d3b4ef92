use the_numbers::ai_day::DayResponse;
use the_numbers::grade::Grade;
use the_numbers::storage::{date_text, day_cache_key, sound_enabled, sound_flag, Progress};

#[test]
fn cache_keys() {
    assert_eq!(day_cache_key(Grade::G3, 7), "the_numbers_day_v1_3_7");
    assert_eq!(day_cache_key(Grade::G5, 12), "the_numbers_day_v1_5_12");
}

#[test]
fn date_texts_are_zero_padded() {
    assert_eq!(date_text(2024, 3, 5), "2024-03-05");
    assert_eq!(date_text(2024, 12, 31), "2024-12-31");
    assert_eq!(date_text(987, 1, 1), "0987-01-01");
    assert_eq!(date_text(12345, 10, 10), "12345-10-10");
    assert_eq!(date_text(-5, 1, 2), format!("{:04}-{:02}-{:02}", -5, 1, 2));
}

#[test]
fn sound_setting() {
    assert!(sound_enabled(None));
    assert!(sound_enabled(Some("1")));
    assert!(!sound_enabled(Some("0")));
    assert!(!sound_enabled(Some("yes")));
    assert_eq!(sound_flag(true), "1");
    assert_eq!(sound_flag(false), "0");
}

#[test]
fn completing_a_day_is_idempotent() {
    let mut p = Progress::new();
    p.mark_completed(3);
    p.mark_completed(5);
    p.mark_completed(3);
    assert_eq!(p.completed, vec![3, 5]);
    assert!(p.is_completed(5));
    assert!(!p.is_completed(4));
}

#[test]
fn from_ai_source() {
    let d = DayResponse {
        version: 1,
        grade: 1,
        day_id: 1,
        date_ymd: "2024-01-01".to_string(),
        items: vec![],
        source: "ai".to_string(),
    };
    assert!(d.from_ai());
    let f = DayResponse { source: "fallback".to_string(), ..d };
    assert!(!f.from_ai());
}
