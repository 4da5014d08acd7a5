use botinski::track::{format_duration, format_secs, Track};

#[test]
fn seconds_format_as_clock_text() {
    assert_eq!(format_secs(0), "0:00");
    assert_eq!(format_secs(7), "0:07");
    assert_eq!(format_secs(65), "1:05");
    assert_eq!(format_secs(599), "9:59");
    assert_eq!(format_secs(3599), "59:59");
    assert_eq!(format_secs(3600), "1:00:00");
    assert_eq!(format_secs(3661), "1:01:01");
    assert_eq!(format_secs(36000 + 600 + 10), "10:10:10");
    assert_eq!(format_secs(u64::MAX), "5124095576030431:00:15");
}

#[test]
fn unknown_duration_is_a_question_mark() {
    assert_eq!(format_duration(None), "?");
    assert_eq!(format_duration(Some(125)), "2:05");
}

#[test]
fn new_tracks_keep_their_fields_and_get_fresh_ids() {
    let a = Track::new("t".to_string(), "u".to_string(), Some(3), "n".to_string(), 9, false);
    let b = Track::new("t".to_string(), "u".to_string(), Some(3), "n".to_string(), 9, false);
    assert_eq!(a.title, "t");
    assert_eq!(a.url, "u");
    assert_eq!(a.duration_secs, Some(3));
    assert_eq!(a.requested_by_name, "n");
    assert_eq!(a.requested_by_id, 9);
    assert!(!a.is_live);
    assert_ne!(a.id, b.id);
    let c = a.duplicate();
    assert_eq!(c.id, a.id);
    assert_eq!(c.title, a.title);
}
