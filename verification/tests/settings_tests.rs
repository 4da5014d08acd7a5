use botinski::settings::{
    clamp_idle_leave_secs, encode_admin_role_ids, parse_admin_role_ids, parse_role_id_list,
    MAX_IDLE_LEAVE_SECS,
};

#[test]
fn admin_role_ids_round_trip_large_snowflakes() {
    // Discord snowflakes can exceed 2^53; the string encoding must survive
    // the round trip without precision loss.
    let ids: Vec<u64> = vec![1, 987654321098765432, u64::MAX];
    let encoded = encode_admin_role_ids(&ids);
    let decoded = parse_admin_role_ids(&encoded);
    assert_eq!(decoded, ids);
}

#[test]
fn admin_role_ids_empty_round_trip() {
    let encoded = encode_admin_role_ids(&[]);
    assert_eq!(encoded, "[]");
    let decoded = parse_admin_role_ids(&encoded);
    assert!(decoded.is_empty());
}

#[test]
fn admin_role_ids_parse_garbage_yields_empty() {
    assert!(parse_admin_role_ids("not json").is_empty());
    assert!(parse_admin_role_ids("[1, 2, 3]").is_empty()); // numbers, not strings
}

#[test]
fn admin_role_ids_are_written_as_json_strings() {
    assert_eq!(encode_admin_role_ids(&[5, 18446744073709551615]), "[\"5\",\"18446744073709551615\"]");
}

#[test]
fn admin_role_ids_skip_entries_that_are_not_decimals() {
    assert_eq!(parse_admin_role_ids("[\"12\", \"x\", \"\", \"-3\", \"7\"]"), vec![12u64, 7]);
    // one past u64::MAX does not fit
    assert_eq!(parse_admin_role_ids("[\"18446744073709551616\"]"), Vec::<u64>::new());
}

#[test]
fn role_id_list_keeps_order() {
    let items = vec!["3".to_string(), "1".to_string(), "2".to_string()];
    assert_eq!(parse_role_id_list(&items), vec![3u64, 1, 2]);
}

#[test]
fn idle_leave_is_clamped_to_range() {
    assert_eq!(clamp_idle_leave_secs(-5), 0);
    assert_eq!(clamp_idle_leave_secs(0), 0);
    assert_eq!(clamp_idle_leave_secs(120), 120);
    assert_eq!(clamp_idle_leave_secs(3600), 3600);
    assert_eq!(clamp_idle_leave_secs(3601), MAX_IDLE_LEAVE_SECS);
    assert_eq!(clamp_idle_leave_secs(i64::MAX), 3600);
}

use botinski::settings::{read_admin_role_ids, role_ids_acceptable};

#[test]
fn role_id_zero_is_no_role_id() {
    assert_eq!(read_admin_role_ids("[\"4\", \"9\"]"), Some(vec![4u64, 9]));
    assert_eq!(read_admin_role_ids("[\"4\", \"0\"]"), None);
    assert_eq!(read_admin_role_ids("[\"+00\"]"), None);
    assert_eq!(read_admin_role_ids("not json"), Some(vec![]));
    assert!(role_ids_acceptable(&vec!["1".to_string(), "x".to_string()]));
    assert!(!role_ids_acceptable(&vec!["1".to_string(), "0".to_string()]));
}
