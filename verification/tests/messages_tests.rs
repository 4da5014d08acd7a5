use std::collections::VecDeque;

use botinski::messages::{
    invite_url, is_command_admin, now_playing_message, queue_message, queued_playlist_message,
    queued_track_message,
};
use botinski::player::PlaylistResult;
use botinski::track::Track;

fn track(title: &str, secs: Option<u64>) -> Track {
    Track::new(title.to_string(), "https://x".to_string(), secs, "alice".to_string(), 1, false)
}

#[test]
fn queue_listing() {
    let q: VecDeque<Track> = VecDeque::new();
    assert_eq!(queue_message(&None, &q), "**Nothing playing**\n_Queue is empty_");

    let mut q = VecDeque::new();
    q.push_back(track("A", Some(61)));
    q.push_back(track("B", None));
    assert_eq!(
        queue_message(&Some(track("Now", Some(3600))), &q),
        "**Now playing:** Now (1:00:00)\n\n**Up next:**\n1. A (1:01)\n2. B (?)\n"
    );
}

#[test]
fn long_queues_are_cut_at_twenty() {
    let mut q = VecDeque::new();
    for i in 0..23 {
        q.push_back(track(&format!("t{i}"), Some(1)));
    }
    let msg = queue_message(&None, &q);
    assert!(msg.contains("20. t19 (0:01)\n"));
    assert!(!msg.contains("t20"));
    assert!(msg.ends_with("…and 3 more"));
}

#[test]
fn now_playing_and_queued_replies() {
    assert_eq!(now_playing_message(&None), "Nothing playing");
    assert_eq!(
        now_playing_message(&Some(track("Song", Some(125)))),
        "**Now playing:** Song (2:05) — requested by alice"
    );
    assert_eq!(queued_track_message(&track("Song", None)), "Queued **Song** (?)");
    assert_eq!(
        queued_playlist_message(&PlaylistResult { title: Some("Mix".to_string()), added: 12 }),
        "Queued **12** track(s) from **Mix**"
    );
    assert_eq!(queued_playlist_message(&PlaylistResult { title: None, added: 1 }), "Queued **1** track(s)");
}

#[test]
fn command_admin_check() {
    assert!(is_command_admin(7, &Some(vec![7]), &None, &vec![], &None));
    assert!(!is_command_admin(7, &Some(vec![8]), &None, &vec![], &None));
    assert!(is_command_admin(7, &None, &Some(vec![5]), &vec![4, 5], &None));
    assert!(is_command_admin(7, &None, &None, &vec![4, 5], &Some(vec![4])));
    assert!(!is_command_admin(7, &None, &None, &vec![4, 5], &Some(vec![])));
    assert!(!is_command_admin(7, &None, &Some(vec![6]), &vec![4, 5], &Some(vec![9])));
}

#[test]
fn invite_link() {
    assert_eq!(
        invite_url(1234),
        "https://discord.com/oauth2/authorize?client_id=1234&scope=bot&permissions=3072"
    );
}
