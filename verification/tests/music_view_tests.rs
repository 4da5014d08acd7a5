use botinski::components::PlaybackStatus;
use botinski::music_view::{
    controls, music_action_path, now_playing_card, progress_line, queue_row_detail, MusicControl,
    NowPlayingCard, ProgressLine,
};
use botinski::track::Track;

fn names(cs: &[MusicControl]) -> Vec<&'static str> {
    cs.iter().map(|c| c.name()).collect()
}

#[test]
fn controls_follow_status_and_role() {
    assert_eq!(names(&controls(&PlaybackStatus::Playing, false)), vec!["pause"]);
    assert_eq!(names(&controls(&PlaybackStatus::Paused, false)), vec!["resume"]);
    assert!(controls(&PlaybackStatus::Stopped, false).is_empty());
    assert_eq!(names(&controls(&PlaybackStatus::Playing, true)), vec!["pause", "skip", "clear", "leave"]);
    assert_eq!(names(&controls(&PlaybackStatus::Stopped, true)), vec!["skip", "clear", "leave"]);
}

#[test]
fn action_paths() {
    assert_eq!(music_action_path(123, "move-up"), "/api/guilds/123/music/move-up");
    assert_eq!(music_action_path(0, "pause"), "/api/guilds/0/music/pause");
}

#[test]
fn now_playing_card_states() {
    assert!(matches!(now_playing_card(false, true), NowPlayingCard::NotConnected));
    assert!(matches!(now_playing_card(true, true), NowPlayingCard::Current));
    assert!(matches!(now_playing_card(true, false), NowPlayingCard::Idle));
}

#[test]
fn progress_lines() {
    assert!(matches!(progress_line(Some(61), Some(3600)),
        ProgressLine::Bar { elapsed, total } if elapsed == "1:01" && total == "1:00:00"));
    assert!(matches!(progress_line(Some(5), None), ProgressLine::Elapsed(s) if s == "0:05 / ?"));
    assert!(matches!(progress_line(None, Some(5)), ProgressLine::Hidden));
}

#[test]
fn queue_row_details() {
    let t = Track::new("t".to_string(), "u".to_string(), Some(90), "ann".to_string(), 1, false);
    assert_eq!(queue_row_detail(&t), "1:30 · ann");
    let live = Track::new("t".to_string(), "u".to_string(), None, "bo".to_string(), 1, true);
    assert_eq!(queue_row_detail(&live), "LIVE · bo");
    let unknown = Track::new("t".to_string(), "u".to_string(), None, "cy".to_string(), 1, false);
    assert_eq!(queue_row_detail(&unknown), "? · cy");
}

use botinski::music_view::{queue_panel, BulkAction};

#[test]
fn only_admins_get_the_volume_slider_and_bulk_actions() {
    let admin = queue_panel(true, 3);
    assert!(admin.volume_slider && admin.selection_buttons && admin.track_checkboxes);
    let names: Vec<&str> = admin.bulk_actions.iter().map(|a| a.name()).collect();
    assert_eq!(names, vec!["move-up", "move-down", "remove"]);
    assert!(matches!(admin.bulk_actions[2], BulkAction::Remove));

    let viewer = queue_panel(false, 3);
    assert!(!viewer.volume_slider && viewer.selection_buttons && !viewer.track_checkboxes);
    assert!(viewer.bulk_actions.is_empty());

    let empty = queue_panel(true, 0);
    assert!(empty.volume_slider && !empty.selection_buttons && empty.bulk_actions.is_empty());
}
