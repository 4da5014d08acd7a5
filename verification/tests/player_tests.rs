use botinski::player::{
    input_source, playlist_tracks, track_from_info, voice_join_target, EnqueuePlan, GuildPlayer,
    InputSource, MusicError, DEFAULT_IDLE_LEAVE_SECS,
};
use botinski::probe::{YtdlPlaylistEntry, YtdlpInfo};
use botinski::track::Track;

fn track(title: &str) -> Track {
    Track::new(title.to_string(), format!("https://example.com/{title}"), Some(60), "req".to_string(), 1, false)
}

fn titles(p: &GuildPlayer) -> Vec<String> {
    p.queue.iter().map(|t| t.title.clone()).collect()
}

fn player_with(names: &[&str]) -> GuildPlayer {
    let mut p = GuildPlayer::new();
    for n in names {
        p.queue.push_back(track(n));
    }
    p
}

fn id_of(p: &GuildPlayer, title: &str) -> u128 {
    p.queue.iter().find(|t| t.title == title).unwrap().id
}

#[test]
fn new_player_is_empty_with_default_timeout() {
    let p = GuildPlayer::new();
    assert!(p.queue.is_empty());
    assert!(p.current.is_none());
    assert!(p.idle_since_ms.is_none());
    assert_eq!(p.idle_leave_secs, DEFAULT_IDLE_LEAVE_SECS);
    assert!(!p.settings_loaded);
}

#[test]
fn move_up_swaps_each_named_track_with_an_unnamed_predecessor() {
    let mut p = player_with(&["a", "b", "c", "d"]);
    let c = id_of(&p, "c");
    p.move_tracks_up(&[c]);
    assert_eq!(titles(&p), vec!["a", "c", "b", "d"]);

    let mut p = player_with(&["a", "b", "c", "d"]);
    let ids = [id_of(&p, "b"), id_of(&p, "c")];
    p.move_tracks_up(&ids);
    assert_eq!(titles(&p), vec!["b", "c", "a", "d"]);

    let mut p = player_with(&["a", "b"]);
    let a = id_of(&p, "a");
    p.move_tracks_up(&[a]);
    assert_eq!(titles(&p), vec!["a", "b"]);
}

#[test]
fn move_down_swaps_each_named_track_with_an_unnamed_successor() {
    let mut p = player_with(&["a", "b", "c", "d"]);
    let b = id_of(&p, "b");
    assert!(p.move_tracks_down(&[b]));
    assert_eq!(titles(&p), vec!["a", "c", "b", "d"]);

    let mut p = player_with(&["a", "b", "c", "d"]);
    let ids = [id_of(&p, "b"), id_of(&p, "c")];
    assert!(p.move_tracks_down(&ids));
    assert_eq!(titles(&p), vec!["a", "d", "b", "c"]);

    let mut p = player_with(&["a", "b"]);
    let b = id_of(&p, "b");
    assert!(p.move_tracks_down(&[b]));
    assert_eq!(titles(&p), vec!["a", "b"]);

    let mut p = player_with(&["a"]);
    let a = id_of(&p, "a");
    assert!(!p.move_tracks_down(&[a]));
    let mut p = player_with(&["a", "b"]);
    assert!(!p.move_tracks_down(&[]));
}

#[test]
fn remove_drops_named_tracks_and_counts_them() {
    let mut p = player_with(&["a", "b", "c", "d"]);
    p.current = Some(track("now"));
    let ids = [id_of(&p, "b"), id_of(&p, "d"), 12345];
    assert_eq!(p.remove_tracks(&ids), 2);
    assert_eq!(titles(&p), vec!["a", "c"]);
    assert_eq!(p.current.as_ref().unwrap().title, "now");
    assert_eq!(p.remove_tracks(&[]), 0);
}

#[test]
fn snapshot_is_current_then_queue() {
    let mut p = player_with(&["a", "b"]);
    p.begin(track("now"));
    let snap: Vec<String> = p.snapshot().into_iter().map(|t| t.title).collect();
    assert_eq!(snap, vec!["now", "a", "b"]);
    p.clear();
    assert!(p.queue.is_empty());
    assert!(p.current.is_some());
}

#[test]
fn enqueue_on_an_idle_player_starts_the_track() {
    let mut p = GuildPlayer::new();
    p.idle_since_ms = Some(5);
    let plan = p.enqueue(track("x"));
    assert!(matches!(&plan, EnqueuePlan::StartNew { track } if track.title == "x"));
    p.finish_enqueue(plan);
    assert_eq!(p.current.as_ref().unwrap().title, "x");
    assert!(p.idle_since_ms.is_none());
    assert!(p.queue.is_empty());
}

#[test]
fn enqueue_while_playing_appends() {
    let mut p = player_with(&["a"]);
    p.begin(track("now"));
    let plan = p.enqueue(track("x"));
    assert!(matches!(plan, EnqueuePlan::Queued));
    p.finish_enqueue(plan);
    assert_eq!(titles(&p), vec!["a", "x"]);
    assert_eq!(p.current.as_ref().unwrap().title, "now");
}

#[test]
fn enqueue_after_restart_resumes_restored_queue_first() {
    let mut p = player_with(&["r1", "r2"]);
    let plan = p.enqueue(track("x"));
    assert!(matches!(&plan, EnqueuePlan::StartRestored { head, next } if head.title == "r1" && next.title == "x"));
    assert_eq!(titles(&p), vec!["r2"]);
    p.finish_enqueue(plan);
    assert_eq!(p.current.as_ref().unwrap().title, "r1");
    assert_eq!(titles(&p), vec!["r2", "x"]);
}

#[test]
fn advance_takes_the_head_or_goes_idle() {
    let mut p = player_with(&["a", "b"]);
    p.begin(track("now"));
    let next = p.advance(1_000);
    assert_eq!(next.unwrap().title, "a");
    assert!(p.current.is_none());
    assert_eq!(titles(&p), vec!["b"]);
    assert!(p.idle_since_ms.is_none());

    let mut p = GuildPlayer::new();
    p.begin(track("now"));
    assert!(p.advance(1_000).is_none());
    assert_eq!(p.idle_since_ms, Some(1_000));
}

#[test]
fn idle_reaper_waits_for_the_timeout() {
    let mut p = GuildPlayer::new();
    p.idle_leave_secs = 10;
    assert!(!p.should_leave_idle(50_000));
    p.idle_since_ms = Some(1_000);
    assert!(!p.should_leave_idle(10_999));
    assert!(p.should_leave_idle(11_000));
    // clock going backwards counts as no time elapsed
    assert!(!p.should_leave_idle(500));
    // anything queued or playing keeps the bot connected
    p.queue.push_back(track("a"));
    assert!(!p.should_leave_idle(1_000_000));
    p.queue.clear();
    p.idle_leave_secs = 0;
    assert!(!p.should_leave_idle(1_000_000));
}

#[test]
fn leave_drops_everything() {
    let mut p = player_with(&["a"]);
    p.begin(track("now"));
    p.idle_since_ms = Some(3);
    let stopped = p.leave();
    assert_eq!(stopped.unwrap().title, "now");
    assert!(p.current.is_none());
    assert!(p.queue.is_empty());
    assert!(p.idle_since_ms.is_none());
}

#[test]
fn playlist_tracks_start_or_queue() {
    let mut p = GuildPlayer::new();
    let first = p.enqueue_playlist_track(track("a"));
    assert_eq!(first.as_ref().unwrap().title, "a");
    p.begin(first.unwrap());
    assert!(p.enqueue_playlist_track(track("b")).is_none());
    assert_eq!(titles(&p), vec!["b"]);
}

#[test]
fn hydration_happens_once() {
    let mut p = player_with(&["live"]);
    p.hydrate(Some(-4), vec![track("r1"), track("r2")]);
    assert_eq!(titles(&p), vec!["live", "r1", "r2"]);
    assert_eq!(p.idle_leave_secs, 0);
    assert!(p.settings_loaded);
    p.hydrate(Some(99), vec![track("r3")]);
    assert_eq!(titles(&p), vec!["live", "r1", "r2"]);
    assert_eq!(p.idle_leave_secs, 0);

    let mut p = GuildPlayer::new();
    p.hydrate(None, vec![]);
    assert_eq!(p.idle_leave_secs, DEFAULT_IDLE_LEAVE_SECS);
    p.apply_idle_setting(42);
    assert_eq!(p.idle_leave_secs, 42);
}

fn info(title: Option<&str>, duration: Option<u64>, is_live: bool, url: Option<&str>, page: Option<&str>) -> YtdlpInfo {
    YtdlpInfo {
        title: title.map(str::to_string),
        duration_secs: duration,
        is_live,
        url: url.map(str::to_string),
        webpage_url: page.map(str::to_string),
    }
}

#[test]
fn probed_tracks_fall_back_to_the_query() {
    let t = track_from_info(&info(None, Some(30), false, None, None), "query", 4, "me".to_string());
    assert_eq!(t.title, "query");
    assert_eq!(t.url, "query");
    assert_eq!(t.duration_secs, Some(30));
    assert_eq!(t.requested_by_id, 4);
    let t = track_from_info(&info(Some("T"), Some(30), true, Some("m3u8"), Some("https://w")), "q", 4, "me".to_string());
    assert_eq!(t.title, "T");
    assert_eq!(t.url, "https://w");
    assert_eq!(t.duration_secs, None);
    assert!(t.is_live);
}

#[test]
fn live_tracks_play_through_ffmpeg() {
    let live = info(Some("T"), None, true, Some("https://manifest"), None);
    assert!(matches!(input_source(&live, "https://w"), Ok(InputSource::Ffmpeg(m)) if m == "https://manifest"));
    let broken = info(Some("T"), None, true, None, None);
    assert!(matches!(input_source(&broken, "https://w"), Err(MusicError::MissingLiveManifest)));
    let vod = info(Some("T"), Some(5), false, Some("https://direct"), None);
    assert!(matches!(input_source(&vod, "https://w"), Ok(InputSource::YoutubeDl(w)) if w == "https://w"));
}

#[test]
fn voice_join_needs_a_channel_without_a_call() {
    assert!(matches!(voice_join_target(true, None), Ok(None)));
    assert!(matches!(voice_join_target(true, Some(3)), Ok(None)));
    assert!(matches!(voice_join_target(false, Some(3)), Ok(Some(3))));
    assert!(matches!(voice_join_target(false, None), Err(MusicError::NotInVoice)));
}

#[test]
fn music_errors_have_messages() {
    assert_eq!(MusicError::MissingLiveManifest.message(), "Live track missing manifest URL from yt-dlp");
    assert_eq!(MusicError::EmptyPlaylist.message(), "Playlist contains no entries");
    assert_eq!(MusicError::NotInVoice.message(), "Bot isn't in voice — initiate playback from Discord first");
}

#[test]
fn playlist_entries_without_url_are_skipped() {
    let entries = vec![
        YtdlPlaylistEntry { id: Some("a1".to_string()), title: Some("A".to_string()), duration_secs: Some(10), url: None, webpage_url: None },
        YtdlPlaylistEntry { id: None, title: Some("B".to_string()), duration_secs: None, url: None, webpage_url: None },
        YtdlPlaylistEntry { id: None, title: None, duration_secs: None, url: Some("https://c".to_string()), webpage_url: None },
    ];
    let v = playlist_tracks(&entries, 8, "who");
    assert_eq!(v.len(), 2);
    assert_eq!(v[0].title, "A");
    assert_eq!(v[0].url, "https://www.youtube.com/watch?v=a1");
    assert_eq!(v[0].duration_secs, Some(10));
    assert_eq!(v[1].title, "https://c");
    assert_eq!(v[1].url, "https://c");
    assert_eq!(v[1].requested_by_name, "who");
    assert_eq!(v[1].requested_by_id, 8);
}

#[test]
fn moves_without_selection_change_nothing() {
    let mut p = player_with(&["a", "b", "c"]);
    p.move_tracks_up(&[]);
    assert_eq!(titles(&p), vec!["a", "b", "c"]);
    assert!(!p.move_tracks_down(&[]));
    assert_eq!(titles(&p), vec!["a", "b", "c"]);
    p.move_tracks_up(&[424242]);
    assert_eq!(titles(&p), vec!["a", "b", "c"]);
}

#[test]
fn restart_restores_the_persisted_lineup() {
    let mut before = player_with(&["q1", "q2"]);
    before.begin(track("now"));
    let snapshot = before.snapshot();
    let mut after = GuildPlayer::new();
    after.hydrate(Some(120), snapshot);
    assert_eq!(titles(&after), vec!["now", "q1", "q2"]);
    assert!(after.current.is_none());
    assert_eq!(after.idle_leave_secs, 120);
    // the next enqueue resumes the restored head and queues the new track last
    let plan = after.enqueue(track("new"));
    after.finish_enqueue(plan);
    assert_eq!(after.current.as_ref().unwrap().title, "now");
    assert_eq!(titles(&after), vec!["q1", "q2", "new"]);
}

#[test]
fn move_up_lifts_each_named_run_past_its_predecessor() {
    let mut p = player_with(&["a", "b", "c", "d", "e", "f"]);
    let ids = [id_of(&p, "b"), id_of(&p, "d"), id_of(&p, "e")];
    p.move_tracks_up(&ids);
    assert_eq!(titles(&p), vec!["b", "a", "d", "e", "c", "f"]);
}

#[test]
fn move_up_keeps_a_leading_named_run_in_place() {
    let mut p = player_with(&["a", "b", "c", "d"]);
    let ids = [id_of(&p, "a"), id_of(&p, "b"), id_of(&p, "d")];
    p.move_tracks_up(&ids);
    assert_eq!(titles(&p), vec!["a", "b", "d", "c"]);
}
