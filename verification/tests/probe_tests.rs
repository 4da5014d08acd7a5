use botinski::probe::is_playlist_url;

#[test]
fn playlist_url_matches_youtube_and_yt_music() {
    assert!(is_playlist_url("https://www.youtube.com/playlist?list=PLfoo"));
    assert!(is_playlist_url("https://youtube.com/playlist?list=PLfoo"));
    assert!(is_playlist_url("https://music.youtube.com/playlist?list=PLfoo"));
    // trailing slash tolerated
    assert!(is_playlist_url("https://www.youtube.com/playlist/"));
}

#[test]
fn watch_urls_with_list_param_are_not_classified_as_playlists() {
    assert!(!is_playlist_url("https://www.youtube.com/watch?v=abc&list=PLfoo"));
    assert!(!is_playlist_url("https://youtu.be/abc"));
}

#[test]
fn non_youtube_urls_are_not_classified_as_playlists() {
    assert!(!is_playlist_url("https://example.com/playlist"));
    assert!(!is_playlist_url("not a url at all"));
    assert!(!is_playlist_url(""));
}

use botinski::probe::{first_output_line, playlist_entry_url, probe_query, YtdlPlaylistEntry};

fn entry(id: Option<&str>, url: Option<&str>, webpage_url: Option<&str>) -> YtdlPlaylistEntry {
    YtdlPlaylistEntry {
        id: id.map(str::to_string),
        title: None,
        duration_secs: None,
        url: url.map(str::to_string),
        webpage_url: webpage_url.map(str::to_string),
    }
}

#[test]
fn playlist_entry_url_prefers_webpage_url() {
    let e = entry(Some("abc"), Some("https://example.com/u"), Some("https://example.com/w"));
    assert_eq!(playlist_entry_url(&e).as_deref(), Some("https://example.com/w"));
}

#[test]
fn playlist_entry_url_falls_back_to_url_then_id() {
    let only_url = entry(Some("abc"), Some("https://example.com/u"), None);
    assert_eq!(playlist_entry_url(&only_url).as_deref(), Some("https://example.com/u"));

    let only_id = entry(Some("dQw4w9WgXcQ"), None, None);
    assert_eq!(
        playlist_entry_url(&only_id).as_deref(),
        Some("https://www.youtube.com/watch?v=dQw4w9WgXcQ")
    );
}

#[test]
fn playlist_entry_url_skips_non_http_url_field() {
    let e = entry(Some("xyz"), Some("dQw4w9WgXcQ"), None);
    assert_eq!(playlist_entry_url(&e).as_deref(), Some("https://www.youtube.com/watch?v=xyz"));
}

#[test]
fn playlist_entry_url_none_when_nothing_usable() {
    let e = entry(None, None, None);
    assert!(playlist_entry_url(&e).is_none());
}

#[test]
fn playlist_entry_url_skips_non_http_webpage_url() {
    let e = entry(None, Some("http://example.com/u"), Some("ftp://example.com/w"));
    assert_eq!(playlist_entry_url(&e).as_deref(), Some("http://example.com/u"));
}

#[test]
fn queries_that_are_not_urls_become_searches() {
    assert_eq!(probe_query("never gonna give you up"), "ytsearch1:never gonna give you up");
    assert_eq!(probe_query("https://youtu.be/abc"), "https://youtu.be/abc");
    assert_eq!(probe_query("http://example.com"), "http://example.com");
}

#[test]
fn first_output_line_is_found() {
    assert_eq!(first_output_line(b"{\"a\":1}\n{\"b\":2}\n"), Some((0, 7)));
    assert_eq!(first_output_line(b"only"), Some((0, 4)));
    assert_eq!(first_output_line(b""), None);
}

#[test]
fn playlist_urls_are_those_containing_the_playlist_path() {
    assert!(is_playlist_url("  https://youtube.com/playlist?list=X/ "));
    assert!(is_playlist_url("https://music.youtube.com/playlist?list=PL1"));
    assert!(!is_playlist_url("https://www.youtube.com/watch?v=a&list=PL1"));
    assert!(!is_playlist_url("youtube.com/playlis t"));
}
