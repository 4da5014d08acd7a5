//! Shapes of yt-dlp's JSON output and the decisions made on them: which
//! queries are searches, which URLs are playlists, and which URL a flat
//! playlist entry should be played from.

use vstd::prelude::*;
use crate::text::{
    append_str, chars_of, contains_chars, contains_text, is_white_space, occurs_at, starts_with_chars,
    starts_with_text, string_from_chars, trim, trim_chars, trim_end, trim_end_char, trim_end_char_chars,
    trim_start,
};

verus! {

/// What one `yt-dlp -j` probe reports about a track (durations in whole seconds).
pub struct YtdlpInfo {
    pub title: Option<String>,
    pub duration_secs: Option<u64>,
    pub is_live: bool,
    pub url: Option<String>,
    pub webpage_url: Option<String>,
}

/// A `yt-dlp --flat-playlist -J` dump.
pub struct YtdlPlaylist {
    pub title: Option<String>,
    pub entries: Vec<YtdlPlaylistEntry>,
}

/// One entry of a flat playlist dump (durations in whole seconds).
pub struct YtdlPlaylistEntry {
    pub id: Option<String>,
    pub title: Option<String>,
    pub duration_secs: Option<u64>,
    pub url: Option<String>,
    pub webpage_url: Option<String>,
}

/// The URL shape that marks a YouTube (or YouTube Music) playlist page.
pub open spec fn is_playlist_url_spec(s: Seq<char>) -> bool {
    let t = trim_end_char(trim(s), '/');
    contains_text(t, "youtube.com/playlist"@) || contains_text(t, "music.youtube.com/playlist"@)
}

/// Whether `s` (trimmed, trailing slashes ignored) is a playlist page URL.
/// Watch URLs that merely carry a `list=` parameter are not playlists.
pub fn is_playlist_url(s: &str) -> (b: bool)
    ensures
        b == is_playlist_url_spec(s@),
{
    let raw = chars_of(s);
    let trimmed = trim_chars(&raw);
    let t = trim_end_char_chars(&trimmed, '/');
    let yt = chars_of("youtube.com/playlist");
    let ytm = chars_of("music.youtube.com/playlist");
    contains_chars(&t, &yt) || contains_chars(&t, &ytm)
}

proof fn lemma_occurs_shift(s: Seq<char>, p: Seq<char>, i: int)
    requires
        s.len() > 0,
    ensures
        0 <= i ==> (occurs_at(s.drop_first(), p, i) <==> occurs_at(s, p, i + 1)),
        occurs_at(s.drop_last(), p, i) <==> (occurs_at(s, p, i) && i + p.len() < s.len()),
{
    if 0 <= i && occurs_at(s, p, i + 1) {
        assert(s.drop_first().subrange(i, i + p.len()) =~= s.subrange(i + 1, i + 1 + p.len()));
    }
    if 0 <= i && i + p.len() <= s.len() - 1 {
        assert(s.drop_first().subrange(i, i + p.len()) =~= s.subrange(i + 1, i + 1 + p.len()));
        assert(s.drop_last().subrange(i, i + p.len()) =~= s.subrange(i, i + p.len()));
    }
}

/// Cutting leading white space never changes whether `p` occurs, when `p`
/// starts with a non-white-space character.
proof fn lemma_trim_start_keeps(s: Seq<char>, p: Seq<char>)
    requires
        p.len() > 0,
        !is_white_space(p[0]),
    ensures
        contains_text(trim_start(s), p) == contains_text(s, p),
    decreases s.len(),
{
    if s.len() > 0 && is_white_space(s[0]) {
        lemma_trim_start_keeps(s.drop_first(), p);
        if contains_text(s.drop_first(), p) {
            let i = choose|i: int| occurs_at(s.drop_first(), p, i);
            lemma_occurs_shift(s, p, i);
        }
        if contains_text(s, p) {
            let i = choose|i: int| occurs_at(s, p, i);
            if i == 0 {
                assert(s.subrange(0, p.len() as int)[0] == s[0]);
            }
            lemma_occurs_shift(s, p, i - 1);
        }
    }
}

/// Cutting a trailing run of characters, none of which `p` ends with,
/// never changes whether `p` occurs.
proof fn lemma_trim_tail_keeps(s: Seq<char>, p: Seq<char>, cut: spec_fn(char) -> bool)
    requires
        p.len() > 0,
        s.len() > 0,
        cut(s.last()),
        !cut(p.last()),
    ensures
        contains_text(s.drop_last(), p) == contains_text(s, p),
{
    if contains_text(s.drop_last(), p) {
        let i = choose|i: int| occurs_at(s.drop_last(), p, i);
        lemma_occurs_shift(s, p, i);
    }
    if contains_text(s, p) {
        let i = choose|i: int| occurs_at(s, p, i);
        if i + p.len() == s.len() {
            assert(s.subrange(i, i + p.len())[p.len() - 1] == s.last());
        }
        lemma_occurs_shift(s, p, i);
    }
}

proof fn lemma_trim_end_keeps(s: Seq<char>, p: Seq<char>)
    requires
        p.len() > 0,
        !is_white_space(p.last()),
    ensures
        contains_text(trim_end(s), p) == contains_text(s, p),
    decreases s.len(),
{
    if s.len() > 0 && is_white_space(s.last()) {
        lemma_trim_end_keeps(s.drop_last(), p);
        lemma_trim_tail_keeps(s, p, |c: char| is_white_space(c));
    }
}

proof fn lemma_trim_end_char_keeps(s: Seq<char>, c: char, p: Seq<char>)
    requires
        p.len() > 0,
        p.last() != c,
    ensures
        contains_text(trim_end_char(s, c), p) == contains_text(s, p),
    decreases s.len(),
{
    if s.len() > 0 && s.last() == c {
        lemma_trim_end_char_keeps(s.drop_last(), c, p);
        lemma_trim_tail_keeps(s, p, |x: char| x == c);
    }
}

/// A URL is a playlist URL exactly when it contains
/// `youtube.com/playlist`: trimming white space and trailing slashes never
/// changes that, and the YouTube Music form contains it already.
pub proof fn law_playlist_url_is_contains(s: Seq<char>)
    ensures
        is_playlist_url_spec(s) == contains_text(s, "youtube.com/playlist"@),
{
    let p = "youtube.com/playlist"@;
    let q = "music.youtube.com/playlist"@;
    reveal_strlit("youtube.com/playlist");
    reveal_strlit("music.youtube.com/playlist");
    lemma_trim_start_keeps(s, p);
    lemma_trim_end_keeps(trim_start(s), p);
    lemma_trim_end_char_keeps(trim(s), '/', p);
    let t = trim_end_char(trim(s), '/');
    if contains_text(t, q) {
        let i = choose|i: int| occurs_at(t, q, i);
        assert(t.subrange(i + 6, i + 6 + p.len()) =~= p) by {
            assert(t.subrange(i, i + q.len()) == q);
            assert forall|k: int| 0 <= k < p.len() implies t.subrange(i + 6, i + 6 + p.len())[k] == p[k] by {
                assert(t.subrange(i, i + q.len())[k + 6] == q[k + 6]);
            }
        }
        assert(occurs_at(t, p, i + 6));
    }
}

/// `Some(u)` when `o` holds a URL beginning with `http`.
pub open spec fn http_url(o: Option<String>) -> Option<Seq<char>> {
    match o {
        Some(u) => if starts_with_text(u@, "http"@) { Some(u@) } else { None },
        None => None,
    }
}

/// The URL a flat-playlist entry is played from: its page URL, else its
/// `url` field, each only when it is an http(s) URL, else a watch URL
/// built from its id.
pub open spec fn entry_url_spec(e: &YtdlPlaylistEntry) -> Option<Seq<char>> {
    if http_url(e.webpage_url) is Some {
        http_url(e.webpage_url)
    } else if http_url(e.url) is Some {
        http_url(e.url)
    } else {
        match e.id {
            Some(id) => Some("https://www.youtube.com/watch?v="@ + id@),
            None => None,
        }
    }
}

fn http_url_of(o: &Option<String>) -> (r: Option<String>)
    ensures
        match r {
            Some(s) => http_url(*o) == Some(s@),
            None => http_url(*o) is None,
        },
{
    match o {
        Some(u) => {
            let v = chars_of(u.as_str());
            let http = chars_of("http");
            if starts_with_chars(&v, &http) {
                Some(string_from_chars(&v))
            } else {
                None
            }
        },
        None => None,
    }
}

/// Picks the URL to play for a flat-playlist entry, or `None` when it has
/// neither a usable URL nor an id.
pub fn playlist_entry_url(entry: &YtdlPlaylistEntry) -> (r: Option<String>)
    ensures
        match r {
            Some(s) => entry_url_spec(entry) == Some(s@),
            None => entry_url_spec(entry) is None,
        },
{
    let page = http_url_of(&entry.webpage_url);
    if page.is_some() {
        return page;
    }
    let direct = http_url_of(&entry.url);
    if direct.is_some() {
        return direct;
    }
    match &entry.id {
        Some(id) => {
            let mut out: Vec<char> = Vec::new();
            append_str(&mut out, "https://www.youtube.com/watch?v=");
            append_str(&mut out, id.as_str());
            Some(string_from_chars(&out))
        },
        None => None,
    }
}

/// The argument handed to yt-dlp: URLs as they are, anything else as a
/// single-result YouTube search.
pub open spec fn probe_query_spec(q: Seq<char>) -> Seq<char> {
    if starts_with_text(q, "http://"@) || starts_with_text(q, "https://"@) {
        q
    } else {
        "ytsearch1:"@ + q
    }
}

/// Builds the yt-dlp argument for a user query.
pub fn probe_query(query: &str) -> (r: String)
    ensures
        r@ == probe_query_spec(query@),
{
    let q = chars_of(query);
    let h1 = chars_of("http://");
    let h2 = chars_of("https://");
    if starts_with_chars(&q, &h1) || starts_with_chars(&q, &h2) {
        string_from_chars(&q)
    } else {
        let mut out: Vec<char> = Vec::new();
        append_str(&mut out, "ytsearch1:");
        append_str(&mut out, query);
        string_from_chars(&out)
    }
}

/// `[a, b)` is the first non-empty line of `bytes` (lines split on `\n`).
pub open spec fn is_first_line(bytes: Seq<u8>, a: int, b: int) -> bool {
    &&& 0 <= a < b <= bytes.len()
    &&& forall|k: int| 0 <= k < a ==> bytes[k] == 10u8
    &&& forall|k: int| a <= k < b ==> bytes[k] != 10u8
    &&& (b == bytes.len() || bytes[b] == 10u8)
}

/// The bounds of the first non-empty line of yt-dlp's output; `None` when
/// the output holds nothing but line breaks.
pub fn first_output_line(bytes: &[u8]) -> (r: Option<(usize, usize)>)
    ensures
        match r {
            Some((a, b)) => is_first_line(bytes@, a as int, b as int),
            None => forall|k: int| 0 <= k < bytes@.len() ==> bytes@[k] == 10u8,
        },
{
    let n = bytes.len();
    let mut a: usize = 0;
    while a < n && bytes[a] == 10u8
        invariant
            a <= n == bytes@.len(),
            forall|k: int| 0 <= k < a ==> bytes@[k] == 10u8,
        decreases n - a,
    {
        a += 1;
    }
    if a == n {
        return None;
    }
    let mut b: usize = a + 1;
    while b < n && bytes[b] != 10u8
        invariant
            a < b <= n == bytes@.len(),
            forall|k: int| a <= k < b ==> bytes@[k] != 10u8,
        decreases n - b,
    {
        b += 1;
    }
    Some((a, b))
}

} // verus!
