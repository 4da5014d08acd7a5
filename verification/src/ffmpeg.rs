//! The ffmpeg invocation used to transmux live streams for the voice
//! driver (Matroska + Opus on stdout).

use vstd::prelude::*;
use crate::text::owned;

verus! {

/// A live-stream input to be read through ffmpeg.
pub struct FfmpegInput {
    url: String,
}

/// The ffmpeg arguments for reading `url`: quiet but for errors, audio
/// only, Opus at 128 kbit/s in a Matroska stream on stdout.
pub open spec fn ffmpeg_args_spec(url: Seq<char>) -> Seq<Seq<char>> {
    seq![
        "-loglevel"@, "error"@, "-i"@, url, "-vn"@, "-c:a"@, "libopus"@, "-b:a"@, "128k"@,
        "-f"@, "matroska"@, "pipe:1"@,
    ]
}

impl FfmpegInput {
    /// An input reading from `url`.
    pub fn new(url: String) -> (f: FfmpegInput)
        ensures
            f.url_view() == url@,
    {
        FfmpegInput { url }
    }

    /// The stream URL.
    pub closed spec fn url_view(&self) -> Seq<char> {
        self.url@
    }

    /// The stream URL.
    pub fn url(&self) -> (r: &str)
        ensures
            r@ == self.url_view(),
    {
        self.url.as_str()
    }

    /// The arguments ffmpeg is started with.
    pub fn args(&self) -> (r: Vec<String>)
        ensures
            r@.map_values(|s: String| s@) == ffmpeg_args_spec(self.url_view()),
    {
        let mut r: Vec<String> = Vec::new();
        r.push(owned("-loglevel"));
        r.push(owned("error"));
        r.push(owned("-i"));
        r.push(self.url.clone());
        r.push(owned("-vn"));
        r.push(owned("-c:a"));
        r.push(owned("libopus"));
        r.push(owned("-b:a"));
        r.push(owned("128k"));
        r.push(owned("-f"));
        r.push(owned("matroska"));
        r.push(owned("pipe:1"));
        assert(r@.map_values(|s: String| s@) =~= ffmpeg_args_spec(self.url_view()));
        r
    }
}

} // verus!
