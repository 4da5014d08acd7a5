//! Queue track records and the clock-style duration formatting used in
//! Discord replies and on the web dashboard.

use vstd::prelude::*;
use crate::text::{decimal, push_decimal, string_from_chars};

verus! {

/// A queued or playing track. The id is the 128-bit value of a random
/// (version 4) UUID; durations are whole seconds.
pub struct Track {
    pub id: u128,
    pub title: String,
    pub url: String,
    pub duration_secs: Option<u64>,
    pub requested_by_name: String,
    pub requested_by_id: u64,
    pub is_live: bool,
}

/// The mathematical content of a [`Track`].
pub struct TrackView {
    pub id: u128,
    pub title: Seq<char>,
    pub url: Seq<char>,
    pub duration_secs: Option<u64>,
    pub requested_by_name: Seq<char>,
    pub requested_by_id: u64,
    pub is_live: bool,
}

impl View for Track {
    type V = TrackView;

    open spec fn view(&self) -> TrackView {
        TrackView {
            id: self.id,
            title: self.title@,
            url: self.url@,
            duration_secs: self.duration_secs,
            requested_by_name: self.requested_by_name@,
            requested_by_id: self.requested_by_id,
            is_live: self.is_live,
        }
    }
}

/// A fresh random identifier: the 128-bit value of `uuid::Uuid::new_v4()`.
/// Nothing is promised about the value; it comes from the thread RNG.
#[verifier::external_body]
fn random_track_id() -> u128 {
    uuid::Uuid::new_v4().as_u128()
}

impl Track {
    /// Builds a track with a fresh random id.
    pub fn new(
        title: String,
        url: String,
        duration_secs: Option<u64>,
        requested_by_name: String,
        requested_by_id: u64,
        is_live: bool,
    ) -> (t: Track)
        ensures
            t.title@ == title@,
            t.url@ == url@,
            t.duration_secs == duration_secs,
            t.requested_by_name@ == requested_by_name@,
            t.requested_by_id == requested_by_id,
            t.is_live == is_live,
    {
        Track {
            id: random_track_id(),
            title,
            url,
            duration_secs,
            requested_by_name,
            requested_by_id,
            is_live,
        }
    }

    /// A copy of this track, field for field.
    pub fn duplicate(&self) -> (t: Track)
        ensures
            t@ == self@,
    {
        Track {
            id: self.id,
            title: self.title.clone(),
            url: self.url.clone(),
            duration_secs: self.duration_secs,
            requested_by_name: self.requested_by_name.clone(),
            requested_by_id: self.requested_by_id,
            is_live: self.is_live,
        }
    }
}

/// `n` written with at least two digits (a leading zero below ten).
pub open spec fn two_digits(n: nat) -> Seq<char> {
    if n < 10 {
        seq!['0'] + decimal(n)
    } else {
        decimal(n)
    }
}

/// `H:MM:SS` when there is at least one full hour, else `M:SS`.
pub open spec fn clock_text(secs: nat) -> Seq<char> {
    let h = secs / 3600;
    let m = (secs % 3600) / 60;
    let s = secs % 60;
    if h > 0 {
        decimal(h) + seq![':'] + two_digits(m) + seq![':'] + two_digits(s)
    } else {
        decimal(m) + seq![':'] + two_digits(s)
    }
}

/// `clock_text` for a known duration, `?` for an unknown one.
pub open spec fn duration_text(d: Option<u64>) -> Seq<char> {
    match d {
        None => seq!['?'],
        Some(secs) => clock_text(secs as nat),
    }
}

fn push_two_digits(out: &mut Vec<char>, n: u64)
    requires
        n < 100,
    ensures
        final(out)@ == old(out)@ + two_digits(n as nat),
{
    if n < 10 {
        out.push('0');
    }
    push_decimal(out, n);
    assert(final(out)@ =~= old(out)@ + two_digits(n as nat));
}

/// Formats a number of seconds as `H:MM:SS`, or `M:SS` under an hour.
pub fn format_secs(secs: u64) -> (r: String)
    ensures
        r@ == clock_text(secs as nat),
{
    let h = secs / 3600;
    let m = (secs % 3600) / 60;
    let s = secs % 60;
    let mut out: Vec<char> = Vec::new();
    if h > 0 {
        push_decimal(&mut out, h);
        out.push(':');
        push_two_digits(&mut out, m);
        out.push(':');
        push_two_digits(&mut out, s);
    } else {
        push_decimal(&mut out, m);
        out.push(':');
        push_two_digits(&mut out, s);
    }
    assert(out@ =~= clock_text(secs as nat));
    string_from_chars(&out)
}

/// Formats an optional duration; an unknown duration is shown as `?`.
pub fn format_duration(d: Option<u64>) -> (r: String)
    ensures
        r@ == duration_text(d),
{
    match d {
        None => {
            let v: Vec<char> = vec!['?'];
            let r = string_from_chars(&v);
            assert(r@ =~= seq!['?']);
            r
        },
        Some(secs) => format_secs(secs),
    }
}

} // verus!
