//! What the music page's live panel shows: the control buttons offered,
//! the endpoints they post to, the now-playing card and progress line,
//! and the detail line of each queued track. (The volume percentage is
//! floating point and stays with the caller.)

use vstd::prelude::*;
use crate::components::PlaybackStatus;
use crate::text::{append_str, decimal, push_decimal, string_from_chars};
use crate::track::{duration_text, clock_text, format_duration, format_secs, Track};

verus! {

/// A button of the controls bar, named by the endpoint it posts to.
pub enum MusicControl {
    Pause,
    Resume,
    Skip,
    Clear,
    Leave,
}

/// The endpoint name of a control.
pub open spec fn control_name(c: MusicControl) -> Seq<char> {
    match c {
        MusicControl::Pause => "pause"@,
        MusicControl::Resume => "resume"@,
        MusicControl::Skip => "skip"@,
        MusicControl::Clear => "clear"@,
        MusicControl::Leave => "leave"@,
    }
}

/// The controls offered: pause while playing, resume while paused, and
/// skip, clear and disconnect for admins.
pub open spec fn controls_spec(status: PlaybackStatus, is_admin: bool) -> Seq<MusicControl> {
    let first: Seq<MusicControl> = match status {
        PlaybackStatus::Playing => seq![MusicControl::Pause],
        PlaybackStatus::Paused => seq![MusicControl::Resume],
        PlaybackStatus::Stopped => Seq::empty(),
    };
    if is_admin {
        first + seq![MusicControl::Skip, MusicControl::Clear, MusicControl::Leave]
    } else {
        first
    }
}

/// The buttons of the controls bar, in order.
pub fn controls(status: &PlaybackStatus, is_admin: bool) -> (r: Vec<MusicControl>)
    ensures
        r@ == controls_spec(*status, is_admin),
{
    let mut r: Vec<MusicControl> = Vec::new();
    match status {
        PlaybackStatus::Playing => r.push(MusicControl::Pause),
        PlaybackStatus::Paused => r.push(MusicControl::Resume),
        PlaybackStatus::Stopped => {},
    }
    if is_admin {
        r.push(MusicControl::Skip);
        r.push(MusicControl::Clear);
        r.push(MusicControl::Leave);
    }
    assert(r@ =~= controls_spec(*status, is_admin));
    r
}

impl MusicControl {
    /// The endpoint name of this control.
    pub fn name(&self) -> (s: &'static str)
        ensures
            s@ == control_name(*self),
    {
        match self {
            MusicControl::Pause => "pause",
            MusicControl::Resume => "resume",
            MusicControl::Skip => "skip",
            MusicControl::Clear => "clear",
            MusicControl::Leave => "leave",
        }
    }
}

/// An action applied to the tracks ticked in the queue.
pub enum BulkAction {
    MoveUp,
    MoveDown,
    Remove,
}

/// The endpoint name of a bulk action.
pub open spec fn bulk_action_name(a: BulkAction) -> Seq<char> {
    match a {
        BulkAction::MoveUp => "move-up"@,
        BulkAction::MoveDown => "move-down"@,
        BulkAction::Remove => "remove"@,
    }
}

impl BulkAction {
    /// The endpoint name of this action.
    pub fn name(&self) -> (s: &'static str)
        ensures
            s@ == bulk_action_name(*self),
    {
        match self {
            BulkAction::MoveUp => "move-up",
            BulkAction::MoveDown => "move-down",
            BulkAction::Remove => "remove",
        }
    }
}

/// What the volume area and the queue panel offer a viewer.
pub struct QueuePanel {
    /// A volume slider, rather than the volume as text.
    pub volume_slider: bool,
    /// The "select all" and "deselect" buttons.
    pub selection_buttons: bool,
    /// The bulk actions offered on ticked tracks, in order.
    pub bulk_actions: Vec<BulkAction>,
    /// A tick box on each queued track.
    pub track_checkboxes: bool,
}

/// The bulk actions offered: move up, move down and remove, to admins,
/// while the queue holds tracks.
pub open spec fn bulk_actions_spec(is_admin: bool, queue_len: nat) -> Seq<BulkAction> {
    if is_admin && queue_len > 0 {
        seq![BulkAction::MoveUp, BulkAction::MoveDown, BulkAction::Remove]
    } else {
        Seq::empty()
    }
}

/// What the panel offers: only admins change the volume or act on queued
/// tracks; everyone may tick through a non-empty queue's selection.
pub fn queue_panel(is_admin: bool, queue_len: usize) -> (p: QueuePanel)
    ensures
        p.volume_slider == is_admin,
        p.selection_buttons == (queue_len > 0),
        p.bulk_actions@ == bulk_actions_spec(is_admin, queue_len as nat),
        p.track_checkboxes == is_admin,
{
    let mut bulk_actions: Vec<BulkAction> = Vec::new();
    if is_admin && queue_len > 0 {
        bulk_actions.push(BulkAction::MoveUp);
        bulk_actions.push(BulkAction::MoveDown);
        bulk_actions.push(BulkAction::Remove);
    }
    assert(bulk_actions@ =~= bulk_actions_spec(is_admin, queue_len as nat));
    QueuePanel { volume_slider: is_admin, selection_buttons: queue_len > 0, bulk_actions, track_checkboxes: is_admin }
}

/// The endpoint a music action posts to.
pub open spec fn action_path_spec(guild_id: u64, action: Seq<char>) -> Seq<char> {
    "/api/guilds/"@ + decimal(guild_id as nat) + "/music/"@ + action
}

/// The endpoint of music action `action` in guild `guild_id`.
pub fn music_action_path(guild_id: u64, action: &str) -> (r: String)
    ensures
        r@ == action_path_spec(guild_id, action@),
{
    let mut out: Vec<char> = Vec::new();
    append_str(&mut out, "/api/guilds/");
    push_decimal(&mut out, guild_id);
    append_str(&mut out, "/music/");
    append_str(&mut out, action);
    string_from_chars(&out)
}

/// The now-playing card's three states.
pub enum NowPlayingCard {
    /// The bot has no voice connection in the guild.
    NotConnected,
    /// A track is playing (or paused).
    Current,
    /// Connected, nothing playing.
    Idle,
}

/// Which now-playing card is shown.
pub fn now_playing_card(connected: bool, has_current: bool) -> (c: NowPlayingCard)
    ensures
        !connected ==> c is NotConnected,
        connected && has_current ==> c is Current,
        connected && !has_current ==> c is Idle,
{
    if !connected {
        NowPlayingCard::NotConnected
    } else if has_current {
        NowPlayingCard::Current
    } else {
        NowPlayingCard::Idle
    }
}

/// The progress line under the playing track's title.
pub enum ProgressLine {
    /// Position and duration known: a bar, with both times under it.
    Bar { elapsed: String, total: String },
    /// Only the position known: `<position> / ?`.
    Elapsed(String),
    /// No position known: nothing shown.
    Hidden,
}

/// The progress line for a position and a duration, in whole seconds.
/// (The bar's fill is computed by the caller.)
pub fn progress_line(position: Option<u64>, total: Option<u64>) -> (r: ProgressLine)
    ensures
        match (position, total) {
            (Some(p), Some(t)) => r matches ProgressLine::Bar { elapsed, total: tt }
                && elapsed@ == clock_text(p as nat) && tt@ == clock_text(t as nat),
            (Some(p), None) => r matches ProgressLine::Elapsed(s) && s@ == clock_text(p as nat) + " / ?"@,
            (None, _) => r is Hidden,
        },
{
    match (position, total) {
        (Some(p), Some(t)) => ProgressLine::Bar { elapsed: format_secs(p), total: format_secs(t) },
        (Some(p), None) => {
            let e = format_secs(p);
            let mut out: Vec<char> = Vec::new();
            append_str(&mut out, e.as_str());
            append_str(&mut out, " / ?");
            ProgressLine::Elapsed(string_from_chars(&out))
        },
        (None, _) => ProgressLine::Hidden,
    }
}

/// The detail line of a queued track: `LIVE` for a live stream, else its
/// duration, then a middle dot and who requested it.
pub open spec fn queue_detail_spec(t: Track) -> Seq<char> {
    (if t.is_live { "LIVE"@ } else { duration_text(t.duration_secs) }) + " \u{b7} "@ + t.requested_by_name@
}

/// The detail line shown under a queued track's title.
pub fn queue_row_detail(t: &Track) -> (r: String)
    ensures
        r@ == queue_detail_spec(*t),
{
    let mut out: Vec<char> = Vec::new();
    if t.is_live {
        append_str(&mut out, "LIVE");
    } else {
        let d = format_duration(t.duration_secs);
        append_str(&mut out, d.as_str());
    }
    append_str(&mut out, " \u{b7} ");
    append_str(&mut out, t.requested_by_name.as_str());
    string_from_chars(&out)
}

} // verus!
