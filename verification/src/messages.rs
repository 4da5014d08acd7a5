//! Replies of the Discord commands and the command-level admin check.

use vstd::prelude::*;
use std::collections::VecDeque;
use crate::track::{duration_text, format_duration, Track};
use crate::player::PlaylistResult;
use crate::roles::list_contains;
use crate::text::{append_chars, append_str, chars_of, decimal, push_decimal, string_from_chars};

verus! {

/// How many upcoming tracks the queue listing shows.
pub const QUEUE_LISTING_LIMIT: usize = 20;

/// `<title> (<duration>)`.
pub open spec fn title_and_duration(t: Track) -> Seq<char> {
    t.title@ + " ("@ + duration_text(t.duration_secs) + ")"@
}

/// The listing lines of the first `k` queued tracks, numbered from 1.
pub open spec fn listing_lines(q: Seq<Track>, k: int) -> Seq<char>
    decreases k,
{
    if k <= 0 {
        Seq::empty()
    } else {
        listing_lines(q, k - 1) + decimal(k as nat) + ". "@ + title_and_duration(q[k - 1]) + "\n"@
    }
}

/// The reply to `queue`: what is playing, then up to twenty upcoming
/// tracks and a count of the rest.
pub open spec fn queue_message_spec(current: Option<Track>, q: Seq<Track>) -> Seq<char> {
    let head = match current {
        Some(t) => "**Now playing:** "@ + title_and_duration(t) + "\n"@,
        None => "**Nothing playing**\n"@,
    };
    if q.len() == 0 {
        head + "_Queue is empty_"@
    } else {
        let shown = if q.len() > 20 { 20 } else { q.len() as int };
        head + "\n**Up next:**\n"@ + listing_lines(q, shown)
            + if q.len() > 20 { "\u{2026}and "@ + decimal((q.len() - 20) as nat) + " more"@ } else { Seq::empty() }
    }
}

fn push_title_and_duration(out: &mut Vec<char>, t: &Track)
    ensures
        final(out)@ == old(out)@ + title_and_duration(*t),
{
    append_str(out, t.title.as_str());
    append_str(out, " (");
    let d = format_duration(t.duration_secs);
    append_str(out, d.as_str());
    append_str(out, ")");
    assert(final(out)@ =~= old(out)@ + title_and_duration(*t));
}

/// Builds the reply to `queue`.
pub fn queue_message(current: &Option<Track>, queue: &VecDeque<Track>) -> (r: String)
    ensures
        r@ == queue_message_spec(*current, queue@),
{
    let mut out: Vec<char> = Vec::new();
    match current {
        Some(t) => {
            append_str(&mut out, "**Now playing:** ");
            push_title_and_duration(&mut out, t);
            append_str(&mut out, "\n");
        },
        None => append_str(&mut out, "**Nothing playing**\n"),
    }
    let ghost head = out@;
    if queue.len() == 0 {
        append_str(&mut out, "_Queue is empty_");
    } else {
        append_str(&mut out, "\n**Up next:**\n");
        let shown = if queue.len() > QUEUE_LISTING_LIMIT { QUEUE_LISTING_LIMIT } else { queue.len() };
        let ghost start = out@;
        let mut i: usize = 0;
        while i < shown
            invariant
                i <= shown <= queue@.len(),
                out@ == start + listing_lines(queue@, i as int),
            decreases shown - i,
        {
            push_decimal(&mut out, (i + 1) as u64);
            append_str(&mut out, ". ");
            push_title_and_duration(&mut out, &queue[i]);
            append_str(&mut out, "\n");
            i += 1;
            assert(out@ =~= start + listing_lines(queue@, i as int));
        }
        if queue.len() > QUEUE_LISTING_LIMIT {
            append_str(&mut out, "\u{2026}and ");
            push_decimal(&mut out, (queue.len() - QUEUE_LISTING_LIMIT) as u64);
            append_str(&mut out, " more");
        }
    }
    let r = string_from_chars(&out);
    assert(r@ =~= queue_message_spec(*current, queue@));
    r
}

/// The queue reply opens with what is playing, whatever the queue holds:
/// `**Now playing:** <title> (<duration>)` and a line break while a track
/// is current, `**Nothing playing**` and a line break only when none is.
/// With nothing queued, that opening is followed by `_Queue is empty_`
/// and nothing else.
pub proof fn law_queue_reply_opens_with_current(current: Option<Track>, q: Seq<Track>)
    ensures
        current matches Some(t) ==> {
            let h = "**Now playing:** "@ + t.title@ + " ("@ + duration_text(t.duration_secs) + ")\n"@;
            h.len() <= queue_message_spec(current, q).len() && queue_message_spec(current, q).subrange(0, h.len() as int) == h
        },
        current is None ==> {
            let h = "**Nothing playing**\n"@;
            h.len() <= queue_message_spec(current, q).len() && queue_message_spec(current, q).subrange(0, h.len() as int) == h
        },
        q.len() == 0 ==> queue_message_spec(current, q) == match current {
            Some(t) => "**Now playing:** "@ + t.title@ + " ("@ + duration_text(t.duration_secs) + ")\n"@ + "_Queue is empty_"@,
            None => "**Nothing playing**\n"@ + "_Queue is empty_"@,
        },
{
    let h = match current {
        Some(t) => "**Now playing:** "@ + t.title@ + " ("@ + duration_text(t.duration_secs) + ")\n"@,
        None => "**Nothing playing**\n"@,
    };
    let head = match current {
        Some(t) => "**Now playing:** "@ + title_and_duration(t) + "\n"@,
        None => "**Nothing playing**\n"@,
    };
    reveal_strlit(")");
    reveal_strlit("\n");
    reveal_strlit(")\n");
    assert(head =~= h);
    let s = queue_message_spec(current, q);
    let rest = s.subrange(h.len() as int, s.len() as int);
    if q.len() == 0 {
        assert(s == head + "_Queue is empty_"@);
    } else {
        let shown = if q.len() > 20 { 20 } else { q.len() as int };
        assert(s == head + ("\n**Up next:**\n"@ + listing_lines(q, shown)
            + if q.len() > 20 { "\u{2026}and "@ + decimal((q.len() - 20) as nat) + " more"@ } else { Seq::empty() }));
    }
    assert(s.subrange(0, h.len() as int) =~= h);
}

/// The reply to `nowplaying`.
pub open spec fn now_playing_spec(current: Option<Track>) -> Seq<char> {
    match current {
        Some(t) => "**Now playing:** "@ + title_and_duration(t) + " \u{2014} requested by "@ + t.requested_by_name@,
        None => "Nothing playing"@,
    }
}

/// Builds the reply to `nowplaying`.
pub fn now_playing_message(current: &Option<Track>) -> (r: String)
    ensures
        r@ == now_playing_spec(*current),
{
    let mut out: Vec<char> = Vec::new();
    match current {
        Some(t) => {
            append_str(&mut out, "**Now playing:** ");
            push_title_and_duration(&mut out, t);
            append_str(&mut out, " \u{2014} requested by ");
            append_str(&mut out, t.requested_by_name.as_str());
        },
        None => append_str(&mut out, "Nothing playing"),
    }
    let r = string_from_chars(&out);
    assert(r@ =~= now_playing_spec(*current));
    r
}

/// The reply after queueing one track.
pub open spec fn queued_track_spec(t: Track) -> Seq<char> {
    "Queued **"@ + t.title@ + "** ("@ + duration_text(t.duration_secs) + ")"@
}

/// Builds the reply after queueing one track.
pub fn queued_track_message(t: &Track) -> (r: String)
    ensures
        r@ == queued_track_spec(*t),
{
    let mut out: Vec<char> = Vec::new();
    append_str(&mut out, "Queued **");
    append_str(&mut out, t.title.as_str());
    append_str(&mut out, "** (");
    let d = format_duration(t.duration_secs);
    append_str(&mut out, d.as_str());
    append_str(&mut out, ")");
    let r = string_from_chars(&out);
    assert(r@ =~= queued_track_spec(*t));
    r
}

/// The reply after queueing a playlist.
pub open spec fn queued_playlist_spec(r: PlaylistResult) -> Seq<char> {
    "Queued **"@ + decimal(r.added as nat) + "** track(s)"@ + match r.title {
        Some(t) => " from **"@ + t@ + "**"@,
        None => Seq::empty(),
    }
}

/// Builds the reply after queueing a playlist.
pub fn queued_playlist_message(result: &PlaylistResult) -> (r: String)
    ensures
        r@ == queued_playlist_spec(*result),
{
    let mut out: Vec<char> = Vec::new();
    append_str(&mut out, "Queued **");
    push_decimal(&mut out, result.added as u64);
    append_str(&mut out, "** track(s)");
    match &result.title {
        Some(t) => {
            append_str(&mut out, " from **");
            append_str(&mut out, t.as_str());
            append_str(&mut out, "**");
        },
        None => {},
    }
    let r = string_from_chars(&out);
    assert(r@ =~= queued_playlist_spec(*result));
    r
}

/// Some role of the member is listed in `roles`.
pub open spec fn shares_role(member_roles: Seq<u64>, roles: Seq<u64>) -> bool {
    exists|i: int| 0 <= i < member_roles.len() && roles.contains(#[trigger] member_roles[i])
}

/// Who may run admin-only commands: configured admin users, members with a
/// configured admin role, and members with one of the guild's persisted
/// admin roles.
pub open spec fn command_admin_spec(
    author: u64,
    admin_uids: Option<Vec<u64>>,
    admin_roles: Option<Vec<u64>>,
    member_roles: Seq<u64>,
    guild_admin_roles: Option<Vec<u64>>,
) -> bool {
    (admin_uids matches Some(u) && u@.contains(author))
    || (admin_roles matches Some(a) && shares_role(member_roles, a@))
    || (guild_admin_roles matches Some(g) && g@.len() > 0 && shares_role(member_roles, g@))
}

fn any_shared(member_roles: &Vec<u64>, roles: &Vec<u64>) -> (b: bool)
    ensures
        b == shares_role(member_roles@, roles@),
{
    let mut i: usize = 0;
    while i < member_roles.len()
        invariant
            i <= member_roles.len(),
            forall|k: int| 0 <= k < i ==> !roles@.contains(#[trigger] member_roles@[k]),
        decreases member_roles.len() - i,
    {
        if list_contains(roles, member_roles[i]) {
            return true;
        }
        i += 1;
    }
    false
}

/// Whether the author may run an admin-only command. `guild_admin_roles`
/// is the guild's persisted admin roles when the command runs in a guild
/// (empty when the guild has no settings), `None` in direct messages.
pub fn is_command_admin(
    author: u64,
    admin_uids: &Option<Vec<u64>>,
    admin_roles: &Option<Vec<u64>>,
    member_roles: &Vec<u64>,
    guild_admin_roles: &Option<Vec<u64>>,
) -> (b: bool)
    ensures
        b == command_admin_spec(author, *admin_uids, *admin_roles, member_roles@, *guild_admin_roles),
{
    match admin_uids {
        Some(u) => {
            if list_contains(u, author) {
                return true;
            }
        },
        None => {},
    }
    match admin_roles {
        Some(a) => {
            if any_shared(member_roles, a) {
                return true;
            }
        },
        None => {},
    }
    match guild_admin_roles {
        Some(g) => g.len() > 0 && any_shared(member_roles, g),
        None => false,
    }
}

/// Permission bits the invite link asks for: view channels and send messages.
pub const INVITE_PERMISSIONS: u64 = 3072;

/// The bot's invite link.
pub open spec fn invite_url_spec(client_id: u64) -> Seq<char> {
    "https://discord.com/oauth2/authorize?client_id="@ + decimal(client_id as nat) + "&scope=bot&permissions="@ + decimal(INVITE_PERMISSIONS as nat)
}

/// Builds the bot's invite link for an application id.
pub fn invite_url(client_id: u64) -> (r: String)
    ensures
        r@ == invite_url_spec(client_id),
{
    let mut out: Vec<char> = Vec::new();
    append_str(&mut out, "https://discord.com/oauth2/authorize?client_id=");
    push_decimal(&mut out, client_id);
    append_str(&mut out, "&scope=bot&permissions=");
    push_decimal(&mut out, INVITE_PERMISSIONS);
    string_from_chars(&out)
}

/// Who may run admin-only commands, in terms of the lists alone: a
/// configured admin user; a member holding a configured admin role; a
/// member holding one of a non-empty list of the guild's persisted admin
/// roles, whatever the configured admin roles are; and no one else.
pub proof fn law_command_admin_rules(
    author: u64,
    admin_uids: Option<Vec<u64>>,
    admin_roles: Option<Vec<u64>>,
    member_roles: Seq<u64>,
    guild_admin_roles: Option<Vec<u64>>,
)
    ensures
        admin_uids matches Some(u) && (exists|k: int| 0 <= k < u@.len() && u@[k] == author)
            ==> command_admin_spec(author, admin_uids, admin_roles, member_roles, guild_admin_roles),
        admin_roles matches Some(a) && (exists|i: int, k: int| 0 <= i < member_roles.len() && 0 <= k < a@.len() && member_roles[i] == a@[k])
            ==> command_admin_spec(author, admin_uids, admin_roles, member_roles, guild_admin_roles),
        guild_admin_roles matches Some(g) && g@.len() > 0
            && (exists|i: int, k: int| 0 <= i < member_roles.len() && 0 <= k < g@.len() && member_roles[i] == g@[k])
            ==> command_admin_spec(author, admin_uids, admin_roles, member_roles, guild_admin_roles),
        command_admin_spec(author, admin_uids, admin_roles, member_roles, guild_admin_roles) ==> {
            ||| admin_uids matches Some(u) && (exists|k: int| 0 <= k < u@.len() && u@[k] == author)
            ||| admin_roles matches Some(a) && (exists|i: int, k: int| 0 <= i < member_roles.len() && 0 <= k < a@.len() && member_roles[i] == a@[k])
            ||| guild_admin_roles matches Some(g) && g@.len() > 0
                && (exists|i: int, k: int| 0 <= i < member_roles.len() && 0 <= k < g@.len() && member_roles[i] == g@[k])
        },
{
    if let Some(u) = admin_uids {
        if exists|k: int| 0 <= k < u@.len() && u@[k] == author {
            let k = choose|k: int| 0 <= k < u@.len() && u@[k] == author;
            assert(u@.contains(author));
        }
        if u@.contains(author) {
            let k = choose|k: int| 0 <= k < u@.len() && u@[k] == author;
        }
    }
    if let Some(a) = admin_roles {
        if exists|i: int, k: int| 0 <= i < member_roles.len() && 0 <= k < a@.len() && member_roles[i] == a@[k] {
            let (i, k) = choose|i: int, k: int| 0 <= i < member_roles.len() && 0 <= k < a@.len() && member_roles[i] == a@[k];
            assert(a@.contains(member_roles[i]));
        }
        if shares_role(member_roles, a@) {
            let i = choose|i: int| 0 <= i < member_roles.len() && a@.contains(#[trigger] member_roles[i]);
            let k = choose|k: int| 0 <= k < a@.len() && a@[k] == member_roles[i];
            assert(member_roles[i] == a@[k]);
        }
    }
    if let Some(g) = guild_admin_roles {
        if exists|i: int, k: int| 0 <= i < member_roles.len() && 0 <= k < g@.len() && member_roles[i] == g@[k] {
            let (i, k) = choose|i: int, k: int| 0 <= i < member_roles.len() && 0 <= k < g@.len() && member_roles[i] == g@[k];
            assert(g@.contains(member_roles[i]));
        }
        if shares_role(member_roles, g@) {
            let i = choose|i: int| 0 <= i < member_roles.len() && g@.contains(#[trigger] member_roles[i]);
            let k = choose|k: int| 0 <= k < g@.len() && g@[k] == member_roles[i];
            assert(member_roles[i] == g@[k]);
        }
    }
}

} // verus!
