//! What the guild pages show about the bot's cached view of a guild:
//! channel kind labels, permission labels, the guild list a user sees and
//! channel counts.

use vstd::prelude::*;
use crate::roles::{admin_of_spec, mutual_spec, AppUserRole, RoleView};

verus! {

/// The channel types the channel page tells apart.
pub enum ChannelKind {
    Text,
    Voice,
    Stage,
    News,
    NewsThread,
    PublicThread,
    PrivateThread,
    Forum,
    Category,
    Other,
}

/// The badge shown for each channel type.
pub open spec fn kind_label(k: ChannelKind) -> Seq<char> {
    match k {
        ChannelKind::Text => "TEXT"@,
        ChannelKind::Voice => "VOICE"@,
        ChannelKind::Stage => "STAGE"@,
        ChannelKind::News => "ANNOUNCE"@,
        ChannelKind::NewsThread | ChannelKind::PublicThread | ChannelKind::PrivateThread => "THREAD"@,
        ChannelKind::Forum => "FORUM"@,
        ChannelKind::Category => "CATEGORY"@,
        ChannelKind::Other => "OTHER"@,
    }
}

/// The badge shown for a channel type.
pub fn channel_kind_label(k: &ChannelKind) -> (s: &'static str)
    ensures
        s@ == kind_label(*k),
{
    match k {
        ChannelKind::Text => "TEXT",
        ChannelKind::Voice => "VOICE",
        ChannelKind::Stage => "STAGE",
        ChannelKind::News => "ANNOUNCE",
        ChannelKind::NewsThread | ChannelKind::PublicThread | ChannelKind::PrivateThread => "THREAD",
        ChannelKind::Forum => "FORUM",
        ChannelKind::Category => "CATEGORY",
        ChannelKind::Other => "OTHER",
    }
}

/// The permissions listed for channel permission overrides, in display
/// order, with Discord's bit for each.
pub open spec fn channel_permission_table() -> Seq<(u64, Seq<char>)> {
    seq![
        (8u64, "Administrator"@),
        (32u64, "Manage Server"@),
        (16u64, "Manage Channels"@),
        (268435456u64, "Manage Roles"@),
        (2u64, "Kick Members"@),
        (4u64, "Ban Members"@),
        (8192u64, "Manage Messages"@),
        (131072u64, "Mention Everyone"@),
        (1024u64, "View Channel"@),
        (2048u64, "Send Messages"@),
        (16384u64, "Embed Links"@),
        (32768u64, "Attach Files"@),
        (65536u64, "Read History"@),
        (1048576u64, "Connect"@),
        (2097152u64, "Speak"@),
        (4194304u64, "Mute Members"@),
        (8388608u64, "Deafen Members"@),
        (16777216u64, "Move Members"@),
        (256u64, "Priority Speaker"@),
        (512u64, "Video"@),
    ]
}

/// The permissions listed for roles, in display order, with Discord's bit
/// for each.
pub open spec fn role_permission_table() -> Seq<(u64, Seq<char>)> {
    seq![
        (32u64, "Manage Server"@),
        (16u64, "Manage Channels"@),
        (268435456u64, "Manage Roles"@),
        (2u64, "Kick Members"@),
        (4u64, "Ban Members"@),
        (8192u64, "Manage Messages"@),
        (134217728u64, "Manage Nicknames"@),
        (1073741824u64, "Manage Expressions"@),
        (536870912u64, "Manage Webhooks"@),
        (131072u64, "Mention Everyone"@),
        (128u64, "View Audit Log"@),
        (1024u64, "View Channel"@),
        (2048u64, "Send Messages"@),
        (16384u64, "Embed Links"@),
        (32768u64, "Attach Files"@),
        (65536u64, "Read History"@),
        (64u64, "Add Reactions"@),
        (1048576u64, "Connect"@),
        (2097152u64, "Speak"@),
        (4194304u64, "Mute Members"@),
        (8388608u64, "Deafen Members"@),
        (16777216u64, "Move Members"@),
        (256u64, "Priority Speaker"@),
        (512u64, "Video"@),
        (33554432u64, "Use Voice Activity"@),
        (67108864u64, "Change Nickname"@),
        (1u64, "Create Invite"@),
    ]
}

/// The text of each label.
pub open spec fn table_view(t: Seq<(u64, &str)>) -> Seq<(u64, Seq<char>)> {
    t.map_values(|e: (u64, &str)| (e.0, e.1@))
}

/// Builds [`channel_permission_table`].
pub fn channel_permissions() -> (v: Vec<(u64, &'static str)>)
    ensures
        table_view(v@) == channel_permission_table(),
{
    let mut v: Vec<(u64, &'static str)> = Vec::new();
    v.push((8u64, "Administrator"));
    v.push((32u64, "Manage Server"));
    v.push((16u64, "Manage Channels"));
    v.push((268435456u64, "Manage Roles"));
    v.push((2u64, "Kick Members"));
    v.push((4u64, "Ban Members"));
    v.push((8192u64, "Manage Messages"));
    v.push((131072u64, "Mention Everyone"));
    v.push((1024u64, "View Channel"));
    v.push((2048u64, "Send Messages"));
    v.push((16384u64, "Embed Links"));
    v.push((32768u64, "Attach Files"));
    v.push((65536u64, "Read History"));
    v.push((1048576u64, "Connect"));
    v.push((2097152u64, "Speak"));
    v.push((4194304u64, "Mute Members"));
    v.push((8388608u64, "Deafen Members"));
    v.push((16777216u64, "Move Members"));
    v.push((256u64, "Priority Speaker"));
    v.push((512u64, "Video"));
    assert(table_view(v@) =~= channel_permission_table());
    v
}

/// Builds [`role_permission_table`].
pub fn role_permissions() -> (v: Vec<(u64, &'static str)>)
    ensures
        table_view(v@) == role_permission_table(),
{
    let mut v: Vec<(u64, &'static str)> = Vec::new();
    v.push((32u64, "Manage Server"));
    v.push((16u64, "Manage Channels"));
    v.push((268435456u64, "Manage Roles"));
    v.push((2u64, "Kick Members"));
    v.push((4u64, "Ban Members"));
    v.push((8192u64, "Manage Messages"));
    v.push((134217728u64, "Manage Nicknames"));
    v.push((1073741824u64, "Manage Expressions"));
    v.push((536870912u64, "Manage Webhooks"));
    v.push((131072u64, "Mention Everyone"));
    v.push((128u64, "View Audit Log"));
    v.push((1024u64, "View Channel"));
    v.push((2048u64, "Send Messages"));
    v.push((16384u64, "Embed Links"));
    v.push((32768u64, "Attach Files"));
    v.push((65536u64, "Read History"));
    v.push((64u64, "Add Reactions"));
    v.push((1048576u64, "Connect"));
    v.push((2097152u64, "Speak"));
    v.push((4194304u64, "Mute Members"));
    v.push((8388608u64, "Deafen Members"));
    v.push((16777216u64, "Move Members"));
    v.push((256u64, "Priority Speaker"));
    v.push((512u64, "Video"));
    v.push((33554432u64, "Use Voice Activity"));
    v.push((67108864u64, "Change Nickname"));
    v.push((1u64, "Create Invite"));
    assert(table_view(v@) =~= role_permission_table());
    v
}

/// The labels of the table's permissions present in `bits`, in table order.
pub open spec fn labels_in(bits: u64, t: Seq<(u64, Seq<char>)>) -> Seq<Seq<char>>
    decreases t.len(),
{
    if t.len() == 0 {
        Seq::empty()
    } else {
        let rest = labels_in(bits, t.drop_last());
        if bits & t.last().0 == t.last().0 { rest.push(t.last().1) } else { rest }
    }
}

/// The labels of the table's permissions present in `bits`.
pub fn format_perm_flags(bits: u64, table: &Vec<(u64, &'static str)>) -> (r: Vec<&'static str>)
    ensures
        r@.map_values(|s: &str| s@) == labels_in(bits, table_view(table@)),
{
    let ghost tv = table_view(table@);
    let mut r: Vec<&'static str> = Vec::new();
    let mut i: usize = 0;
    while i < table.len()
        invariant
            i <= table@.len(),
            tv == table_view(table@),
            r@.map_values(|s: &str| s@) == labels_in(bits, tv.take(i as int)),
        decreases table@.len() - i,
    {
        let (flag, label) = table[i];
        let ghost before = r@;
        proof {
            assert(tv.take(i + 1).drop_last() =~= tv.take(i as int));
            assert(tv.take(i + 1).last() == (flag, label@));
        }
        if bits & flag == flag {
            r.push(label);
            assert(r@.map_values(|s: &str| s@) =~= before.map_values(|s: &str| s@).push(label@));
        }
        i += 1;
    }
    assert(tv.take(tv.len() as int) =~= tv);
    r
}

/// What the guilds page lists: the user's mutual guilds found in the
/// bot's cache (every cached guild, all administered, for a global admin),
/// each with its name and whether the user administers it.
pub open spec fn guild_listing_spec(r: RoleView, cached: Seq<(u64, Seq<char>)>) -> Seq<(u64, Seq<char>, bool)>
{
    if r is GlobalAdmin {
        cached.map_values(|c: (u64, Seq<char>)| (c.0, c.1, true))
    } else {
        listing_for(mutual_spec(r), cached, r)
    }
}

/// The listing of the guilds `ids`, in order, skipping those not cached.
pub open spec fn listing_for(ids: Seq<u64>, cached: Seq<(u64, Seq<char>)>, r: RoleView) -> Seq<(u64, Seq<char>, bool)>
    decreases ids.len(),
{
    if ids.len() == 0 {
        Seq::empty()
    } else {
        let rest = listing_for(ids.drop_last(), cached, r);
        match name_for(cached, ids.last()) {
            Some(n) => rest.push((ids.last(), n, admin_of_spec(r, ids.last()))),
            None => rest,
        }
    }
}

/// The name paired with the first entry whose id is `g`.
pub open spec fn name_for(cached: Seq<(u64, Seq<char>)>, g: u64) -> Option<Seq<char>>
    decreases cached.len(),
{
    if cached.len() == 0 {
        None
    } else if cached[0].0 == g {
        Some(cached[0].1)
    } else {
        name_for(cached.drop_first(), g)
    }
}


/// The id and name text of each entry.
pub open spec fn names_view(c: Seq<(u64, String)>) -> Seq<(u64, Seq<char>)> {
    c.map_values(|e: (u64, String)| (e.0, e.1@))
}

/// The id, name text and admin flag of each listed guild.
pub open spec fn listing_view(c: Seq<(u64, String, bool)>) -> Seq<(u64, Seq<char>, bool)> {
    c.map_values(|e: (u64, String, bool)| (e.0, e.1@, e.2))
}

proof fn lemma_name_for(c: Seq<(u64, Seq<char>)>, g: u64, i: int)
    requires
        0 <= i <= c.len(),
        forall|k: int| 0 <= k < i ==> c[k].0 != g,
    ensures
        name_for(c, g) == name_for(c.subrange(i, c.len() as int), g),
    decreases i,
{
    if i > 0 {
        assert(c[0].0 != g);
        let d = c.drop_first();
        assert forall|k: int| 0 <= k < i - 1 implies d[k].0 != g by {
            assert(d[k] == c[k + 1]);
        }
        lemma_name_for(d, g, i - 1);
        assert(d.subrange(i - 1, d.len() as int) =~= c.subrange(i, c.len() as int));
    } else {
        assert(c.subrange(0, c.len() as int) =~= c);
    }
}

pub(crate) fn lookup_name(cached: &Vec<(u64, String)>, g: u64) -> (r: Option<String>)
    ensures
        match name_for(names_view(cached@), g) {
            Some(n) => r matches Some(s) && s@ == n,
            None => r is None,
        },
{
    let ghost cv = names_view(cached@);
    let mut i: usize = 0;
    while i < cached.len()
        invariant
            i <= cached@.len(),
            cv == names_view(cached@),
            forall|k: int| 0 <= k < i ==> cv[k].0 != g,
        decreases cached@.len() - i,
    {
        if cached[i].0 == g {
            proof {
                lemma_name_for(cv, g, i as int);
                let rest = cv.subrange(i as int, cv.len() as int);
                assert(rest[0] == cv[i as int]);
            }
            return Some(cached[i].1.clone());
        }
        i += 1;
    }
    proof {
        lemma_name_for(cv, g, i as int);
        assert(cv.subrange(i as int, cv.len() as int) =~= Seq::<(u64, Seq<char>)>::empty());
    }
    None
}

/// Builds the guilds page listing (see [`guild_listing_spec`]).
pub fn guild_listing(role: &AppUserRole, cached: &Vec<(u64, String)>) -> (r: Vec<(u64, String, bool)>)
    ensures
        listing_view(r@) == guild_listing_spec(role@, names_view(cached@)),
{
    let mut out: Vec<(u64, String, bool)> = Vec::new();
    match role {
        AppUserRole::GlobalAdmin => {
            let mut i: usize = 0;
            while i < cached.len()
                invariant
                    i <= cached@.len(),
                    listing_view(out@) == names_view(cached@.take(i as int)).map_values(|c: (u64, Seq<char>)| (c.0, c.1, true)),
                decreases cached@.len() - i,
            {
                let ghost before = out@;
                let name = cached[i].1.clone();
                let ghost entry = (cached@[i as int].0, cached@[i as int].1@, true);
                assert(name@ == cached@[i as int].1@);
                out.push((cached[i].0, name, true));
                proof {
                    assert(listing_view(out@) =~= listing_view(before).push(entry));
                    assert(names_view(cached@.take(i + 1)) =~= names_view(cached@.take(i as int)).push((cached@[i as int].0, cached@[i as int].1@)));
                }
                i += 1;
                assert(listing_view(out@) =~= names_view(cached@.take(i as int)).map_values(|c: (u64, Seq<char>)| (c.0, c.1, true)));
            }
            assert(cached@.take(cached@.len() as int) =~= cached@);
        },
        _ => {
            let ids = role.mutual_guilds();
            let mut i: usize = 0;
            while i < ids.len()
                invariant
                    i <= ids@.len(),
                    ids@ == mutual_spec(role@),
                    !(role@ is GlobalAdmin),
                    listing_view(out@) == listing_for(ids@.take(i as int), names_view(cached@), role@),
                decreases ids@.len() - i,
            {
                proof {
                    assert(ids@.take(i + 1).drop_last() =~= ids@.take(i as int));
                    assert(ids@.take(i + 1).last() == ids@[i as int]);
                }
                let g = ids[i];
                match lookup_name(cached, g) {
                    Some(name) => {
                        let admin = role.is_admin_of(g);
                        let ghost before = out@;
                        out.push((g, name, admin));
                        assert(listing_view(out@) =~= listing_view(before).push((g, name@, admin)));
                    },
                    None => {},
                }
                i += 1;
            }
            assert(ids@.take(ids@.len() as int) =~= ids@);
        },
    }
    out
}

/// The channel kinds the overview counts as text channels.
pub open spec fn is_text_kind(k: ChannelKind) -> bool {
    k is Text || k is News
}

/// The channel kinds the overview counts as voice channels.
pub open spec fn is_voice_kind(k: ChannelKind) -> bool {
    k is Voice || k is Stage
}

/// How many of the kinds satisfy `p`.
pub open spec fn count_kinds(ks: Seq<ChannelKind>, p: spec_fn(ChannelKind) -> bool) -> nat
    decreases ks.len(),
{
    if ks.len() == 0 { 0 } else { count_kinds(ks.drop_last(), p) + if p(ks.last()) { 1nat } else { 0nat } }
}

/// The overview's channel counts: text and announcement channels, then
/// voice and stage channels.
pub fn channel_counts(kinds: &Vec<ChannelKind>) -> (r: (usize, usize))
    ensures
        r.0 == count_kinds(kinds@, |k: ChannelKind| is_text_kind(k)),
        r.1 == count_kinds(kinds@, |k: ChannelKind| is_voice_kind(k)),
{
    let mut text: usize = 0;
    let mut voice: usize = 0;
    let mut i: usize = 0;
    while i < kinds.len()
        invariant
            i <= kinds@.len(),
            text == count_kinds(kinds@.take(i as int), |k: ChannelKind| is_text_kind(k)),
            voice == count_kinds(kinds@.take(i as int), |k: ChannelKind| is_voice_kind(k)),
            text <= i,
            voice <= i,
        decreases kinds@.len() - i,
    {
        proof {
            assert(kinds@.take(i + 1).drop_last() =~= kinds@.take(i as int));
            assert(kinds@.take(i + 1).last() == kinds@[i as int]);
        }
        match kinds[i] {
            ChannelKind::Text | ChannelKind::News => text += 1,
            ChannelKind::Voice | ChannelKind::Stage => voice += 1,
            _ => {},
        }
        i += 1;
    }
    assert(kinds@.take(kinds@.len() as int) =~= kinds@);
    (text, voice)
}

/// The overview's role count: every role but `@everyone`.
pub fn role_count(roles: usize) -> (r: usize)
    ensures
        r == if roles == 0 { 0 } else { roles - 1 },
{
    if roles == 0 { 0 } else { roles - 1 }
}
} // verus!
