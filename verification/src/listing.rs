//! The rows of the members, roles and settings pages: who is shown under
//! which name, in which order, and the labels and counts beside them.

use vstd::prelude::*;
use crate::arrange::{is_stable_order, keys_view, sort_order, SortKey};
use crate::arrange::{key_lt, text_lt};
use crate::guild_view::{lookup_name, name_for, names_view, ChannelKind};
use crate::roles::{list_contains, ADMINISTRATOR_BIT};
use crate::text::{append_str, chars_of, decimal, push_decimal, string_from_chars};

verus! {

/// What `str::to_lowercase` yields for `s`.
pub uninterp spec fn lowercase_of(s: Seq<char>) -> Seq<char>;

/// `str::to_lowercase`, named [`lowercase_of`] (Unicode lower case, the
/// same on every machine).
#[verifier::external_body]
fn lowercase(s: &str) -> (r: String)
    ensures
        r@ == lowercase_of(s@),
{
    s.to_lowercase()
}

/// What the members page knows of a guild member.
pub struct MemberFacts {
    pub user_id: u64,
    pub nick: Option<String>,
    pub global_name: Option<String>,
    pub username: String,
    pub role_ids: Vec<u64>,
}

/// The name a member is shown under: the guild nickname, else the global
/// display name, else the user name.
pub open spec fn display_name_spec(m: MemberFacts) -> Seq<char> {
    match m.nick {
        Some(n) => n@,
        None => match m.global_name {
            Some(g) => g@,
            None => m.username@,
        },
    }
}

/// The name a member is shown under.
pub fn display_name(m: &MemberFacts) -> (r: String)
    ensures
        r@ == display_name_spec(*m),
{
    match &m.nick {
        Some(n) => n.clone(),
        None => match &m.global_name {
            Some(g) => g.clone(),
            None => m.username.clone(),
        },
    }
}

/// Members in voice come first, then members by lower-cased display name.
pub open spec fn member_key(m: MemberFacts, voice_ids: Seq<u64>) -> SortKey {
    (if voice_ids.contains(m.user_id) { 0i64 } else { 1i64 }, lowercase_of(display_name_spec(m)))
}

/// The sort key of each member.
pub open spec fn member_keys(ms: Seq<MemberFacts>, voice_ids: Seq<u64>) -> Seq<SortKey> {
    ms.map_values(|m: MemberFacts| member_key(m, voice_ids))
}

/// The order the members page lists `members` in (positions into
/// `members`): those in voice first, then by lower-cased display name,
/// ties in their given order.
pub fn member_order(members: &Vec<MemberFacts>, voice_ids: &Vec<u64>) -> (p: Vec<usize>)
    ensures
        is_stable_order(member_keys(members@, voice_ids@), p@),
{
    let mut keys: Vec<(i64, Vec<char>)> = Vec::new();
    let mut i: usize = 0;
    while i < members.len()
        invariant
            i <= members@.len(),
            keys_view(keys@) == member_keys(members@.take(i as int), voice_ids@),
        decreases members@.len() - i,
    {
        let m = &members[i];
        let rank: i64 = if list_contains(voice_ids, m.user_id) { 0 } else { 1 };
        let name = display_name(m);
        let lower = lowercase(name.as_str());
        let ghost before = keys@;
        keys.push((rank, chars_of(lower.as_str())));
        proof {
            assert(members@.take(i + 1) =~= members@.take(i as int).push(members@[i as int]));
            assert(keys_view(keys@) =~= keys_view(before).push((rank, lower@)));
            assert(member_keys(members@.take(i + 1), voice_ids@)
                =~= member_keys(members@.take(i as int), voice_ids@).push(member_key(members@[i as int], voice_ids@)));
        }
        i += 1;
    }
    assert(members@.take(members@.len() as int) =~= members@);
    sort_order(&keys)
}

/// The members page lists members in voice before the others, and within
/// each group by the lower-cased name it shows for them (the nickname, else
/// the global name, else the user name), ties kept in the given order.
pub proof fn law_members_listed_by_shown_name(ms: Seq<MemberFacts>, voice_ids: Seq<u64>, p: Seq<usize>)
    requires
        is_stable_order(member_keys(ms, voice_ids), p),
    ensures
        p.len() == ms.len(),
        forall|i: int, j: int| #![trigger p[i], p[j]] 0 <= i < j < p.len() ==> {
            let a = ms[p[i] as int];
            let b = ms[p[j] as int];
            let shown_a = match a.nick { Some(n) => n@, None => match a.global_name { Some(g) => g@, None => a.username@ } };
            let shown_b = match b.nick { Some(n) => n@, None => match b.global_name { Some(g) => g@, None => b.username@ } };
            &&& (voice_ids.contains(b.user_id) ==> voice_ids.contains(a.user_id))
            &&& (voice_ids.contains(a.user_id) == voice_ids.contains(b.user_id)
                    ==> !text_lt(lowercase_of(shown_b), lowercase_of(shown_a)))
            &&& (voice_ids.contains(a.user_id) == voice_ids.contains(b.user_id)
                    && lowercase_of(shown_a) == lowercase_of(shown_b) ==> p[i] < p[j])
        },
{
    let k = member_keys(ms, voice_ids);
    assert forall|i: int, j: int| #![trigger p[i], p[j]] 0 <= i < j < p.len() implies {
            let a = ms[p[i] as int];
            let b = ms[p[j] as int];
            let shown_a = match a.nick { Some(n) => n@, None => match a.global_name { Some(g) => g@, None => a.username@ } };
            let shown_b = match b.nick { Some(n) => n@, None => match b.global_name { Some(g) => g@, None => b.username@ } };
            &&& (voice_ids.contains(b.user_id) ==> voice_ids.contains(a.user_id))
            &&& (voice_ids.contains(a.user_id) == voice_ids.contains(b.user_id)
                    ==> !text_lt(lowercase_of(shown_b), lowercase_of(shown_a)))
            &&& (voice_ids.contains(a.user_id) == voice_ids.contains(b.user_id)
                    && lowercase_of(shown_a) == lowercase_of(shown_b) ==> p[i] < p[j])
        } by {
        assert(p[i] < k.len() && p[j] < k.len());
        assert(k[p[i] as int] == member_key(ms[p[i] as int], voice_ids));
        assert(k[p[j] as int] == member_key(ms[p[j] as int], voice_ids));
        assert(!key_lt(k[p[j] as int], k[p[i] as int]));
    }
}

/// The names of the roles `ids` that `roles` knows, in the order of `ids`.
pub open spec fn role_names_spec(ids: Seq<u64>, roles: Seq<(u64, Seq<char>)>) -> Seq<Seq<char>>
    decreases ids.len(),
{
    if ids.len() == 0 {
        Seq::empty()
    } else {
        let rest = role_names_spec(ids.drop_last(), roles);
        match name_for(roles, ids.last()) {
            Some(n) => rest.push(n),
            None => rest,
        }
    }
}

/// The names of a member's roles, skipping roles the guild does not list.
pub fn member_role_names(ids: &Vec<u64>, roles: &Vec<(u64, String)>) -> (r: Vec<String>)
    ensures
        r@.map_values(|s: String| s@) == role_names_spec(ids@, names_view(roles@)),
{
    let mut r: Vec<String> = Vec::new();
    let mut i: usize = 0;
    while i < ids.len()
        invariant
            i <= ids@.len(),
            r@.map_values(|s: String| s@) == role_names_spec(ids@.take(i as int), names_view(roles@)),
        decreases ids@.len() - i,
    {
        let ghost before = r@;
        let found = lookup_name(roles, ids[i]);
        proof {
            assert(ids@.take(i + 1).drop_last() =~= ids@.take(i as int));
        }
        match found {
            Some(n) => {
                r.push(n);
                assert(r@.map_values(|s: String| s@) =~= before.map_values(|s: String| s@).push(r@.last()@));
            },
            None => {},
        }
        i += 1;
    }
    assert(ids@.take(ids@.len() as int) =~= ids@);
    r
}

/// What the roles and settings pages know of a guild role.
pub struct RoleFacts {
    pub id: u64,
    pub name: String,
    pub position: u16,
    pub colour: u32,
    pub permissions: u64,
}

/// Roles higher in the hierarchy come first, equal positions by name.
pub open spec fn role_key(r: RoleFacts) -> SortKey {
    ((0 - r.position) as i64, r.name@)
}

/// The sort key of each role.
pub open spec fn role_keys(rs: Seq<RoleFacts>) -> Seq<SortKey> {
    rs.map_values(|r: RoleFacts| role_key(r))
}

/// The order the roles page lists `roles` in (positions into `roles`):
/// by position from the top, then by name.
pub fn role_order(roles: &Vec<RoleFacts>) -> (p: Vec<usize>)
    ensures
        is_stable_order(role_keys(roles@), p@),
{
    let mut keys: Vec<(i64, Vec<char>)> = Vec::new();
    let mut i: usize = 0;
    while i < roles.len()
        invariant
            i <= roles@.len(),
            keys_view(keys@) == role_keys(roles@.take(i as int)),
        decreases roles@.len() - i,
    {
        let r = &roles[i];
        let ghost before = keys@;
        keys.push((0 - (r.position as i64), chars_of(r.name.as_str())));
        proof {
            assert(roles@.take(i + 1) =~= roles@.take(i as int).push(roles@[i as int]));
            assert(keys_view(keys@) =~= keys_view(before).push(role_key(roles@[i as int])));
            assert(role_keys(roles@.take(i + 1)) =~= role_keys(roles@.take(i as int)).push(role_key(roles@[i as int])));
        }
        i += 1;
    }
    assert(roles@.take(roles@.len() as int) =~= roles@);
    sort_order(&keys)
}

/// Whether the role carries the `ADMINISTRATOR` permission.
pub fn role_is_admin(r: &RoleFacts) -> (b: bool)
    ensures
        b == (r.permissions & ADMINISTRATOR_BIT == ADMINISTRATOR_BIT),
{
    r.permissions & ADMINISTRATOR_BIT == ADMINISTRATOR_BIT
}

/// The entries equal to `r`.
pub open spec fn equals(r: u64) -> spec_fn(u64) -> bool {
    |x: u64| x == r
}

/// How often `r` occurs in all the lists together.
pub open spec fn occurrences(lists: Seq<Seq<u64>>, r: u64) -> nat
    decreases lists.len(),
{
    if lists.len() == 0 {
        0
    } else {
        occurrences(lists.drop_last(), r) + lists.last().filter(equals(r)).len()
    }
}

/// The number of entries in all the lists together.
pub open spec fn total_len(lists: Seq<Seq<u64>>) -> nat
    decreases lists.len(),
{
    if lists.len() == 0 { 0 } else { total_len(lists.drop_last()) + lists.last().len() }
}

/// The roles of each member, as sequences.
pub open spec fn lists_view(v: Seq<Vec<u64>>) -> Seq<Seq<u64>> {
    v.map_values(|l: Vec<u64>| l@)
}

proof fn lemma_occurrences_bounded(lists: Seq<Seq<u64>>, r: u64)
    ensures
        occurrences(lists, r) <= total_len(lists),
    decreases lists.len(),
{
    if lists.len() > 0 {
        lemma_occurrences_bounded(lists.drop_last(), r);
        lists.last().lemma_filter_len(equals(r));
    }
}

/// How many of the members' role lists mention role `r`, counting every
/// mention (the roles page's hint of who holds a role).
pub fn role_holders(member_roles: &Vec<Vec<u64>>, r: u64) -> (n: usize)
    requires
        total_len(lists_view(member_roles@)) <= usize::MAX,
    ensures
        n == occurrences(lists_view(member_roles@), r),
{
    let ghost lv = lists_view(member_roles@);
    let mut n: usize = 0;
    let mut i: usize = 0;
    while i < member_roles.len()
        invariant
            i <= member_roles@.len(),
            lv == lists_view(member_roles@),
            total_len(lv) <= usize::MAX,
            n == occurrences(lv.take(i as int), r),
            total_len(lv.take(i as int)) <= total_len(lv),
        decreases member_roles@.len() - i,
    {
        let list = &member_roles[i];
        let ghost pre = lv.take(i as int);
        let ghost cur = lv.take(i + 1);
        proof {
            assert(cur.drop_last() =~= pre);
            assert(cur.last() == list@);
            lemma_total_len_prefix(lv, i + 1);
            lemma_occurrences_bounded(pre, r);
            assert(total_len(cur) == total_len(pre) + list@.len());
        }
        let mut j: usize = 0;
        let mut c: usize = 0;
        while j < list.len()
            invariant
                j <= list@.len(),
                c == list@.take(j as int).filter(equals(r)).len(),
                n + list@.len() <= usize::MAX,
                c <= j,
            decreases list@.len() - j,
        {
            proof {
                assert(list@.take(j + 1) =~= list@.take(j as int).push(list@[j as int]));
                list@.take(j as int).lemma_filter_push(list@[j as int], equals(r));
                list@.take(j as int).lemma_filter_len(equals(r));
            }
            if list[j] == r {
                c += 1;
            }
            j += 1;
        }
        proof {
            assert(list@.take(list@.len() as int) =~= list@);
        }
        n = n + c;
        i += 1;
    }
    assert(lv.take(lv.len() as int) =~= lv);
    n
}

proof fn lemma_total_len_prefix(lists: Seq<Seq<u64>>, k: int)
    requires
        0 <= k <= lists.len(),
    ensures
        total_len(lists.take(k)) <= total_len(lists),
        total_len(lists.take(k)) + lists.subrange(k, lists.len() as int).len() >= 0,
    decreases lists.len() - k,
{
    if k < lists.len() {
        lemma_total_len_prefix(lists, k + 1);
        assert(lists.take(k + 1).drop_last() =~= lists.take(k));
    } else {
        assert(lists.take(k) =~= lists);
    }
}

/// The lower-case hexadecimal digit for `d` (`d < 16`).
pub open spec fn hex_char(d: nat) -> char {
    if d < 10 { (d + 48) as char } else { (d + 87) as char }
}

/// Lower-case hexadecimal rendering of `n`, without leading zeros.
pub open spec fn hex(n: nat) -> Seq<char>
    decreases n,
{
    if n < 16 {
        seq![hex_char(n)]
    } else {
        hex(n / 16).push(hex_char(n % 16))
    }
}

/// `s` with zeros in front up to `width` characters.
pub open spec fn zero_padded(s: Seq<char>, width: nat) -> Seq<char> {
    if s.len() >= width {
        s
    } else {
        Seq::new((width - s.len()) as nat, |_i: int| '0') + s
    }
}

fn push_hex(out: &mut Vec<char>, n: u32)
    ensures
        final(out)@ == old(out)@ + hex(n as nat),
    decreases n,
{
    if n >= 16 {
        push_hex(out, n / 16);
    }
    let d: u8 = (n % 16) as u8;
    let c: char = if d < 10 { (d + 48u8) as char } else { (d + 87u8) as char };
    out.push(c);
    assert(hex(n as nat) =~= if n < 16 { seq![hex_char(n as nat)] } else { hex((n / 16) as nat).push(hex_char((n % 16) as nat)) });
}

/// A role colour as six (or more) lower-case hex digits, as `{:06x}` writes it.
pub fn colour_hex(colour: u32) -> (r: String)
    ensures
        r@ == zero_padded(hex(colour as nat), 6),
{
    let mut digits: Vec<char> = Vec::new();
    push_hex(&mut digits, colour);
    assert(digits@ =~= hex(colour as nat));
    let mut out: Vec<char> = Vec::new();
    while out.len() + digits.len() < 6
        invariant
            digits@ == hex(colour as nat),
            out@.len() + digits@.len() <= 6 || out@.len() == 0,
            forall|k: int| 0 <= k < out@.len() ==> out@[k] == '0',
        decreases 6 - out@.len(),
    {
        out.push('0');
    }
    let ghost pad = out@;
    append_chars_into(&mut out, &digits);
    proof {
        if digits@.len() >= 6 {
            assert(pad.len() == 0);
            assert(out@ =~= digits@);
        } else {
            assert(pad =~= Seq::new((6 - digits@.len()) as nat, |_i: int| '0'));
        }
    }
    string_from_chars(&out)
}

fn append_chars_into(out: &mut Vec<char>, s: &Vec<char>)
    ensures
        final(out)@ == old(out)@ + s@,
{
    let mut i: usize = 0;
    while i < s.len()
        invariant
            i <= s@.len(),
            out@ == old(out)@ + s@.take(i as int),
        decreases s@.len() - i,
    {
        out.push(s[i]);
        i += 1;
        assert(out@ =~= old(out)@ + s@.take(i as int));
    }
    assert(s@.take(s@.len() as int) =~= s@);
}

/// The roles offered as admin roles on the settings page: every role but
/// `@everyone` (whose id is the guild's).
pub open spec fn pickable(rs: Seq<RoleFacts>, guild_id: u64) -> Seq<RoleFacts> {
    rs.filter(not_base_role(guild_id))
}

/// The roles other than the guild's base role.
pub open spec fn not_base_role(guild_id: u64) -> spec_fn(RoleFacts) -> bool {
    |r: RoleFacts| r.id != guild_id
}

/// Roles higher in the hierarchy come first.
pub open spec fn picker_key(r: RoleFacts) -> SortKey {
    ((0 - r.position) as i64, Seq::empty())
}

/// The sort key of each role offered.
pub open spec fn picker_keys(rs: Seq<RoleFacts>) -> Seq<SortKey> {
    rs.map_values(|x: RoleFacts| picker_key(x))
}

/// `rows` lists the roles `kept` in the order `p`, each with whether it is
/// one of `admin_ids`.
pub open spec fn picker_rows(rows: Seq<(u64, String, bool)>, kept: Seq<RoleFacts>, p: Seq<usize>, admin_ids: Seq<u64>) -> bool {
    &&& rows.len() == p.len()
    &&& forall|i: int| 0 <= i < p.len() ==> {
        let role = #[trigger] kept[p[i] as int];
        &&& rows[i].0 == role.id
        &&& rows[i].1@ == role.name@
        &&& rows[i].2 == admin_ids.contains(role.id)
    }
}

/// The admin-role picker of the settings page: every role but
/// `@everyone`, from the top of the hierarchy down (equal positions in
/// their given order), each with whether it is an admin role now.
pub fn admin_role_picker(roles: &Vec<RoleFacts>, guild_id: u64, admin_ids: &Vec<u64>) -> (r: Vec<(u64, String, bool)>)
    ensures
        exists|p: Seq<usize>| #[trigger] is_stable_order(picker_keys(pickable(roles@, guild_id)), p)
            && picker_rows(r@, pickable(roles@, guild_id), p, admin_ids@),
{
    let ghost keep = not_base_role(guild_id);
    let mut kept: Vec<usize> = Vec::new();
    let mut keys: Vec<(i64, Vec<char>)> = Vec::new();
    let mut i: usize = 0;
    while i < roles.len()
        invariant
            i <= roles@.len(),
            keep == not_base_role(guild_id),
            kept@.len() == roles@.take(i as int).filter(keep).len(),
            keys@.len() == kept@.len(),
            forall|k: int| 0 <= k < kept@.len() ==> {
                &&& #[trigger] kept@[k] < roles@.len()
                &&& roles@[kept@[k] as int] == roles@.take(i as int).filter(keep)[k]
            },
            keys_view(keys@) == roles@.take(i as int).filter(keep).map_values(|x: RoleFacts| picker_key(x)),
        decreases roles@.len() - i,
    {
        let ghost pre = roles@.take(i as int);
        proof {
            assert(roles@.take(i + 1) =~= pre.push(roles@[i as int]));
            pre.lemma_filter_push(roles@[i as int], keep);
        }
        if roles[i].id != guild_id {
            assert(keep(roles@[i as int]));
            let ghost kb = keys@;
            kept.push(i);
            keys.push((0 - (roles[i].position as i64), Vec::new()));
            proof {
                let f = roles@.take(i + 1).filter(keep);
                assert(f == pre.filter(keep).push(roles@[i as int]));
                assert(keys_view(keys@) =~= keys_view(kb).push(picker_key(roles@[i as int])));
                assert(f.map_values(|x: RoleFacts| picker_key(x))
                    =~= pre.filter(keep).map_values(|x: RoleFacts| picker_key(x)).push(picker_key(roles@[i as int])));
            }
        } else {
            assert(!keep(roles@[i as int]));
        }
        i += 1;
    }
    let ghost all = roles@.filter(keep);
    assert(roles@.take(roles@.len() as int) =~= roles@);
    let p = sort_order(&keys);
    let mut r: Vec<(u64, String, bool)> = Vec::new();
    let mut j: usize = 0;
    while j < p.len()
        invariant
            j <= p@.len(),
            all == pickable(roles@, guild_id),
            is_stable_order(keys_view(keys@), p@),
            keys@.len() == kept@.len(),
            kept@.len() == all.len(),
            forall|k: int| 0 <= k < kept@.len() ==> {
                &&& #[trigger] kept@[k] < roles@.len()
                &&& roles@[kept@[k] as int] == all[k]
            },
            r@.len() == j,
            forall|t: int| 0 <= t < j ==> {
                let role = #[trigger] all[p@[t] as int];
                &&& r@[t].0 == role.id
                &&& r@[t].1@ == role.name@
                &&& r@[t].2 == admin_ids@.contains(role.id)
            },
        decreases p@.len() - j,
    {
        let k = p[j];
        assert(p@[j as int] < keys@.len());
        let role = &roles[kept[k]];
        r.push((role.id, role.name.clone(), list_contains(admin_ids, role.id)));
        j += 1;
    }
    assert(keys_view(keys@) == picker_keys(all));
    assert(picker_rows(r@, all, p@, admin_ids@));
    r
}

/// Whom a channel permission override applies to.
pub enum OverwriteTarget {
    Role(u64),
    Member(u64),
    Other,
}

/// The label of a channel permission override: `@everyone` for the
/// guild's base role, `@` and the role's name for another role (`@@` and
/// its id when the guild does not list it), `user` and the id for a member.
pub open spec fn overwrite_label_spec(t: OverwriteTarget, guild_id: u64, roles: Seq<(u64, Seq<char>)>) -> Seq<char> {
    match t {
        OverwriteTarget::Role(id) => if id == guild_id {
            "@everyone"@
        } else {
            match name_for(roles, id) {
                Some(n) => "@"@ + n,
                None => "@@"@ + decimal(id as nat),
            }
        },
        OverwriteTarget::Member(id) => "user "@ + decimal(id as nat),
        OverwriteTarget::Other => "unknown"@,
    }
}

/// The label shown for a channel permission override.
pub fn overwrite_label(t: &OverwriteTarget, guild_id: u64, roles: &Vec<(u64, String)>) -> (r: String)
    ensures
        r@ == overwrite_label_spec(*t, guild_id, names_view(roles@)),
{
    let mut out: Vec<char> = Vec::new();
    match t {
        OverwriteTarget::Role(id) => {
            if *id == guild_id {
                append_str(&mut out, "@everyone");
            } else {
                match lookup_name(roles, *id) {
                    Some(n) => {
                        append_str(&mut out, "@");
                        append_str(&mut out, n.as_str());
                    },
                    None => {
                        append_str(&mut out, "@@");
                        push_decimal(&mut out, *id);
                    },
                }
            }
        },
        OverwriteTarget::Member(id) => {
            append_str(&mut out, "user ");
            push_decimal(&mut out, *id);
        },
        OverwriteTarget::Other => append_str(&mut out, "unknown"),
    }
    proof {
        reveal_strlit("@everyone");
        reveal_strlit("@");
        reveal_strlit("@@");
        reveal_strlit("user ");
        reveal_strlit("unknown");
    }
    string_from_chars(&out)
}

/// What the channels page knows of a channel.
pub struct ChannelFacts {
    pub id: u64,
    pub name: String,
    pub kind: ChannelKind,
    pub position: u16,
    pub parent_id: Option<u64>,
}

/// One box of the channels page: the channels under one parent, in order.
pub struct ChannelGroup {
    /// The parent channel id shared by the channels (`None`: top level).
    pub parent_id: Option<u64>,
    /// The parent category's name, when the parent is a known category.
    pub category: Option<String>,
    /// Positions into the channel list.
    pub channels: Vec<usize>,
}

/// A non-category channel under `parent`.
pub open spec fn in_group(c: ChannelFacts, parent: Option<u64>) -> bool {
    !(c.kind is Category) && c.parent_id == parent
}

/// The name of the first category channel with id `id`.
pub open spec fn category_name(cs: Seq<ChannelFacts>, id: u64) -> Option<Seq<char>>
    decreases cs.len(),
{
    if cs.len() == 0 {
        None
    } else if cs[0].kind is Category && cs[0].id == id {
        Some(cs[0].name@)
    } else {
        category_name(cs.drop_first(), id)
    }
}

/// The heading of the group under `parent`: the category's name, if the
/// parent is a known category.
pub open spec fn group_title(cs: Seq<ChannelFacts>, parent: Option<u64>) -> Option<Seq<char>> {
    match parent {
        Some(id) => category_name(cs, id),
        None => None,
    }
}

/// The text a heading sorts by (no heading sorts as the empty text).
pub open spec fn title_key(t: Option<Seq<char>>) -> Seq<char> {
    match t {
        Some(s) => s,
        None => Seq::empty(),
    }
}

/// The characters of an optional name.
pub open spec fn title_view(t: Option<String>) -> Option<Seq<char>> {
    match t {
        Some(s) => Some(s@),
        None => None,
    }
}

/// `l` lists, each once, exactly the channels of the group under
/// `parent`, by position (equal positions in their given order).
pub open spec fn lists_group(cs: Seq<ChannelFacts>, parent: Option<u64>, l: Seq<usize>) -> bool {
    &&& l.len() > 0
    &&& forall|a: int| 0 <= a < l.len() ==> #[trigger] l[a] < cs.len() && in_group(cs[l[a] as int], parent)
    &&& forall|x: usize| x < cs.len() && in_group(cs[x as int], parent) ==> #[trigger] l.contains(x)
    &&& forall|a: int, b: int| #![trigger l[a], l[b]] 0 <= a < b < l.len() ==> {
        &&& l[a] != l[b]
        &&& cs[l[a] as int].position <= cs[l[b] as int].position
        &&& (cs[l[a] as int].position == cs[l[b] as int].position ==> l[a] < l[b])
    }
}

/// `gs` is the channels page's layout of `cs`: one group per parent of a
/// non-category channel, each listing its channels by position and headed
/// by its category's name, the groups ordered by heading (no heading
/// counting as the empty text).
pub open spec fn is_channel_layout(cs: Seq<ChannelFacts>, gs: Seq<ChannelGroup>) -> bool {
    &&& forall|g: int| 0 <= g < gs.len() ==> lists_group(cs, #[trigger] gs[g].parent_id, gs[g].channels@)
    &&& forall|g: int| 0 <= g < gs.len() ==> title_view(#[trigger] gs[g].category) == group_title(cs, gs[g].parent_id)
    &&& forall|g: int, h: int| #![trigger gs[g], gs[h]] 0 <= g < h < gs.len() ==> gs[g].parent_id != gs[h].parent_id
    &&& forall|x: int| 0 <= x < cs.len() && !(#[trigger] cs[x].kind is Category) ==>
        exists|g: int| 0 <= g < gs.len() && #[trigger] gs[g].parent_id == cs[x].parent_id
    &&& forall|g: int, h: int| #![trigger gs[g], gs[h]] 0 <= g < h < gs.len() ==>
        !text_lt(title_key(title_view(gs[h].category)), title_key(title_view(gs[g].category)))
}

/// Channels sort by position.
pub open spec fn position_key(c: ChannelFacts) -> SortKey {
    (c.position as i64, Seq::empty())
}

/// The sort key of each channel.
pub open spec fn position_keys(cs: Seq<ChannelFacts>) -> Seq<SortKey> {
    cs.map_values(|c: ChannelFacts| position_key(c))
}

fn same_parent(a: Option<u64>, b: Option<u64>) -> (r: bool)
    ensures
        r == (a == b),
{
    match (a, b) {
        (Some(x), Some(y)) => x == y,
        (None, None) => true,
        _ => false,
    }
}

fn copy_indices(v: &Vec<usize>) -> (r: Vec<usize>)
    ensures
        r@ == v@,
{
    let mut r: Vec<usize> = Vec::new();
    let mut i: usize = 0;
    while i < v.len()
        invariant
            i <= v.len(),
            r@ == v@.take(i as int),
        decreases v.len() - i,
    {
        r.push(v[i]);
        i += 1;
        assert(r@ =~= v@.take(i as int));
    }
    assert(v@.take(v.len() as int) =~= v@);
    r
}

proof fn lemma_category_name(cs: Seq<ChannelFacts>, id: u64, i: int)
    requires
        0 <= i <= cs.len(),
        forall|k: int| 0 <= k < i ==> !(cs[k].kind is Category && cs[k].id == id),
    ensures
        category_name(cs, id) == category_name(cs.subrange(i, cs.len() as int), id),
    decreases i,
{
    if i > 0 {
        let d = cs.drop_first();
        assert forall|k: int| 0 <= k < i - 1 implies !(d[k].kind is Category && d[k].id == id) by {
            assert(d[k] == cs[k + 1]);
        }
        lemma_category_name(d, id, i - 1);
        assert(d.subrange(i - 1, d.len() as int) =~= cs.subrange(i, cs.len() as int));
    } else {
        assert(cs.subrange(0, cs.len() as int) =~= cs);
    }
}

/// The heading of the group under `parent`.
fn find_title(cs: &Vec<ChannelFacts>, parent: Option<u64>) -> (r: Option<String>)
    ensures
        title_view(r) == group_title(cs@, parent),
{
    match parent {
        None => None,
        Some(id) => {
            let mut i: usize = 0;
            while i < cs.len()
                invariant
                    i <= cs@.len(),
                    parent == Some(id),
                    forall|k: int| 0 <= k < i ==> !(cs@[k].kind is Category && cs@[k].id == id),
                decreases cs@.len() - i,
            {
                let is_category = match cs[i].kind {
                    ChannelKind::Category => true,
                    _ => false,
                };
                if is_category && cs[i].id == id {
                    let name = cs[i].name.clone();
                    proof {
                        lemma_category_name(cs@, id, i as int);
                        let rest = cs@.subrange(i as int, cs@.len() as int);
                        assert(rest[0] == cs@[i as int]);
                        assert(cs@[i as int].kind is Category);
                        assert(category_name(rest, id) == Some(cs@[i as int].name@));
                    }
                    return Some(name);
                }
                i += 1;
            }
            proof {
                lemma_category_name(cs@, id, i as int);
                assert(cs@.subrange(i as int, cs@.len() as int) =~= Seq::<ChannelFacts>::empty());
            }
            None
        },
    }
}

/// Groups the channels for the channels page (see [`is_channel_layout`]).
/// Groups whose headings are equal come in the order their first channel
/// (by position) comes.
#[verifier::rlimit(40)]
pub fn channel_layout(cs: &Vec<ChannelFacts>) -> (gs: Vec<ChannelGroup>)
    ensures
        is_channel_layout(cs@, gs@),
{
    let n = cs.len();
    let mut keys: Vec<(i64, Vec<char>)> = Vec::new();
    let mut i: usize = 0;
    while i < n
        invariant
            n == cs@.len(),
            i <= n,
            keys_view(keys@) == position_keys(cs@.take(i as int)),
        decreases n - i,
    {
        let ghost before = keys@;
        keys.push((cs[i].position as i64, Vec::new()));
        proof {
            assert(cs@.take(i + 1) =~= cs@.take(i as int).push(cs@[i as int]));
            assert(keys_view(keys@) =~= keys_view(before).push(position_key(cs@[i as int])));
            assert(position_keys(cs@.take(i + 1)) =~= position_keys(cs@.take(i as int)).push(position_key(cs@[i as int])));
        }
        i += 1;
    }
    assert(cs@.take(n as int) =~= cs@);
    let perm = sort_order(&keys);
    let ghost k = position_keys(cs@);
    let ghost pv = perm@;
    let mut parents: Vec<Option<u64>> = Vec::new();
    let mut lists: Vec<Vec<usize>> = Vec::new();
    let mut t: usize = 0;
    while t < n
        invariant
            n == cs@.len(),
            k == position_keys(cs@),
            pv == perm@,
            is_stable_order(k, pv),
            t <= n,
            parents@.len() == lists@.len(),
            forall|g: int, h: int| #![trigger parents@[g], parents@[h]]
                0 <= g < h < parents@.len() ==> parents@[g] != parents@[h],
            forall|g: int| 0 <= g < lists@.len() ==> (#[trigger] lists@[g])@.len() > 0,
            forall|g: int, a: int| 0 <= g < lists@.len() && 0 <= a < lists@[g]@.len() ==> {
                &&& #[trigger] lists@[g]@[a] < n
                &&& in_group(cs@[lists@[g]@[a] as int], parents@[g])
                &&& pv.take(t as int).contains(lists@[g]@[a])
            },
            forall|s: int| 0 <= s < t && !(#[trigger] cs@[pv[s] as int].kind is Category) ==>
                exists|g: int| 0 <= g < lists@.len() && parents@[g] == cs@[pv[s] as int].parent_id
                    && #[trigger] lists@[g]@.contains(pv[s]),
            forall|g: int, a: int, b: int| #![trigger lists@[g]@[a], lists@[g]@[b]]
                0 <= g < lists@.len() && 0 <= a < b < lists@[g]@.len() ==> {
                    &&& lists@[g]@[a] != lists@[g]@[b]
                    &&& cs@[lists@[g]@[a] as int].position <= cs@[lists@[g]@[b] as int].position
                    &&& (cs@[lists@[g]@[a] as int].position == cs@[lists@[g]@[b] as int].position
                        ==> lists@[g]@[a] < lists@[g]@[b])
                },
        decreases n - t,
    {
        let x = perm[t];
        assert(pv[t as int] < n);
        let is_category = match cs[x].kind {
            ChannelKind::Category => true,
            _ => false,
        };
        let ghost old_lists = lists@;
        let ghost old_parents = parents@;
        proof {
            assert forall|y: usize| pv.take(t as int).contains(y) implies y != x && pv.take(t + 1).contains(y)
                && (cs@[y as int].position <= cs@[x as int].position)
                && (cs@[y as int].position == cs@[x as int].position ==> y < x) by {
                let s = choose|s: int| 0 <= s < t && pv.take(t as int)[s] == y;
                assert(pv[s] == y);
                assert(pv.take(t + 1)[s] == y);
                assert(pv[s] != pv[t as int]);
                assert(!key_lt(k[pv[t as int] as int], k[pv[s] as int]));
                assert(k[y as int] == position_key(cs@[y as int]));
                assert(k[x as int] == position_key(cs@[x as int]));
                if cs@[y as int].position == cs@[x as int].position {
                    assert(k[pv[s] as int] == k[pv[t as int] as int]);
                }
            }
            assert(pv.take(t + 1)[t as int] == x);
        }
        if !is_category {
            let parent = cs[x].parent_id;
            let mut g: usize = 0;
            while g < parents.len() && !same_parent(parents[g], parent)
                invariant
                    g <= parents@.len(),
                    forall|h: int| 0 <= h < g ==> parents@[h] != parent,
                decreases parents@.len() - g,
            {
                g += 1;
            }
            if g < parents.len() {
                let mut l = lists.remove(g);
                l.push(x);
                lists.insert(g, l);
                proof {
                    assert(lists@ =~= old_lists.update(g as int, l));
                    assert(l@ == old_lists[g as int]@.push(x));
                }
            } else {
                parents.push(parent);
                let mut l: Vec<usize> = Vec::new();
                l.push(x);
                lists.push(l);
                proof {
                    assert(lists@ =~= old_lists.push(l));
                }
            }
            proof {
                assert forall|h: int, a: int| 0 <= h < lists@.len() && 0 <= a < lists@[h]@.len() implies {
                    &&& #[trigger] lists@[h]@[a] < n
                    &&& in_group(cs@[lists@[h]@[a] as int], parents@[h])
                    &&& pv.take(t + 1).contains(lists@[h]@[a])
                } by {
                    if h < old_lists.len() && a < old_lists[h]@.len() {
                        assert(lists@[h]@[a] == old_lists[h]@[a]);
                    } else {
                        assert(lists@[h]@[a] == x);
                    }
                }
                assert forall|s: int| 0 <= s < t + 1 && !(#[trigger] cs@[pv[s] as int].kind is Category) implies
                    exists|h: int| 0 <= h < lists@.len() && parents@[h] == cs@[pv[s] as int].parent_id
                        && #[trigger] lists@[h]@.contains(pv[s]) by {
                    if s < t {
                        let h0 = choose|h: int| 0 <= h < old_lists.len() && old_parents[h] == cs@[pv[s] as int].parent_id
                            && #[trigger] old_lists[h]@.contains(pv[s]);
                        let a0 = choose|a: int| 0 <= a < old_lists[h0]@.len() && old_lists[h0]@[a] == pv[s];
                        assert(lists@[h0]@[a0] == pv[s]);
                        assert(lists@[h0]@.contains(pv[s]));
                    } else {
                        let last = lists@[g as int]@.len() - 1;
                        assert(lists@[g as int]@[last] == x);
                        assert(lists@[g as int]@.contains(pv[s]));
                    }
                }
                assert forall|h: int, a: int, b: int| #![trigger lists@[h]@[a], lists@[h]@[b]]
                    0 <= h < lists@.len() && 0 <= a < b < lists@[h]@.len() implies {
                        &&& lists@[h]@[a] != lists@[h]@[b]
                        &&& cs@[lists@[h]@[a] as int].position <= cs@[lists@[h]@[b] as int].position
                        &&& (cs@[lists@[h]@[a] as int].position == cs@[lists@[h]@[b] as int].position
                            ==> lists@[h]@[a] < lists@[h]@[b])
                    } by {
                    if h == g && b == lists@[h]@.len() - 1 {
                        assert(lists@[h]@[b] == x);
                        if h < old_lists.len() {
                            assert(lists@[h]@[a] == old_lists[h]@[a]);
                            assert(pv.take(t as int).contains(old_lists[h]@[a]));
                        }
                    } else {
                        assert(h < old_lists.len() && b < old_lists[h]@.len());
                        assert(lists@[h]@[a] == old_lists[h]@[a]);
                        assert(lists@[h]@[b] == old_lists[h]@[b]);
                    }
                }
            }
        } else {
            proof {
                assert forall|h: int, a: int| 0 <= h < lists@.len() && 0 <= a < lists@[h]@.len() implies
                    pv.take(t + 1).contains(#[trigger] lists@[h]@[a]) by {
                }
                assert forall|s: int| 0 <= s < t + 1 && !(#[trigger] cs@[pv[s] as int].kind is Category) implies
                    exists|h: int| 0 <= h < lists@.len() && parents@[h] == cs@[pv[s] as int].parent_id
                        && #[trigger] lists@[h]@.contains(pv[s]) by {
                    assert(s < t);
                }
            }
        }
        t += 1;
    }
    let ghost groups_parents = parents@;
    let ghost groups_lists = lists@;
    proof {
        assert forall|g: int| 0 <= g < lists@.len() implies lists_group(cs@, parents@[g], #[trigger] lists@[g]@) by {
            let l = lists@[g]@;
            assert forall|x: usize| x < cs@.len() && in_group(cs@[x as int], parents@[g]) implies #[trigger] l.contains(x) by {
                assert(pv.contains(x));
                let s = choose|s: int| 0 <= s < pv.len() && pv[s] == x;
                assert(!(cs@[pv[s] as int].kind is Category));
                let h = choose|h: int| 0 <= h < lists@.len() && parents@[h] == cs@[pv[s] as int].parent_id
                    && #[trigger] lists@[h]@.contains(pv[s]);
                if h != g {
                    if h < g {
                        assert(parents@[h] != parents@[g]);
                    } else {
                        assert(parents@[g] != parents@[h]);
                    }
                }
            }
            assert forall|a: int| 0 <= a < l.len() implies #[trigger] l[a] < cs@.len() && in_group(cs@[l[a] as int], parents@[g]) by {
                assert(lists@[g]@[a] < n);
            }
        }
    }
    let mut titles: Vec<Option<String>> = Vec::new();
    let mut tkeys: Vec<(i64, Vec<char>)> = Vec::new();
    let mut g: usize = 0;
    while g < parents.len()
        invariant
            g <= parents@.len(),
            titles@.len() == g,
            tkeys@.len() == g,
            forall|h: int| 0 <= h < g ==> title_view(#[trigger] titles@[h]) == group_title(cs@, parents@[h]),
            forall|h: int| 0 <= h < g ==> #[trigger] keys_view(tkeys@)[h] == (0i64, title_key(group_title(cs@, parents@[h]))),
        decreases parents@.len() - g,
    {
        let title = find_title(cs, parents[g]);
        let chars: Vec<char> = match &title {
            Some(s) => chars_of(s.as_str()),
            None => Vec::new(),
        };
        let ghost kb = tkeys@;
        tkeys.push((0i64, chars));
        titles.push(title);
        proof {
            assert forall|h: int| 0 <= h < g + 1 implies #[trigger] keys_view(tkeys@)[h] == (0i64, title_key(group_title(cs@, parents@[h]))) by {
                if h < g {
                    assert(keys_view(tkeys@)[h] == keys_view(kb)[h]);
                }
            }
        }
        g += 1;
    }
    let order = sort_order(&tkeys);
    let ghost tk = keys_view(tkeys@);
    let mut gs: Vec<ChannelGroup> = Vec::new();
    let mut j: usize = 0;
    while j < order.len()
        invariant
            n == cs@.len(),
            j <= order@.len(),
            is_stable_order(tk, order@),
            tk == keys_view(tkeys@),
            tkeys@.len() == parents@.len(),
            titles@.len() == parents@.len(),
            lists@.len() == parents@.len(),
            forall|h: int| 0 <= h < parents@.len() ==> title_view(#[trigger] titles@[h]) == group_title(cs@, parents@[h]),
            forall|h: int| 0 <= h < parents@.len() ==> #[trigger] tk[h] == (0i64, title_key(group_title(cs@, parents@[h]))),
            forall|h: int| 0 <= h < lists@.len() ==> lists_group(cs@, parents@[h], #[trigger] lists@[h]@),
            gs@.len() == j,
            forall|a: int| 0 <= a < j ==> {
                &&& (#[trigger] gs@[a]).parent_id == parents@[order@[a] as int]
                &&& title_view(gs@[a].category) == group_title(cs@, parents@[order@[a] as int])
                &&& gs@[a].channels@ == lists@[order@[a] as int]@
            },
        decreases order@.len() - j,
    {
        let h = order[j];
        assert(order@[j as int] < tk.len());
        let category = match &titles[h] {
            Some(s) => Some(s.clone()),
            None => None,
        };
        gs.push(ChannelGroup { parent_id: parents[h], category, channels: copy_indices(&lists[h]) });
        j += 1;
    }
    proof {
        let o = order@;
        assert forall|g: int, h: int| #![trigger gs@[g], gs@[h]] 0 <= g < h < gs@.len() implies
            gs@[g].parent_id != gs@[h].parent_id
            && !text_lt(title_key(title_view(gs@[h].category)), title_key(title_view(gs@[g].category))) by {
            assert(o[g] != o[h]);
            if o[g] < o[h] {
                assert(parents@[o[g] as int] != parents@[o[h] as int]);
            } else {
                assert(parents@[o[h] as int] != parents@[o[g] as int]);
            }
            assert(!key_lt(tk[o[h] as int], tk[o[g] as int]));
        }
        assert forall|x: int| 0 <= x < cs@.len() && !(#[trigger] cs@[x].kind is Category) implies
            exists|g: int| 0 <= g < gs@.len() && #[trigger] gs@[g].parent_id == cs@[x].parent_id by {
            assert(pv.contains(x as usize));
            let s = choose|s: int| 0 <= s < pv.len() && pv[s] == x as usize;
            assert(!(cs@[pv[s] as int].kind is Category));
            let h = choose|h: int| 0 <= h < groups_lists.len() && groups_parents[h] == cs@[pv[s] as int].parent_id
                && #[trigger] groups_lists[h]@.contains(pv[s]);
            assert(o.contains(h as usize));
            let a = choose|a: int| 0 <= a < o.len() && o[a] == h as usize;
            assert(gs@[a].parent_id == cs@[x].parent_id);
        }
    }
    gs
}

/// In a channel layout every channel but the categories is listed in
/// exactly one group, and no category is listed.
pub proof fn law_layout_lists_each_channel_once(cs: Seq<ChannelFacts>, gs: Seq<ChannelGroup>, x: usize)
    requires
        is_channel_layout(cs, gs),
        x < cs.len(),
    ensures
        cs[x as int].kind is Category ==> forall|g: int| 0 <= g < gs.len() ==> !(#[trigger] gs[g].channels@).contains(x),
        !(cs[x as int].kind is Category) ==> exists|g: int| 0 <= g < gs.len() && (#[trigger] gs[g].channels@).contains(x)
            && forall|h: int| 0 <= h < gs.len() && (#[trigger] gs[h].channels@).contains(x) ==> h == g,
{
    if cs[x as int].kind is Category {
        assert forall|g: int| 0 <= g < gs.len() implies !(#[trigger] gs[g].channels@).contains(x) by {
            assert(lists_group(cs, gs[g].parent_id, gs[g].channels@));
            if gs[g].channels@.contains(x) {
                let a = choose|a: int| 0 <= a < gs[g].channels@.len() && gs[g].channels@[a] == x;
                assert(in_group(cs[gs[g].channels@[a] as int], gs[g].parent_id));
            }
        }
    } else {
        let xi = x as int;
        assert(!(cs[xi].kind is Category));
        let g = choose|g: int| 0 <= g < gs.len() && #[trigger] gs[g].parent_id == cs[xi].parent_id;
        assert(lists_group(cs, gs[g].parent_id, gs[g].channels@));
        assert(in_group(cs[xi], gs[g].parent_id));
        assert(gs[g].channels@.contains(x));
        assert forall|h: int| 0 <= h < gs.len() && (#[trigger] gs[h].channels@).contains(x) implies h == g by {
            assert(lists_group(cs, gs[h].parent_id, gs[h].channels@));
            let a = choose|a: int| 0 <= a < gs[h].channels@.len() && gs[h].channels@[a] == x;
            assert(in_group(cs[gs[h].channels@[a] as int], gs[h].parent_id));
            if h < g {
                assert(gs[h].parent_id != gs[g].parent_id);
            } else if h > g {
                assert(gs[g].parent_id != gs[h].parent_id);
            }
        }
    }
}

} // verus!
