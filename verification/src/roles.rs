//! Who a web user is to the bot: the role classification drawn from the
//! configured global admins, guild membership and admin roles, and the
//! short-lived per-user cache of that classification.

use vstd::prelude::*;
use std::collections::HashMap;

verus! {

/// Discord's `ADMINISTRATOR` permission bit.
pub const ADMINISTRATOR_BIT: u64 = 8;

/// A web user's standing, as far as the bot's guilds are concerned.
pub enum AppUserRole {
    /// Not authenticated.
    Anonymous,
    /// Authenticated, but not a member of any guild the bot is in.
    Foreign,
    /// Member of one or more guilds the bot is in.
    Member { guilds: Vec<u64> },
    /// Member of one or more guilds, and admin in at least one.
    GuildAdmin { member: Vec<u64>, admin: Vec<u64> },
    /// Listed as a global admin: implicitly admin everywhere.
    GlobalAdmin,
}

/// The mathematical content of an [`AppUserRole`].
pub enum RoleView {
    Anonymous,
    Foreign,
    Member { guilds: Seq<u64> },
    GuildAdmin { member: Seq<u64>, admin: Seq<u64> },
    GlobalAdmin,
}

impl View for AppUserRole {
    type V = RoleView;

    open spec fn view(&self) -> RoleView {
        match self {
            AppUserRole::Anonymous => RoleView::Anonymous,
            AppUserRole::Foreign => RoleView::Foreign,
            AppUserRole::Member { guilds } => RoleView::Member { guilds: guilds@ },
            AppUserRole::GuildAdmin { member, admin } => RoleView::GuildAdmin { member: member@, admin: admin@ },
            AppUserRole::GlobalAdmin => RoleView::GlobalAdmin,
        }
    }
}

/// The guilds the role lists as mutual (empty for global admins too).
pub open spec fn mutual_spec(r: RoleView) -> Seq<u64> {
    match r {
        RoleView::Member { guilds } => guilds,
        RoleView::GuildAdmin { member, .. } => member,
        _ => Seq::empty(),
    }
}

/// Whether the role administers guild `g`.
pub open spec fn admin_of_spec(r: RoleView, g: u64) -> bool {
    match r {
        RoleView::GlobalAdmin => true,
        RoleView::GuildAdmin { admin, .. } => admin.contains(g),
        _ => false,
    }
}

/// Whether the role may see guild `g`.
pub open spec fn member_of_spec(r: RoleView, g: u64) -> bool {
    r is GlobalAdmin || mutual_spec(r).contains(g)
}

fn slice_contains(v: &[u64], x: u64) -> (b: bool)
    ensures
        b == v@.contains(x),
{
    let mut i: usize = 0;
    while i < v.len()
        invariant
            i <= v.len(),
            forall|k: int| 0 <= k < i ==> v@[k] != x,
        decreases v.len() - i,
    {
        if v[i] == x {
            assert(v@[i as int] == x);
            return true;
        }
        i += 1;
    }
    false
}

/// Whether `x` is listed in `v`.
pub fn list_contains(v: &Vec<u64>, x: u64) -> (b: bool)
    ensures
        b == v@.contains(x),
{
    slice_contains(v.as_slice(), x)
}

fn copy_ids(v: &Vec<u64>) -> (r: Vec<u64>)
    ensures
        r@ == v@,
{
    let mut r: Vec<u64> = Vec::new();
    let mut i: usize = 0;
    while i < v.len()
        invariant
            i <= v.len(),
            r@ == v@.take(i as int),
        decreases v.len() - i,
    {
        r.push(v[i]);
        i += 1;
        assert(r@ =~= v@.take(i as int));
    }
    assert(v@.take(v.len() as int) =~= v@);
    r
}

impl AppUserRole {
    /// The role of a visitor without a session.
    pub fn anonymous() -> (r: AppUserRole)
        ensures
            r@ == RoleView::Anonymous,
    {
        AppUserRole::Anonymous
    }

    /// Whether the user is signed in.
    pub fn is_authenticated(&self) -> (b: bool)
        ensures
            b == !(self@ is Anonymous),
    {
        match self {
            AppUserRole::Anonymous => false,
            _ => true,
        }
    }

    /// Whether the user administers guild `guild_id`.
    pub fn is_admin_of(&self, guild_id: u64) -> (b: bool)
        ensures
            b == admin_of_spec(self@, guild_id),
    {
        match self {
            AppUserRole::GlobalAdmin => true,
            AppUserRole::GuildAdmin { admin, .. } => list_contains(admin, guild_id),
            _ => false,
        }
    }

    /// Whether the user may see guild `guild_id`.
    pub fn is_member_of(&self, guild_id: u64) -> (b: bool)
        ensures
            b == member_of_spec(self@, guild_id),
    {
        match self {
            AppUserRole::GlobalAdmin => true,
            _ => slice_contains(self.mutual_guilds(), guild_id),
        }
    }

    /// The guilds shared with the bot, as classified. Global admins get an
    /// empty list: callers needing "every bot guild" must check for them.
    pub fn mutual_guilds(&self) -> (g: &[u64])
        ensures
            g@ == mutual_spec(self@),
    {
        match self {
            AppUserRole::Member { guilds } => guilds.as_slice(),
            AppUserRole::GuildAdmin { member, .. } => member.as_slice(),
            _ => &[],
        }
    }

    /// A copy of this role.
    pub fn duplicate(&self) -> (r: AppUserRole)
        ensures
            r@ == self@,
    {
        match self {
            AppUserRole::Anonymous => AppUserRole::Anonymous,
            AppUserRole::Foreign => AppUserRole::Foreign,
            AppUserRole::Member { guilds } => AppUserRole::Member { guilds: copy_ids(guilds) },
            AppUserRole::GuildAdmin { member, admin } => AppUserRole::GuildAdmin {
                member: copy_ids(member),
                admin: copy_ids(admin),
            },
            AppUserRole::GlobalAdmin => AppUserRole::GlobalAdmin,
        }
    }
}


/// What the bot's cache knows of a guild: its owner and each role's
/// permission bits.
pub struct GuildFacts {
    pub owner_id: u64,
    pub role_permissions: Vec<(u64, u64)>,
}

/// Role `r` carries the `ADMINISTRATOR` permission in the guild.
pub open spec fn role_grants_admin(perms: Seq<(u64, u64)>, r: u64) -> bool {
    exists|j: int| 0 <= j < perms.len() && perms[j].0 == r && perms[j].1 & ADMINISTRATOR_BIT == ADMINISTRATOR_BIT
}

/// A member administers a guild when one of their roles is an admin role,
/// when they own the guild, or when one of their roles has the
/// `ADMINISTRATOR` permission (the last two need the guild in cache).
pub open spec fn member_is_admin_spec(guild: Option<GuildFacts>, user_id: u64, member_roles: Seq<u64>, admin_roles: Seq<u64>) -> bool {
    (exists|i: int| 0 <= i < member_roles.len() && admin_roles.contains(#[trigger] member_roles[i]))
    || match guild {
        None => false,
        Some(g) => g.owner_id == user_id
            || exists|i: int| 0 <= i < member_roles.len() && role_grants_admin(g.role_permissions@, #[trigger] member_roles[i]),
    }
}

fn role_has_admin_bit(perms: &Vec<(u64, u64)>, r: u64) -> (b: bool)
    ensures
        b == role_grants_admin(perms@, r),
{
    let mut j: usize = 0;
    while j < perms.len()
        invariant
            j <= perms.len(),
            forall|k: int| 0 <= k < j ==> !(perms@[k].0 == r && perms@[k].1 & ADMINISTRATOR_BIT == ADMINISTRATOR_BIT),
        decreases perms.len() - j,
    {
        let (id, bits) = perms[j];
        if id == r && bits & ADMINISTRATOR_BIT == ADMINISTRATOR_BIT {
            return true;
        }
        j += 1;
    }
    false
}

/// Whether a guild member counts as an admin of that guild (see
/// [`member_is_admin_spec`]).
pub fn member_is_admin(guild: &Option<GuildFacts>, user_id: u64, member_roles: &Vec<u64>, admin_roles: &Vec<u64>) -> (b: bool)
    ensures
        b == member_is_admin_spec(*guild, user_id, member_roles@, admin_roles@),
{
    let mut i: usize = 0;
    while i < member_roles.len()
        invariant
            i <= member_roles.len(),
            forall|k: int| 0 <= k < i ==> !admin_roles@.contains(#[trigger] member_roles@[k]),
        decreases member_roles.len() - i,
    {
        if list_contains(admin_roles, member_roles[i]) {
            return true;
        }
        i += 1;
    }
    match guild {
        None => false,
        Some(g) => {
            if g.owner_id == user_id {
                return true;
            }
            let mut i: usize = 0;
            while i < member_roles.len()
                invariant
                    i <= member_roles.len(),
                    *guild == Some(*g),
                    g.owner_id != user_id,
                    forall|k: int| 0 <= k < member_roles@.len() ==> !admin_roles@.contains(#[trigger] member_roles@[k]),
                    forall|k: int| 0 <= k < i ==> !role_grants_admin(g.role_permissions@, #[trigger] member_roles@[k]),
                decreases member_roles.len() - i,
            {
                if role_has_admin_bit(&g.role_permissions, member_roles[i]) {
                    assert(role_grants_admin(g.role_permissions@, member_roles@[i as int]));
                    return true;
                }
                i += 1;
            }
            false
        },
    }
}

/// Who administers a guild, in terms of the member's roles alone: holding
/// any configured admin role makes a member an admin whether or not the
/// guild is cached; in a cached guild so does owning it or holding a role
/// whose permission bits include `ADMINISTRATOR` (bit value 8); nothing
/// else does.
pub proof fn law_member_admin_rules(guild: Option<GuildFacts>, user_id: u64, member_roles: Seq<u64>, admin_roles: Seq<u64>)
    ensures
        (exists|i: int, k: int| 0 <= i < member_roles.len() && 0 <= k < admin_roles.len() && member_roles[i] == admin_roles[k])
            ==> member_is_admin_spec(guild, user_id, member_roles, admin_roles),
        guild matches Some(g) && g.owner_id == user_id ==> member_is_admin_spec(guild, user_id, member_roles, admin_roles),
        guild matches Some(g) && (exists|i: int, j: int| 0 <= i < member_roles.len() && 0 <= j < g.role_permissions@.len()
            && g.role_permissions@[j].0 == member_roles[i] && g.role_permissions@[j].1 & 8u64 == 8u64)
            ==> member_is_admin_spec(guild, user_id, member_roles, admin_roles),
        member_is_admin_spec(guild, user_id, member_roles, admin_roles) ==> {
            ||| exists|i: int, k: int| 0 <= i < member_roles.len() && 0 <= k < admin_roles.len() && member_roles[i] == admin_roles[k]
            ||| guild matches Some(g) && g.owner_id == user_id
            ||| guild matches Some(g) && exists|i: int, j: int| 0 <= i < member_roles.len() && 0 <= j < g.role_permissions@.len()
                    && g.role_permissions@[j].0 == member_roles[i] && g.role_permissions@[j].1 & 8u64 == 8u64
        },
{
    if exists|i: int, k: int| 0 <= i < member_roles.len() && 0 <= k < admin_roles.len() && member_roles[i] == admin_roles[k] {
        let (i, k) = choose|i: int, k: int| 0 <= i < member_roles.len() && 0 <= k < admin_roles.len() && member_roles[i] == admin_roles[k];
        assert(admin_roles.contains(member_roles[i]));
    }
    if let Some(g) = guild {
        if exists|i: int, j: int| 0 <= i < member_roles.len() && 0 <= j < g.role_permissions@.len()
            && g.role_permissions@[j].0 == member_roles[i] && g.role_permissions@[j].1 & 8u64 == 8u64 {
            let (i, j) = choose|i: int, j: int| 0 <= i < member_roles.len() && 0 <= j < g.role_permissions@.len()
                && g.role_permissions@[j].0 == member_roles[i] && g.role_permissions@[j].1 & 8u64 == 8u64;
            assert(role_grants_admin(g.role_permissions@, member_roles[i]));
        }
    }
    if member_is_admin_spec(guild, user_id, member_roles, admin_roles) {
        if exists|i: int| 0 <= i < member_roles.len() && admin_roles.contains(#[trigger] member_roles[i]) {
            let i = choose|i: int| 0 <= i < member_roles.len() && admin_roles.contains(#[trigger] member_roles[i]);
            let k = choose|k: int| 0 <= k < admin_roles.len() && admin_roles[k] == member_roles[i];
            assert(member_roles[i] == admin_roles[k]);
        } else if let Some(g) = guild {
            if g.owner_id != user_id {
                let i = choose|i: int| 0 <= i < member_roles.len() && role_grants_admin(g.role_permissions@, #[trigger] member_roles[i]);
                let j = choose|j: int| 0 <= j < g.role_permissions@.len() && g.role_permissions@[j].0 == member_roles[i]
                    && g.role_permissions@[j].1 & ADMINISTRATOR_BIT == ADMINISTRATOR_BIT;
                assert(g.role_permissions@[j].0 == member_roles[i]);
            }
        }
    }
}

/// What was learned about one of the bot's guilds for a user.
pub struct GuildCheck {
    pub guild_id: u64,
    /// The user's roles there; `None` when the user is not a member or the
    /// member lookup failed.
    pub member_roles: Option<Vec<u64>>,
    /// Admin roles persisted for this guild.
    pub guild_admin_roles: Vec<u64>,
    /// The guild as cached, if it is.
    pub guild: Option<GuildFacts>,
}

/// The guilds the user is a member of, in check order.
pub open spec fn member_ids(cs: Seq<GuildCheck>) -> Seq<u64>
    decreases cs.len(),
{
    if cs.len() == 0 {
        Seq::empty()
    } else {
        let rest = member_ids(cs.drop_last());
        if cs.last().member_roles is Some { rest.push(cs.last().guild_id) } else { rest }
    }
}

/// The check says the user administers its guild, given the global admin roles.
pub open spec fn check_is_admin(c: GuildCheck, user_id: u64, admin_roles: Seq<u64>) -> bool {
    match c.member_roles {
        Some(roles) => member_is_admin_spec(c.guild, user_id, roles@, admin_roles + c.guild_admin_roles@),
        None => false,
    }
}

/// The guilds the user administers, in check order.
pub open spec fn admin_ids(cs: Seq<GuildCheck>, user_id: u64, admin_roles: Seq<u64>) -> Seq<u64>
    decreases cs.len(),
{
    if cs.len() == 0 {
        Seq::empty()
    } else {
        let rest = admin_ids(cs.drop_last(), user_id, admin_roles);
        if check_is_admin(cs.last(), user_id, admin_roles) { rest.push(cs.last().guild_id) } else { rest }
    }
}

/// The role a signed-in user is classified as.
pub open spec fn classify_spec(user_id: u64, admin_uids: Seq<u64>, admin_roles: Seq<u64>, cs: Seq<GuildCheck>) -> RoleView {
    if admin_uids.contains(user_id) {
        RoleView::GlobalAdmin
    } else if admin_ids(cs, user_id, admin_roles).len() > 0 {
        RoleView::GuildAdmin { member: member_ids(cs), admin: admin_ids(cs, user_id, admin_roles) }
    } else if member_ids(cs).len() > 0 {
        RoleView::Member { guilds: member_ids(cs) }
    } else {
        RoleView::Foreign
    }
}

fn concat_ids(a: &Vec<u64>, b: &Vec<u64>) -> (r: Vec<u64>)
    ensures
        r@ == a@ + b@,
{
    let mut r = copy_ids(a);
    let mut i: usize = 0;
    while i < b.len()
        invariant
            i <= b.len(),
            r@ == a@ + b@.take(i as int),
        decreases b.len() - i,
    {
        r.push(b[i]);
        i += 1;
        assert(r@ =~= a@ + b@.take(i as int));
    }
    assert(b@.take(b.len() as int) =~= b@);
    r
}

/// Classifies a signed-in user from the global admin list, the global
/// admin roles and what was learned about each of the bot's guilds.
pub fn classify_user(user_id: u64, admin_uids: &Vec<u64>, admin_roles: &Vec<u64>, checks: &Vec<GuildCheck>) -> (r: AppUserRole)
    ensures
        r@ == classify_spec(user_id, admin_uids@, admin_roles@, checks@),
{
    if list_contains(admin_uids, user_id) {
        return AppUserRole::GlobalAdmin;
    }
    let mut member_of: Vec<u64> = Vec::new();
    let mut admin_of: Vec<u64> = Vec::new();
    let mut i: usize = 0;
    while i < checks.len()
        invariant
            i <= checks.len(),
            member_of@ == member_ids(checks@.take(i as int)),
            admin_of@ == admin_ids(checks@.take(i as int), user_id, admin_roles@),
        decreases checks.len() - i,
    {
        let c = &checks[i];
        proof {
            assert(checks@.take(i + 1).drop_last() =~= checks@.take(i as int));
            assert(checks@.take(i + 1).last() == checks@[i as int]);
        }
        match &c.member_roles {
            Some(roles) => {
                member_of.push(c.guild_id);
                let combined = concat_ids(admin_roles, &c.guild_admin_roles);
                if member_is_admin(&c.guild, user_id, roles, &combined) {
                    admin_of.push(c.guild_id);
                }
            },
            None => {},
        }
        i += 1;
    }
    assert(checks@.take(checks@.len() as int) =~= checks@);
    if admin_of.len() > 0 {
        AppUserRole::GuildAdmin { member: member_of, admin: admin_of }
    } else if member_of.len() > 0 {
        AppUserRole::Member { guilds: member_of }
    } else {
        AppUserRole::Foreign
    }
}

proof fn lemma_admin_ids_subset(cs: Seq<GuildCheck>, user_id: u64, admin_roles: Seq<u64>, g: u64)
    requires
        admin_ids(cs, user_id, admin_roles).contains(g),
    ensures
        member_ids(cs).contains(g),
    decreases cs.len(),
{
    if cs.len() > 0 {
        let rest = admin_ids(cs.drop_last(), user_id, admin_roles);
        if rest.contains(g) {
            lemma_admin_ids_subset(cs.drop_last(), user_id, admin_roles, g);
            let k = choose|k: int| 0 <= k < member_ids(cs.drop_last()).len() && member_ids(cs.drop_last())[k] == g;
            if cs.last().member_roles is Some {
                assert(member_ids(cs)[k] == g);
            }
        } else {
            assert(g == cs.last().guild_id);
            assert(member_ids(cs).last() == g);
        }
    }
}

/// Whoever the classification makes admin of a guild it also makes a
/// member of that guild.
pub proof fn law_classified_admins_are_members(user_id: u64, admin_uids: Seq<u64>, admin_roles: Seq<u64>, cs: Seq<GuildCheck>, g: u64)
    requires
        admin_of_spec(classify_spec(user_id, admin_uids, admin_roles, cs), g),
    ensures
        member_of_spec(classify_spec(user_id, admin_uids, admin_roles, cs), g),
{
    if !admin_uids.contains(user_id) {
        lemma_admin_ids_subset(cs, user_id, admin_roles, g);
    }
}

/// For any role, administering a guild implies being allowed to see it,
/// and global admins pass every check.
pub proof fn law_global_admin_passes_every_check(r: RoleView, g: u64)
    requires
        r is GlobalAdmin,
    ensures
        admin_of_spec(r, g),
        member_of_spec(r, g),
        !(r is Anonymous),
        mutual_spec(r).len() == 0,
{
}

/// How long a computed role is reused, in nanoseconds (one minute): a role change takes
/// up to this long to show in that user's web view.
pub const ROLE_CACHE_TTL_NS: u64 = 60_000_000_000;

#[verifier::external_type_specification]
#[verifier::external_body]
pub struct ExInstant(std::time::Instant);

/// `std::time::Instant::now()`: a reading of the monotonic clock. Nothing
/// is promised about it.
#[verifier::external_body]
fn clock_now() -> std::time::Instant {
    std::time::Instant::now()
}

/// `origin.elapsed().as_nanos()`: nanoseconds from `origin` to now on the
/// monotonic clock. Nothing is promised about the value.
#[verifier::external_body]
fn nanos_since(origin: &std::time::Instant) -> u64 {
    origin.elapsed().as_nanos() as u64
}

/// Per-user memo of computed roles, keyed by the local user id, each entry
/// valid for the cache's time-to-live. The clock-reading methods measure
/// time in nanoseconds on the monotonic clock since the cache was made.
pub struct RoleCache {
    entries: HashMap<u128, (AppUserRole, u64)>,
    ttl_ns: u64,
    origin: std::time::Instant,
    latest_ns: u64,
}

/// Time from `cached_at` to `now`; a clock that went backwards counts as none.
pub open spec fn elapsed(cached_at: u64, now: u64) -> int {
    if now >= cached_at { now - cached_at } else { 0 }
}

/// An entry cached at `cached_at` is still valid at `now`.
pub open spec fn is_fresh(cached_at: u64, now: u64, ttl: u64) -> bool {
    elapsed(cached_at, now) < ttl
}

/// The role a lookup at `now` finds in the cache contents `m`: the cached
/// role of `user_id` while its entry is still valid, else none.
pub open spec fn lookup_at(m: Map<u128, (RoleView, u64)>, user_id: u128, now: u64, ttl: u64) -> Option<RoleView> {
    if m.dom().contains(user_id) && is_fresh(m[user_id].1, now, ttl) {
        Some(m[user_id].0)
    } else {
        None
    }
}

/// The view of the role held, if any.
pub open spec fn role_views(o: Option<AppUserRole>) -> Option<RoleView> {
    match o {
        Some(r) => Some(r@),
        None => None,
    }
}

/// The entries of `m` still valid at `now`.
pub open spec fn fresh_part(m: Map<u128, (RoleView, u64)>, now: u64, ttl: u64) -> Map<u128, (RoleView, u64)> {
    Map::new(|k: u128| m.dom().contains(k) && is_fresh(m[k].1, now, ttl), |k: u128| m[k])
}

/// The cache contents `m` seen through the roles' views.
spec fn role_map(m: Map<u128, (AppUserRole, u64)>) -> Map<u128, (RoleView, u64)> {
    Map::new(|k: u128| m.dom().contains(k), |k: u128| (m[k].0@, m[k].1))
}

impl RoleCache {
    #[verifier::type_invariant]
    spec fn no_entry_after_latest(&self) -> bool {
        forall|k: u128| #[trigger] self.entries@.contains_key(k) ==> self.entries@[k].1 <= self.latest_ns
    }

    /// The latest time the cache has been brought to: no entry was cached
    /// later, and the clock-reading methods never answer as of an earlier time.
    pub closed spec fn latest(&self) -> u64 {
        self.latest_ns
    }

    /// The cached roles: user id to (role, time cached).
    pub closed spec fn view(&self) -> Map<u128, (RoleView, u64)> {
        role_map(self.entries@)
    }

    /// The time-to-live of the entries, in nanoseconds.
    pub closed spec fn ttl(&self) -> u64 {
        self.ttl_ns
    }

    /// An empty cache whose entries live `ttl_ns` nanoseconds.
    pub fn with_ttl(ttl_ns: u64) -> (c: RoleCache)
        ensures
            c.view() == Map::<u128, (RoleView, u64)>::empty(),
            c.ttl() == ttl_ns,
    {
        let c = RoleCache { entries: HashMap::new(), ttl_ns, origin: clock_now(), latest_ns: 0 };
        assert(c.view() =~= Map::<u128, (RoleView, u64)>::empty());
        c
    }

    /// An empty cache with the default time-to-live.
    pub fn new() -> (c: RoleCache)
        ensures
            c.view() == Map::<u128, (RoleView, u64)>::empty(),
            c.ttl() == ROLE_CACHE_TTL_NS,
    {
        Self::with_ttl(ROLE_CACHE_TTL_NS)
    }

    /// The role cached for `user_id` if it is still valid at `now_ns`.
    pub fn get_at(&self, user_id: u128, now_ns: u64) -> (r: Option<AppUserRole>)
        ensures
            match r {
                Some(role) => self.view().dom().contains(user_id)
                    && is_fresh(self.view()[user_id].1, now_ns, self.ttl())
                    && role@ == self.view()[user_id].0,
                None => !self.view().dom().contains(user_id)
                    || !is_fresh(self.view()[user_id].1, now_ns, self.ttl()),
            },
    {
        match self.entries.get(&user_id) {
            Some(entry) => {
                let at = entry.1;
                let fresh = if now_ns >= at { now_ns - at < self.ttl_ns } else { 0 < self.ttl_ns };
                if fresh {
                    Some(entry.0.duplicate())
                } else {
                    None
                }
            },
            None => None,
        }
    }

    /// Caches `role` for `user_id` as of `now_ns`, replacing any earlier entry.
    pub fn put_at(&mut self, user_id: u128, role: AppUserRole, now_ns: u64)
        ensures
            final(self).view() == old(self).view().insert(user_id, (role@, now_ns)),
            final(self).ttl() == old(self).ttl(),
            final(self).latest() == if now_ns > old(self).latest() { now_ns } else { old(self).latest() },
    {
        proof { use_type_invariant(&*self); }
        let ghost role_view = role@;
        let ghost before = self.entries@;
        let latest = if now_ns > self.latest_ns { now_ns } else { self.latest_ns };
        let mut entries: HashMap<u128, (AppUserRole, u64)> = HashMap::new();
        std::mem::swap(&mut entries, &mut self.entries);
        let _ = entries.insert(user_id, (role, now_ns));
        assert(role_map(entries@) =~= role_map(before).insert(user_id, (role_view, now_ns)));
        self.latest_ns = latest;
        self.entries = entries;
    }

    /// The clock's current reading, never earlier than [`Self::latest`].
    fn now_ns(&self) -> (t: u64)
        ensures
            t >= self.latest(),
    {
        let reading = nanos_since(&self.origin);
        if reading > self.latest_ns { reading } else { self.latest_ns }
    }

    /// Caches `role` for `user_id` as of now.
    pub fn put(&mut self, user_id: u128, role: AppUserRole)
        ensures
            final(self).view() == old(self).view().insert(user_id, (role@, final(self).latest())),
            final(self).latest() >= old(self).latest(),
            final(self).ttl() == old(self).ttl(),
    {
        let now = self.now_ns();
        self.put_at(user_id, role, now);
    }

    /// The role cached for `user_id` if it is still valid now: what
    /// [`Self::get_at`] returns at the clock's current reading.
    pub fn get(&self, user_id: u128) -> (r: Option<AppUserRole>)
        ensures
            exists|t: u64| t >= self.latest() && #[trigger] lookup_at(self.view(), user_id, t, self.ttl()) == role_views(r),
            r matches Some(role) ==> self.view().dom().contains(user_id) && role@ == self.view()[user_id].0,
            !self.view().dom().contains(user_id) ==> r is None,
            self.view().dom().contains(user_id) && self.latest() >= self.view()[user_id].1 + self.ttl() ==> r is None,
    {
        let now = self.now_ns();
        let r = self.get_at(user_id, now);
        assert(lookup_at(self.view(), user_id, now, self.ttl()) == role_views(r));
        r
    }

    /// Forgets the role cached for `user_id` (on logout).
    pub fn invalidate(&mut self, user_id: u128)
        ensures
            final(self).view() == old(self).view().remove(user_id),
            final(self).ttl() == old(self).ttl(),
            final(self).latest() == old(self).latest(),
    {
        proof { use_type_invariant(&*self); }
        let ghost before = self.entries@;
        let mut entries: HashMap<u128, (AppUserRole, u64)> = HashMap::new();
        std::mem::swap(&mut entries, &mut self.entries);
        let _ = entries.remove(&user_id);
        assert(role_map(entries@) =~= role_map(before).remove(user_id));
        self.entries = entries;
    }

    /// Drops the entries no longer valid at `now_ns` and returns how many
    /// were dropped.
    pub fn sweep_at(&mut self, now_ns: u64) -> (dropped: usize)
        ensures
            final(self).view() == fresh_part(old(self).view(), now_ns, old(self).ttl()),
            dropped == old(self).view().len() - final(self).view().len(),
            final(self).ttl() == old(self).ttl(),
            final(self).latest() == old(self).latest(),
    {
        proof { use_type_invariant(&*self); }
        let ttl = self.ttl_ns;
        let mut entries: HashMap<u128, (AppUserRole, u64)> = HashMap::new();
        std::mem::swap(&mut entries, &mut self.entries);
        let ghost m0 = entries@;
        let before = entries.len();
        let mut stale: Vec<u128> = Vec::new();
        let ghost mut seen: int = 0;
        let ghost ks: Seq<&u128> = vstd::std_specs::iter::IteratorSpec::remaining(&vstd::std_specs::hash::spec_keys_iter(&entries));
        for k in it: entries.keys()
            invariant
                entries@ == m0,
                seen == it.index(),
                ks == it.seq(),
                forall|x: u128| #[trigger] stale@.contains(x) ==> m0.contains_key(x) && !is_fresh(m0[x].1, now_ns, ttl),
                forall|j: int| 0 <= j < seen && !is_fresh(m0[*ks[j]].1, now_ns, ttl)
                    ==> stale@.contains(*#[trigger] ks[j]),
        {
            assert(m0.contains_key(*k));
            let at = match entries.get(k) {
                Some(v) => v.1,
                None => 0,
            };
            let fresh = if now_ns >= at { now_ns - at < ttl } else { 0 < ttl };
            let ghost stale_before = stale@;
            if !fresh {
                stale.push(*k);
                assert(stale@[stale@.len() - 1] == *k);
            }
            assert forall|x: u128| stale_before.contains(x) implies #[trigger] stale@.contains(x) by {
                let j = choose|j: int| 0 <= j < stale_before.len() && stale_before[j] == x;
                assert(stale@[j] == x);
            }
            assert forall|x: u128| #[trigger] stale@.contains(x) && !stale_before.contains(x) implies x == *k by {
                let j = choose|j: int| 0 <= j < stale@.len() && stale@[j] == x;
                if j < stale_before.len() {
                    assert(stale_before[j] == x);
                }
            }
            proof { seen = seen + 1; }
        }
        assert(seen == ks.len());
        assert forall|x: u128| m0.contains_key(x) && !is_fresh(m0[x].1, now_ns, ttl) implies #[trigger] stale@.contains(x) by {
            assert(ks.unref().to_set().contains(x));
            assert(ks.unref().contains(x));
            let j = choose|j: int| 0 <= j < ks.unref().len() && ks.unref()[j] == x;
            assert(*ks[j] == x);
        }
        let mut i: usize = 0;
        while i < stale.len()
            invariant
                i <= stale@.len(),
                forall|x: u128| #[trigger] stale@.contains(x) <==> m0.contains_key(x) && !is_fresh(m0[x].1, now_ns, ttl),
                forall|x: u128| #[trigger] entries@.contains_key(x)
                    <==> m0.contains_key(x) && !(exists|j: int| 0 <= j < i && stale@[j] == x),
                forall|x: u128| #[trigger] entries@.contains_key(x) ==> entries@[x] == m0[x],
            decreases stale@.len() - i,
        {
            let k = stale[i];
            let _ = entries.remove(&k);
            i += 1;
        }
        assert(role_map(entries@) =~= fresh_part(role_map(m0), now_ns, ttl)) by {
            assert forall|x: u128| #[trigger] entries@.contains_key(x) <==> m0.contains_key(x) && is_fresh(m0[x].1, now_ns, ttl) by {
                if stale@.contains(x) {
                    let j = choose|j: int| 0 <= j < stale@.len() && stale@[j] == x;
                }
            }
        }
        let after = entries.len();
        proof {
            assert(role_map(entries@).dom() =~= entries@.dom());
            assert(role_map(m0).dom() =~= m0.dom());
            vstd::set_lib::lemma_len_subset(entries@.dom(), m0.dom());
        }
        self.entries = entries;
        before - after
    }

    /// Drops the entries no longer valid now and returns how many were
    /// dropped. Meant for a periodic background sweep.
    pub fn sweep(&mut self) -> (dropped: usize)
        ensures
            exists|t: u64| t >= old(self).latest() && final(self).view() == fresh_part(old(self).view(), t, old(self).ttl()),
            dropped == old(self).view().len() - final(self).view().len(),
            final(self).ttl() == old(self).ttl(),
            final(self).latest() >= old(self).latest(),
    {
        let now = self.now_ns();
        self.sweep_at(now)
    }
}

impl Default for RoleCache {
    /// An empty cache with the default time-to-live.
    fn default() -> (c: RoleCache)
        ensures
            c.view() == Map::<u128, (RoleView, u64)>::empty(),
            c.ttl() == ROLE_CACHE_TTL_NS,
    {
        RoleCache::new()
    }
}

/// A role just cached is returned by a lookup at the same moment (given a
/// positive time-to-live), and a lookup after invalidation finds nothing.
pub proof fn law_cache_read_after_write(m: Map<u128, (RoleView, u64)>, user_id: u128, role: RoleView, now: u64, ttl: u64)
    requires
        ttl > 0,
    ensures
        m.insert(user_id, (role, now)).dom().contains(user_id),
        is_fresh(m.insert(user_id, (role, now))[user_id].1, now, ttl),
        m.insert(user_id, (role, now))[user_id].0 == role,
        !m.insert(user_id, (role, now)).remove(user_id).dom().contains(user_id),
{
}

/// Once the time-to-live has passed since an entry was cached, lookups no
/// longer return it (and a sweep drops it).
pub proof fn law_cache_entry_expires(cached_at: u64, now: u64, ttl: u64)
    requires
        now >= cached_at + ttl,
    ensures
        !is_fresh(cached_at, now, ttl),
{
}

/// Once the time-to-live has passed between the time an entry was put and
/// the cache's latest time, no lookup the cache answers (at that latest time
/// or after, as `get` does) returns it; before that, a lookup at the latest
/// time still does.
pub proof fn law_get_answers_no_earlier_than_put(m: Map<u128, (RoleView, u64)>, user_id: u128, latest: u64, t: u64, ttl: u64)
    requires
        m.dom().contains(user_id),
        m[user_id].1 <= latest,
        t >= latest,
    ensures
        latest >= m[user_id].1 + ttl ==> lookup_at(m, user_id, t, ttl) is None,
        latest < m[user_id].1 + ttl ==> lookup_at(m, user_id, latest, ttl) == Some(m[user_id].0),
{
}

/// A sweep keeps exactly the entries a lookup at the same moment would
/// still return.
pub proof fn law_sweep_keeps_what_get_returns(m: Map<u128, (RoleView, u64)>, user_id: u128, now: u64, ttl: u64)
    ensures
        fresh_part(m, now, ttl).dom().contains(user_id)
            <==> (m.dom().contains(user_id) && is_fresh(m[user_id].1, now, ttl)),
        fresh_part(m, now, ttl).dom().contains(user_id) ==> fresh_part(m, now, ttl)[user_id] == m[user_id],
{
}
} // verus!
