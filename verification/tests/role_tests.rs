use botinski::roles::{classify_user, member_is_admin, AppUserRole, GuildCheck, GuildFacts, RoleCache};

fn fresh_id() -> u128 {
    uuid::Uuid::new_v4().as_u128()
}

#[test]
fn anonymous_classifier_methods() {
    let role = AppUserRole::Anonymous;
    assert!(!role.is_authenticated());
    assert!(!role.is_member_of(1));
    assert!(!role.is_admin_of(1));
    assert!(role.mutual_guilds().is_empty());
}

#[test]
fn foreign_is_authenticated_but_not_a_member() {
    let role = AppUserRole::Foreign;
    assert!(role.is_authenticated());
    assert!(!role.is_member_of(1));
    assert!(!role.is_admin_of(1));
    assert!(role.mutual_guilds().is_empty());
}

#[test]
fn member_classifies_by_guild_list() {
    let role = AppUserRole::Member { guilds: vec![1, 2] };
    assert!(role.is_authenticated());
    assert!(role.is_member_of(1));
    assert!(role.is_member_of(2));
    assert!(!role.is_member_of(3));
    // member is not admin
    assert!(!role.is_admin_of(1));
    assert_eq!(role.mutual_guilds(), &[1u64, 2]);
}

#[test]
fn guild_admin_member_and_admin_lists_are_independent() {
    let role = AppUserRole::GuildAdmin { member: vec![1, 2], admin: vec![1] };
    assert!(role.is_member_of(1));
    assert!(role.is_member_of(2));
    assert!(role.is_admin_of(1));
    assert!(!role.is_admin_of(2));
    assert!(!role.is_admin_of(3));
    assert_eq!(role.mutual_guilds(), &[1u64, 2]);
}

#[test]
fn global_admin_passes_every_check() {
    let role = AppUserRole::GlobalAdmin;
    assert!(role.is_authenticated());
    assert!(role.is_member_of(42));
    assert!(role.is_admin_of(42));
    // mutual_guilds is empty even for GlobalAdmin
    assert!(role.mutual_guilds().is_empty());
}

#[test]
fn role_cache_returns_none_on_empty() {
    let cache = RoleCache::default();
    assert!(cache.get(fresh_id()).is_none());
}

#[test]
fn role_cache_round_trip_within_ttl() {
    let mut cache = RoleCache::with_ttl(60_000_000_000);
    let id = fresh_id();
    cache.put(id, AppUserRole::Foreign);
    assert!(matches!(cache.get(id), Some(AppUserRole::Foreign)));
}

#[test]
fn role_cache_invalidate_removes_entry() {
    let mut cache = RoleCache::default();
    let id = fresh_id();
    cache.put(id, AppUserRole::Foreign);
    cache.invalidate(id);
    assert!(cache.get(id).is_none());
}

#[test]
fn role_cache_get_returns_none_after_ttl() {
    let mut cache = RoleCache::with_ttl(20_000_000);
    let id = fresh_id();
    let t0: u64 = 1_000_000;
    cache.put_at(id, AppUserRole::Foreign, t0);
    assert!(cache.get_at(id, t0 + 19_999_999).is_some());
    assert!(cache.get_at(id, t0 + 40_000_000).is_none());
}

#[test]
fn role_cache_sweep_drops_expired_only() {
    let mut cache = RoleCache::with_ttl(30_000_000);
    let t0: u64 = 5_000;
    let old = fresh_id();
    cache.put_at(old, AppUserRole::Foreign, t0);
    let fresh = fresh_id();
    cache.put_at(fresh, AppUserRole::GlobalAdmin, t0 + 40_000_000);

    let dropped = cache.sweep_at(t0 + 40_000_000);
    assert_eq!(dropped, 1);
    assert!(cache.get_at(old, t0 + 40_000_000).is_none());
    assert!(cache.get_at(fresh, t0 + 40_000_000).is_some());
}

#[test]
fn role_cache_put_replaces_earlier_entry() {
    let mut cache = RoleCache::new();
    let id = fresh_id();
    cache.put_at(id, AppUserRole::Foreign, 0);
    cache.put_at(id, AppUserRole::Member { guilds: vec![9] }, 10);
    assert!(matches!(cache.get_at(id, 20), Some(AppUserRole::Member { guilds }) if guilds == vec![9u64]));
    assert_eq!(cache.sweep_at(20), 0);
}

fn check(guild_id: u64, member_roles: Option<Vec<u64>>, guild_admin_roles: Vec<u64>, guild: Option<GuildFacts>) -> GuildCheck {
    GuildCheck { guild_id, member_roles, guild_admin_roles, guild }
}

#[test]
fn classification_from_guild_checks() {
    // global admin list wins
    let r = classify_user(5, &vec![5], &vec![], &vec![]);
    assert!(matches!(r, AppUserRole::GlobalAdmin));

    // not a member anywhere
    let r = classify_user(5, &vec![], &vec![], &vec![check(1, None, vec![], None)]);
    assert!(matches!(r, AppUserRole::Foreign));

    // member of guild 1 with no admin role
    let r = classify_user(5, &vec![], &vec![], &vec![check(1, Some(vec![10]), vec![], None), check(2, None, vec![], None)]);
    assert!(matches!(r, AppUserRole::Member { guilds } if guilds == vec![1u64]));

    // guild-specific admin role in guild 2, ADMINISTRATOR bit in guild 3, owner of guild 4
    let checks = vec![
        check(1, Some(vec![10]), vec![], None),
        check(2, Some(vec![20]), vec![20], None),
        check(3, Some(vec![30]), vec![], Some(GuildFacts { owner_id: 99, role_permissions: vec![(30, 8)] })),
        check(4, Some(vec![]), vec![], Some(GuildFacts { owner_id: 5, role_permissions: vec![] })),
        check(6, Some(vec![60]), vec![], Some(GuildFacts { owner_id: 99, role_permissions: vec![(60, 7)] })),
    ];
    let r = classify_user(5, &vec![], &vec![], &checks);
    assert!(matches!(r, AppUserRole::GuildAdmin { member, admin }
        if member == vec![1u64, 2, 3, 4, 6] && admin == vec![2u64, 3, 4]));

    // a global admin role counts in every guild
    let r = classify_user(5, &vec![], &vec![10], &vec![check(1, Some(vec![10]), vec![], None)]);
    assert!(matches!(r, AppUserRole::GuildAdmin { member, admin } if member == vec![1u64] && admin == vec![1u64]));
}

#[test]
fn member_admin_rules() {
    assert!(member_is_admin(&None, 1, &vec![3], &vec![3]));
    assert!(!member_is_admin(&None, 1, &vec![3], &vec![4]));
    let g = Some(GuildFacts { owner_id: 1, role_permissions: vec![] });
    assert!(member_is_admin(&g, 1, &vec![], &vec![]));
    let g = Some(GuildFacts { owner_id: 2, role_permissions: vec![(3, 8 | 1)] });
    assert!(member_is_admin(&g, 1, &vec![3], &vec![]));
    assert!(!member_is_admin(&g, 1, &vec![4], &vec![]));
}

#[test]
fn duplicate_keeps_the_role() {
    let r = AppUserRole::GuildAdmin { member: vec![1, 2], admin: vec![2] };
    let d = r.duplicate();
    assert!(matches!(d, AppUserRole::GuildAdmin { member, admin } if member == vec![1u64, 2] && admin == vec![2u64]));
    assert!(!AppUserRole::anonymous().is_authenticated());
}

#[test]
fn role_cache_sweep_now_keeps_entries_within_ttl() {
    let mut cache = RoleCache::with_ttl(60_000_000_000);
    let a = fresh_id();
    let b = fresh_id();
    cache.put(a, AppUserRole::Foreign);
    cache.put(b, AppUserRole::GlobalAdmin);
    assert_eq!(cache.sweep(), 0);
    assert!(matches!(cache.get(b), Some(AppUserRole::GlobalAdmin)));
    let mut stale = RoleCache::with_ttl(0);
    stale.put(a, AppUserRole::Foreign);
    assert!(stale.get(a).is_none());
    assert_eq!(stale.sweep(), 1);
}
