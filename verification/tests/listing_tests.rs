use botinski::arrange::{key_less, sort_order, text_less};
use botinski::guild_view::ChannelKind;
use botinski::listing::{
    admin_role_picker, channel_layout, colour_hex, display_name, member_order, member_role_names,
    overwrite_label, role_holders, role_is_admin, role_order, ChannelFacts, MemberFacts,
    OverwriteTarget, RoleFacts,
};

fn chars(s: &str) -> Vec<char> {
    s.chars().collect()
}

#[test]
fn text_order_is_str_order() {
    let words = ["", "a", "ab", "b", "B", "é", "ä", "abc", "aa"];
    for x in words {
        for y in words {
            assert_eq!(text_less(&chars(x), &chars(y)), x < y, "{x:?} < {y:?}");
        }
    }
    assert!(key_less(&(0, chars("z")), &(1, chars("a"))));
    assert!(key_less(&(1, chars("a")), &(1, chars("b"))));
    assert!(!key_less(&(1, chars("b")), &(1, chars("b"))));
}

#[test]
fn sort_order_is_stable() {
    let keys = vec![(2i64, chars("x")), (1, chars("b")), (2, chars("x")), (1, chars("a")), (-5, chars(""))];
    assert_eq!(sort_order(&keys), vec![4, 3, 1, 0, 2]);
    assert!(sort_order(&vec![]).is_empty());
}

fn member(user_id: u64, nick: Option<&str>, global_name: Option<&str>, username: &str) -> MemberFacts {
    MemberFacts {
        user_id,
        nick: nick.map(str::to_string),
        global_name: global_name.map(str::to_string),
        username: username.to_string(),
        role_ids: vec![],
    }
}

#[test]
fn members_in_voice_first_then_by_name() {
    let ms = vec![
        member(1, None, None, "zed"),
        member(2, Some("Bob"), Some("Robert"), "bobby"),
        member(3, None, Some("alice"), "al"),
        member(4, None, None, "Yan"),
    ];
    assert_eq!(display_name(&ms[1]), "Bob");
    assert_eq!(display_name(&ms[2]), "alice");
    assert_eq!(display_name(&ms[0]), "zed");
    // 4 is in voice; the rest by lower-cased display name
    assert_eq!(member_order(&ms, &vec![4]), vec![3, 2, 1, 0]);
    assert_eq!(member_order(&ms, &vec![]), vec![2, 1, 3, 0]);
}

#[test]
fn member_role_names_skip_unknown_roles() {
    let roles = vec![(10u64, "Mods".to_string()), (11, "DJ".to_string())];
    assert_eq!(member_role_names(&vec![11, 99, 10], &roles), vec!["DJ".to_string(), "Mods".to_string()]);
}

fn role(id: u64, name: &str, position: u16) -> RoleFacts {
    RoleFacts { id, name: name.to_string(), position, colour: 0, permissions: 0 }
}

#[test]
fn roles_from_the_top_then_by_name() {
    let rs = vec![role(1, "b", 1), role(2, "a", 1), role(3, "top", 5), role(4, "@everyone", 0)];
    assert_eq!(role_order(&rs), vec![2, 1, 0, 3]);
}

#[test]
fn role_details() {
    assert_eq!(colour_hex(0), "000000");
    assert_eq!(colour_hex(0x3498db), "3498db");
    assert_eq!(colour_hex(0xff), "0000ff");
    assert_eq!(colour_hex(0x1234567), "1234567");
    assert!(role_is_admin(&RoleFacts { permissions: 8 | 2, ..role(1, "a", 0) }));
    assert!(!role_is_admin(&RoleFacts { permissions: 2, ..role(1, "a", 0) }));
    let members = vec![vec![1u64, 2], vec![2], vec![], vec![2, 2]];
    assert_eq!(role_holders(&members, 2), 4);
    assert_eq!(role_holders(&members, 1), 1);
    assert_eq!(role_holders(&members, 7), 0);
}

#[test]
fn settings_picker_skips_everyone_and_marks_admin_roles() {
    let rs = vec![role(100, "@everyone", 0), role(1, "low", 1), role(2, "high", 3), role(3, "also low", 1)];
    let rows = admin_role_picker(&rs, 100, &vec![3]);
    assert_eq!(
        rows,
        vec![(2, "high".to_string(), false), (1, "low".to_string(), false), (3, "also low".to_string(), true)]
    );
}

#[test]
fn overwrite_labels() {
    let roles = vec![(5u64, "Mods".to_string())];
    assert_eq!(overwrite_label(&OverwriteTarget::Role(100), 100, &roles), "@everyone");
    assert_eq!(overwrite_label(&OverwriteTarget::Role(5), 100, &roles), "@Mods");
    assert_eq!(overwrite_label(&OverwriteTarget::Role(6), 100, &roles), "@@6");
    assert_eq!(overwrite_label(&OverwriteTarget::Member(42), 100, &roles), "user 42");
    assert_eq!(overwrite_label(&OverwriteTarget::Other, 100, &roles), "unknown");
}

fn channel(id: u64, name: &str, kind: ChannelKind, position: u16, parent_id: Option<u64>) -> ChannelFacts {
    ChannelFacts { id, name: name.to_string(), kind, position, parent_id }
}

#[test]
fn channels_group_under_their_categories() {
    let cs = vec![
        channel(10, "Voice", ChannelKind::Category, 1, None),
        channel(11, "general", ChannelKind::Text, 3, None),
        channel(12, "lounge", ChannelKind::Voice, 2, Some(10)),
        channel(13, "music", ChannelKind::Voice, 1, Some(10)),
        channel(14, "Archive", ChannelKind::Category, 0, None),
        channel(15, "old", ChannelKind::Text, 0, Some(14)),
        channel(16, "rules", ChannelKind::Text, 0, None),
        channel(17, "orphan", ChannelKind::Text, 5, Some(99)),
    ];
    let gs = channel_layout(&cs);
    let summary: Vec<(Option<u64>, Option<String>, Vec<usize>)> =
        gs.into_iter().map(|g| (g.parent_id, g.category, g.channels)).collect();
    // untitled groups (top level, unknown parent) sort first, by the position of
    // their first channel; then "Archive" before "Voice"
    assert_eq!(
        summary,
        vec![
            (None, None, vec![6, 1]),
            (Some(99), None, vec![7]),
            (Some(14), Some("Archive".to_string()), vec![5]),
            (Some(10), Some("Voice".to_string()), vec![3, 2]),
        ]
    );
    assert!(channel_layout(&vec![]).is_empty());
}
