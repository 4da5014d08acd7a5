use botinski::accounts::{AppUser, DiscordConfigData};
use botinski::components::{button_class, input_class, ButtonColor, ButtonProps, InputProps};
use botinski::ffmpeg::FfmpegInput;
use botinski::files::{FileFormatError, FileHandler};
use botinski::guild_view::{
    channel_counts, channel_kind_label, channel_permissions, format_perm_flags, guild_listing,
    role_count, role_permissions, ChannelKind,
};
use botinski::http_error::{require_admin, require_member, HttpError};
use botinski::roles::AppUserRole;
use botinski::web::{
    audit_action, audit_outcome, dark_theme, is_mutating_method, nav_link_active, oauth_redirect_url,
    oauth_scopes, parse_id_list, theme_cookie_valid, web_audit_entry,
};

#[test]
fn http_errors_map_to_status_and_text() {
    assert_eq!(HttpError::Unauthorized.as_status(), 401);
    assert_eq!(HttpError::Forbidden.as_status(), 403);
    assert_eq!(HttpError::NotFound.as_status(), 404);
    assert_eq!(HttpError::Internal("x".to_string()).as_status(), 500);
    assert_eq!(HttpError::BadRequest("bad id".to_string()).as_status(), 400);

    assert_eq!(HttpError::Unauthorized.title(), "401 Unauthorized");
    assert_eq!(HttpError::Forbidden.title(), "403 Forbidden");
    assert_eq!(HttpError::NotFound.title(), "404 Not Found");
    assert_eq!(HttpError::Internal("x".to_string()).title(), "500 Internal Server Error");
    assert_eq!(HttpError::BadRequest("x".to_string()).title(), "400 Bad Request");

    assert_eq!(HttpError::Unauthorized.description(), "Unauthorized to access the requested resource");
    assert_eq!(HttpError::NotFound.description(), "The requested resource was not found");
    assert_eq!(
        HttpError::Internal("secret".to_string()).description(),
        "An internal error occurred while attempting to facilitate your request"
    );
    assert_eq!(HttpError::BadRequest("bad id".to_string()).description(), "bad id");
}

#[test]
fn guild_guards() {
    let member = AppUserRole::GuildAdmin { member: vec![1, 2], admin: vec![1] };
    assert!(matches!(require_member(&AppUserRole::Anonymous, 1), Err(HttpError::Unauthorized)));
    assert!(matches!(require_member(&AppUserRole::Foreign, 1), Err(HttpError::Forbidden)));
    assert!(matches!(require_member(&member, 1), Ok(true)));
    assert!(matches!(require_member(&member, 2), Ok(false)));
    assert!(matches!(require_member(&member, 3), Err(HttpError::Forbidden)));
    assert!(matches!(require_admin(&AppUserRole::Anonymous, 1), Err(HttpError::Unauthorized)));
    assert!(require_admin(&member, 1).is_ok());
    assert!(matches!(require_admin(&member, 2), Err(HttpError::Forbidden)));
    assert!(require_admin(&AppUserRole::GlobalAdmin, 77).is_ok());
}

#[test]
fn button_and_input_classes() {
    assert_eq!(ButtonColor::Plain.as_class(), "");
    assert_eq!(ButtonColor::Gray.as_class(), "bg-gray-500 hover:bg-gray-700");
    assert_eq!(ButtonColor::Blue.as_class(), "bg-blue-500 hover:bg-blue-700");
    assert_eq!(ButtonColor::Red.as_class(), "bg-red-500 hover:bg-red-700");
    assert_eq!(ButtonColor::Yellow.as_class(), "bg-yellow-500 hover:bg-yellow-700");
    assert!(matches!(ButtonColor::default(), ButtonColor::Blue));

    let props = ButtonProps::default();
    assert!(props.id.is_none() && !props.disabled && props.hx_get.is_none());
    assert_eq!(
        button_class(&props),
        "rounded-md border px-2 cursor-pointer transition-colors bg-blue-500 hover:bg-blue-700 "
    );
    let props = ButtonProps { class: Some("w-full"), color: ButtonColor::Plain, ..ButtonProps::default() };
    assert_eq!(button_class(&props), "rounded-md border px-2 cursor-pointer transition-colors  w-full");

    assert_eq!(input_class(&InputProps::default()), "rounded-md border px-2 ");
    let props = InputProps { class: Some("grow"), ..InputProps::default() };
    assert_eq!(input_class(&props), "rounded-md border px-2 grow");
}

#[test]
fn config_formats_follow_the_extension() {
    assert!(matches!(FileHandler::from_path("config.json"), Ok(FileHandler::Json)));
    assert!(matches!(FileHandler::from_path("dir/Config.TOML"), Ok(FileHandler::Toml)));
    assert!(matches!(FileHandler::from_path("config"), Err(FileFormatError::MissingExtension)));
    match FileHandler::from_path("config.YAML") {
        Err(e @ FileFormatError::Unhandled(_)) => {
            assert_eq!(e.message(), "Unhandled file extension: yaml");
        }
        _ => panic!("expected an unhandled extension"),
    }
    assert_eq!(FileFormatError::MissingExtension.message(), "Missing file extension");
    assert!(matches!(FileHandler::from_extension(Some("Json")), Ok(FileHandler::Json)));
}

#[test]
fn navigation_and_theme() {
    assert!(nav_link_active("/", "/"));
    assert!(!nav_link_active("/guilds", "/"));
    assert!(nav_link_active("/guilds/1/music", "/guilds"));
    assert!(!nav_link_active("/profile", "/guilds"));
    assert!(theme_cookie_valid("true"));
    assert!(theme_cookie_valid("false"));
    assert!(!theme_cookie_valid("yes"));
    assert!(dark_theme(None));
    assert!(dark_theme(Some("true")));
    assert!(dark_theme(Some("garbage")));
    assert!(!dark_theme(Some("false")));
}

#[test]
fn id_lists_skip_bad_pieces_and_repeats() {
    let a = "67e55044-10b1-426f-9247-bb680e5fe0c8";
    let b = "00000000-0000-0000-0000-000000000001";
    let ids = parse_id_list(&format!(" {a} ,junk,{b},{a},"));
    assert_eq!(ids, vec![0x67e55044_10b1_426f_9247_bb680e5fe0c8u128, 1]);
    assert!(parse_id_list("").is_empty());
}

#[test]
fn oauth_and_audit_helpers() {
    assert_eq!(oauth_redirect_url("https://bot.example"), "https://bot.example/api/oauth/callback");
    assert_eq!(oauth_scopes(), vec!["identify", "guilds", "email"]);
    assert!(is_mutating_method("POST"));
    assert!(is_mutating_method("DELETE"));
    assert!(!is_mutating_method("GET"));
    assert!(!is_mutating_method("post"));
    assert_eq!(audit_action("POST", "/api/x"), "POST /api/x");
    assert_eq!(audit_outcome(204), "http:204");
    let e = web_audit_entry(Some("1"), None, "POST /", "http:200");
    assert_eq!(e.source, "web");
    assert_eq!(e.actor_id, Some("1"));
    assert!(e.guild_id.is_none() && e.detail.is_none());
    assert_eq!(e.outcome, "http:200");
}

#[test]
fn guild_pages_helpers() {
    assert_eq!(channel_kind_label(&ChannelKind::News), "ANNOUNCE");
    assert_eq!(channel_kind_label(&ChannelKind::PrivateThread), "THREAD");
    assert_eq!(channel_kind_label(&ChannelKind::Other), "OTHER");
    assert_eq!(format_perm_flags(8 | 1024 | 512, &channel_permissions()), vec!["Administrator", "View Channel", "Video"]);
    assert_eq!(format_perm_flags(0, &role_permissions()), Vec::<&str>::new());
    assert_eq!(format_perm_flags(1 | 64, &role_permissions()), vec!["Add Reactions", "Create Invite"]);
    let kinds = vec![ChannelKind::Text, ChannelKind::News, ChannelKind::Voice, ChannelKind::Stage, ChannelKind::Category, ChannelKind::Voice];
    assert_eq!(channel_counts(&kinds), (2, 3));
    assert_eq!(role_count(0), 0);
    assert_eq!(role_count(5), 4);
}

#[test]
fn guild_listing_follows_the_role() {
    let cached = vec![(1u64, "one".to_string()), (2, "two".to_string()), (3, "three".to_string())];
    let r = guild_listing(&AppUserRole::GlobalAdmin, &cached);
    assert_eq!(r, vec![(1, "one".to_string(), true), (2, "two".to_string(), true), (3, "three".to_string(), true)]);
    let role = AppUserRole::GuildAdmin { member: vec![3, 9, 1], admin: vec![1] };
    let r = guild_listing(&role, &cached);
    assert_eq!(r, vec![(3, "three".to_string(), false), (1, "one".to_string(), true)]);
    assert!(guild_listing(&AppUserRole::Foreign, &cached).is_empty());
}

#[test]
fn ffmpeg_arguments() {
    let input = FfmpegInput::new("https://live/manifest.m3u8".to_string());
    assert_eq!(input.url(), "https://live/manifest.m3u8");
    assert_eq!(
        input.args(),
        vec![
            "-loglevel", "error", "-i", "https://live/manifest.m3u8", "-vn", "-c:a", "libopus", "-b:a",
            "128k", "-f", "matroska", "pipe:1"
        ]
    );
}

#[test]
fn discord_ids_and_config_defaults() {
    let user = AppUser { id: 1, discord_id: "987654321098765432".to_string(), name: "n".to_string(), email: "e".to_string() };
    assert_eq!(user.discord_id().ok(), Some(987654321098765432));
    let bad = AppUser { id: 1, discord_id: "12a".to_string(), name: String::new(), email: String::new() };
    assert!(bad.discord_id().is_err());
    let d = DiscordConfigData::default();
    assert_eq!(d.command_prefix, "\\");
    assert!(d.admin_roles.is_none() && d.admin_uids.is_none());
}

use botinski::http_error::require_global_admin;

#[test]
fn audit_log_is_hidden_from_everyone_but_global_admins() {
    assert!(require_global_admin(&AppUserRole::GlobalAdmin).is_ok());
    assert!(matches!(require_global_admin(&AppUserRole::Anonymous), Err(HttpError::NotFound)));
    let admin = AppUserRole::GuildAdmin { member: vec![1], admin: vec![1] };
    assert!(matches!(require_global_admin(&admin), Err(HttpError::NotFound)));
}

use botinski::web::{outcome_badge, OutcomeBadge, StatusTone};

#[test]
fn audit_outcome_badges() {
    assert!(matches!(outcome_badge("ok"), OutcomeBadge::Done));
    assert!(matches!(outcome_badge("err: timeout"), OutcomeBadge::Failed));
    assert!(matches!(outcome_badge("http:204"), OutcomeBadge::Status { code, tone: StatusTone::Success } if code == "204"));
    assert!(matches!(outcome_badge("http:302"), OutcomeBadge::Status { code, tone: StatusTone::Redirect } if code == "302"));
    assert!(matches!(outcome_badge("http:500"), OutcomeBadge::Status { code, tone: StatusTone::Failure } if code == "500"));
    assert!(matches!(outcome_badge("http:"), OutcomeBadge::Status { code, tone: StatusTone::Failure } if code.is_empty()));
    assert!(matches!(outcome_badge("okay"), OutcomeBadge::Plain));
}

#[test]
fn config_format_reads_the_last_extension_only() {
    assert!(matches!(FileHandler::from_path("settings.toml.json"), Ok(FileHandler::Json)));
    assert!(matches!(FileHandler::from_path(".json"), Err(FileFormatError::MissingExtension)));
    assert!(matches!(FileHandler::from_path("conf.d/settings"), Err(FileFormatError::MissingExtension)));
}

#[test]
fn config_format_follows_the_documented_extension() {
    assert!(matches!(FileHandler::from_path("CONFIG.JSON"), Ok(FileHandler::Json)));
    assert!(matches!(FileHandler::from_path("settings.toml"), Ok(FileHandler::Toml)));
    assert!(matches!(FileHandler::from_path("conf/settings.toml/"), Ok(FileHandler::Toml)));
    assert!(matches!(FileHandler::from_path("conf/settings.json/."), Ok(FileHandler::Json)));
    assert!(matches!(FileHandler::from_path("conf.json/.."), Err(FileFormatError::MissingExtension)));
    match FileHandler::from_path("config.") {
        Err(e @ FileFormatError::Unhandled(_)) => assert_eq!(e.message(), "Unhandled file extension: "),
        _ => panic!("expected an empty, unhandled extension"),
    }
}
