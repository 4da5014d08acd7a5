//! Verified core of the botinski Discord bot: queue management, role
//! classification, session cookies, dice notation, the decisions behind
//! the web dashboard's pages, and the text helpers they share.

pub mod text;
pub mod arrange;
pub mod track;
pub mod probe;
pub mod player;
pub mod roles;
pub mod session;
pub mod settings;
pub mod dice;
pub mod http_error;
pub mod components;
pub mod messages;
pub mod files;
pub mod guild_view;
pub mod listing;
pub mod music_view;
pub mod web;
pub mod ffmpeg;
pub mod accounts;
