//! Local user accounts and the Discord part of the configuration.

use vstd::prelude::*;
use crate::text::{chars_of, owned, parse_u64, parse_u64_spec};

verus! {

/// A dashboard user, linked to a Discord account.
pub struct AppUser {
    pub id: u128,
    pub discord_id: String,
    pub name: String,
    pub email: String,
}

/// The stored Discord id did not parse as a 64-bit id.
pub struct InvalidDiscordId;

impl AppUser {
    /// The user's Discord id, parsed from its stored decimal text.
    pub fn discord_id(&self) -> (r: Result<u64, InvalidDiscordId>)
        ensures
            match parse_u64_spec(self.discord_id@) {
                Some(x) => r == Ok::<u64, InvalidDiscordId>(x),
                None => r is Err,
            },
    {
        let v = chars_of(self.discord_id.as_str());
        match parse_u64(&v) {
            Some(x) => Ok(x),
            None => Err(InvalidDiscordId),
        }
    }
}

/// The Discord section of the configuration file.
pub struct DiscordConfigData {
    pub command_prefix: String,
    pub admin_roles: Option<Vec<u64>>,
    pub admin_uids: Option<Vec<u64>>,
}

impl Default for DiscordConfigData {
    /// Prefix `\`, no admin roles, no admin users.
    fn default() -> (d: DiscordConfigData)
        ensures
            d.command_prefix@ == "\\"@,
            d.admin_roles is None,
            d.admin_uids is None,
    {
        DiscordConfigData { command_prefix: owned("\\"), admin_roles: None, admin_uids: None }
    }
}

} // verus!
