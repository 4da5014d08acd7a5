//! Errors the web dashboard answers with, and the membership guards that
//! decide them.

use vstd::prelude::*;
use crate::roles::{admin_of_spec, member_of_spec, AppUserRole};
use crate::text::{decimal, owned};

verus! {

/// A failed web request.
pub enum HttpError {
    Unauthorized,
    Forbidden,
    NotFound,
    Internal(String),
    BadRequest(String),
}

/// The status code each error is answered with.
pub open spec fn status_of(e: HttpError) -> u16 {
    match e {
        HttpError::Unauthorized => 401,
        HttpError::Forbidden => 403,
        HttpError::NotFound => 404,
        HttpError::Internal(_) => 500,
        HttpError::BadRequest(_) => 400,
    }
}

/// The canonical reason phrase of the status codes used here.
pub open spec fn reason_phrase(code: u16) -> Seq<char> {
    if code == 400 {
        "Bad Request"@
    } else if code == 401 {
        "Unauthorized"@
    } else if code == 403 {
        "Forbidden"@
    } else if code == 404 {
        "Not Found"@
    } else {
        "Internal Server Error"@
    }
}

/// The status codes the dashboard answers errors with.
pub open spec fn is_error_status(code: u16) -> bool {
    code == 400 || code == 401 || code == 403 || code == 404 || code == 500
}

/// `http::StatusCode::from_u16(code).to_string()`: the code, a space and its
/// canonical reason phrase (as listed in `http`'s status table).
#[verifier::external_body]
fn status_line(code: u16) -> (r: String)
    requires
        is_error_status(code),
    ensures
        r@ == decimal(code as nat) + seq![' '] + reason_phrase(code),
{
    match axum::http::StatusCode::from_u16(code) {
        Ok(s) => s.to_string(),
        Err(_) => String::new(),
    }
}

/// The text shown under an error's title.
pub open spec fn description_of(e: HttpError) -> Seq<char> {
    match e {
        HttpError::Unauthorized => "Unauthorized to access the requested resource"@,
        HttpError::Forbidden => "You do not have access to the requested resource"@,
        HttpError::NotFound => "The requested resource was not found"@,
        HttpError::Internal(_) => "An internal error occurred while attempting to facilitate your request"@,
        HttpError::BadRequest(msg) => msg@,
    }
}

impl HttpError {
    /// The status code this error is answered with.
    pub fn as_status(&self) -> (code: u16)
        ensures
            code == status_of(*self),
    {
        match self {
            HttpError::Unauthorized => 401,
            HttpError::Forbidden => 403,
            HttpError::NotFound => 404,
            HttpError::Internal(_) => 500,
            HttpError::BadRequest(_) => 400,
        }
    }

    /// The page title: the status line, e.g. `404 Not Found`.
    pub fn title(&self) -> (t: String)
        ensures
            t@ == decimal(status_of(*self) as nat) + seq![' '] + reason_phrase(status_of(*self)),
    {
        status_line(self.as_status())
    }

    /// The explanation shown under the title.
    pub fn description(&self) -> (d: String)
        ensures
            d@ == description_of(*self),
    {
        match self {
            HttpError::Unauthorized => owned("Unauthorized to access the requested resource"),
            HttpError::Forbidden => owned("You do not have access to the requested resource"),
            HttpError::NotFound => owned("The requested resource was not found"),
            HttpError::Internal(_) => owned("An internal error occurred while attempting to facilitate your request"),
            HttpError::BadRequest(msg) => msg.clone(),
        }
    }
}

/// The guard on guild pages any member may use: refuses visitors without a
/// session and users who may not see the guild, and tells the rest whether
/// they administer it.
pub fn require_member(role: &AppUserRole, guild_id: u64) -> (r: Result<bool, HttpError>)
    ensures
        role@ is Anonymous ==> r matches Err(HttpError::Unauthorized),
        !(role@ is Anonymous) && !member_of_spec(role@, guild_id) ==> r matches Err(HttpError::Forbidden),
        !(role@ is Anonymous) && member_of_spec(role@, guild_id) ==> (r matches Ok(b) && b == admin_of_spec(role@, guild_id)),
{
    if !role.is_authenticated() {
        return Err(HttpError::Unauthorized);
    }
    if !role.is_member_of(guild_id) {
        return Err(HttpError::Forbidden);
    }
    Ok(role.is_admin_of(guild_id))
}

/// The guard on admin-only guild actions: refuses visitors without a
/// session and users who do not administer the guild.
pub fn require_admin(role: &AppUserRole, guild_id: u64) -> (r: Result<(), HttpError>)
    ensures
        role@ is Anonymous ==> r matches Err(HttpError::Unauthorized),
        !(role@ is Anonymous) && !admin_of_spec(role@, guild_id) ==> r matches Err(HttpError::Forbidden),
        !(role@ is Anonymous) && admin_of_spec(role@, guild_id) ==> r is Ok,
{
    if !role.is_authenticated() {
        return Err(HttpError::Unauthorized);
    }
    if !role.is_admin_of(guild_id) {
        return Err(HttpError::Forbidden);
    }
    Ok(())
}

/// The guard on the global-admin pages: anyone else is told the page does
/// not exist.
pub fn require_global_admin(role: &AppUserRole) -> (r: Result<(), HttpError>)
    ensures
        role@ is GlobalAdmin ==> r is Ok,
        !(role@ is GlobalAdmin) ==> r matches Err(HttpError::NotFound),
{
    match role {
        AppUserRole::GlobalAdmin => Ok(()),
        _ => Err(HttpError::NotFound),
    }
}

} // verus!
