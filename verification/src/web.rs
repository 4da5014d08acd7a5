//! Small decisions of the web layer: which navigation link is active, the
//! theme cookie, the track-id list posted by the music page, the OAuth
//! callback URL, and the audit-log record of a mutating request.

use vstd::prelude::*;
use crate::dice::{piece_views, split_chars, split_on};
use crate::session::{parse_uuid, uuid_parsed};
use crate::text::{
    append_str, chars_eq, chars_of, decimal, push_decimal, starts_with_chars, starts_with_text,
    string_from_chars, trim, trim_chars,
};
use crate::player::contains_id;

verus! {

/// A navigation link is active on its own page and, except for the home
/// link, on every page below it.
pub open spec fn nav_active_spec(current: Seq<char>, link: Seq<char>) -> bool {
    current == link || (link != "/"@ && starts_with_text(current, link))
}

/// Whether the navigation link to `link` is highlighted on page `current`.
pub fn nav_link_active(current: &str, link: &str) -> (b: bool)
    ensures
        b == nav_active_spec(current@, link@),
{
    let c = chars_of(current);
    let l = chars_of(link);
    let root = chars_of("/");
    chars_eq(&c, &l) || (!chars_eq(&l, &root) && starts_with_chars(&c, &l))
}

/// The theme a `dark_theme` cookie selects: dark unless it reads `false`;
/// a value that is not a boolean also selects dark.
pub open spec fn dark_theme_spec(cookie: Option<Seq<char>>) -> bool {
    match cookie {
        Some(v) => v != "false"@,
        None => true,
    }
}

/// Whether a `dark_theme` cookie value is a valid boolean (`true`/`false`).
pub fn theme_cookie_valid(value: &str) -> (b: bool)
    ensures
        b == (value@ == "true"@ || value@ == "false"@),
{
    let v = chars_of(value);
    let t = chars_of("true");
    let f = chars_of("false");
    chars_eq(&v, &t) || chars_eq(&v, &f)
}

/// Whether the page renders dark, given the `dark_theme` cookie if any.
pub fn dark_theme(cookie: Option<&str>) -> (b: bool)
    ensures
        b == dark_theme_spec(match cookie { Some(s) => Some(s@), None => None }),
{
    match cookie {
        Some(value) => {
            let v = chars_of(value);
            let f = chars_of("false");
            !chars_eq(&v, &f)
        },
        None => true,
    }
}

/// The ids a comma-separated list names: each piece, trimmed, that parses
/// as a UUID.
pub open spec fn named_ids(s: Seq<char>, x: u128) -> bool {
    exists|i: int| 0 <= i < split_on(s, ',').len() && uuid_parsed(trim(#[trigger] split_on(s, ',')[i])) == Some(x)
}

/// Parses the music page's `ids` form field: comma-separated UUIDs,
/// surrounding white space ignored, unparsable pieces skipped, each id
/// kept once.
pub fn parse_id_list(ids: &str) -> (r: Vec<u128>)
    ensures
        forall|x: u128| r@.contains(x) <==> named_ids(ids@, x),
        forall|i: int, j: int| 0 <= i < r@.len() && 0 <= j < r@.len() && i != j ==> r@[i] != r@[j],
{
    let chars = chars_of(ids);
    let pieces = split_chars(&chars, ',');
    let ghost ps = piece_views(pieces@);
    let mut out: Vec<u128> = Vec::new();
    let mut i: usize = 0;
    while i < pieces.len()
        invariant
            i <= pieces@.len(),
            ps == piece_views(pieces@),
            ps == split_on(ids@, ','),
            forall|x: u128| out@.contains(x) <==> exists|k: int| 0 <= k < i && uuid_parsed(trim(#[trigger] ps[k])) == Some(x),
            forall|a: int, b: int| 0 <= a < out@.len() && 0 <= b < out@.len() && a != b ==> out@[a] != out@[b],
        decreases pieces@.len() - i,
    {
        let trimmed = trim_chars(&pieces[i]);
        let text = string_from_chars(&trimmed);
        assert(ps[i as int] == pieces@[i as int]@);
        let parsed = parse_uuid(text.as_str());
        let ghost before = out@;
        match parsed {
            Some(x) => {
                if !contains_id(out.as_slice(), x) {
                    out.push(x);
                    proof {
                        assert forall|a: int, b: int| 0 <= a < out@.len() && 0 <= b < out@.len() && a != b implies out@[a] != out@[b] by {
                            if a < before.len() && b < before.len() {
                            } else if a < before.len() {
                                assert(before.contains(before[a]));
                            } else if b < before.len() {
                                assert(before.contains(before[b]));
                            }
                        }
                    }
                }
            },
            None => {},
        }
        proof {
            assert forall|x: u128| out@.contains(x) <==> exists|k: int| 0 <= k < i + 1 && uuid_parsed(trim(#[trigger] ps[k])) == Some(x) by {
                if out@.contains(x) && !before.contains(x) {
                    assert(uuid_parsed(trim(ps[i as int])) == Some(x));
                }
                if exists|k: int| 0 <= k < i + 1 && uuid_parsed(trim(#[trigger] ps[k])) == Some(x) {
                    let k = choose|k: int| 0 <= k < i + 1 && uuid_parsed(trim(#[trigger] ps[k])) == Some(x);
                    if k == i {
                        if !before.contains(x) {
                            assert(out@.last() == x);
                        }
                    }
                    if before.contains(x) {
                        let j = choose|j: int| 0 <= j < before.len() && before[j] == x;
                        assert(out@[j] == x);
                    }
                }
            }
        }
        i += 1;
    }
    out
}

/// Where Discord sends the user back after signing in.
pub open spec fn oauth_redirect_spec(base: Seq<char>) -> Seq<char> {
    base + "/api/oauth/callback"@
}

/// The OAuth callback URL under the dashboard's public base URL.
pub fn oauth_redirect_url(base: &str) -> (r: String)
    ensures
        r@ == oauth_redirect_spec(base@),
{
    let mut out: Vec<char> = Vec::new();
    append_str(&mut out, base);
    append_str(&mut out, "/api/oauth/callback");
    string_from_chars(&out)
}

/// The OAuth scopes requested at sign-in, in order.
pub fn oauth_scopes() -> (r: Vec<&'static str>)
    ensures
        r@.map_values(|s: &str| s@) == seq!["identify"@, "guilds"@, "email"@],
{
    let mut r: Vec<&'static str> = Vec::new();
    r.push("identify");
    r.push("guilds");
    r.push("email");
    assert(r@.map_values(|s: &str| s@) =~= seq!["identify"@, "guilds"@, "email"@]);
    r
}

/// An audit-log record about to be written.
pub struct NewAuditLogEntry<'a> {
    pub source: &'a str,
    pub actor_id: Option<&'a str>,
    pub actor_name: Option<&'a str>,
    pub guild_id: Option<&'a str>,
    pub action: &'a str,
    pub detail: Option<&'a str>,
    pub outcome: &'a str,
}

/// The request methods the audit log records.
pub open spec fn is_mutating_spec(method: Seq<char>) -> bool {
    method == "POST"@ || method == "PUT"@ || method == "PATCH"@ || method == "DELETE"@
}

/// Whether a request with this method is recorded in the audit log.
pub fn is_mutating_method(method: &str) -> (b: bool)
    ensures
        b == is_mutating_spec(method@),
{
    let m = chars_of(method);
    let post = chars_of("POST");
    let put = chars_of("PUT");
    let patch = chars_of("PATCH");
    let delete = chars_of("DELETE");
    chars_eq(&m, &post) || chars_eq(&m, &put) || chars_eq(&m, &patch) || chars_eq(&m, &delete)
}

/// The recorded action of a web request: `<METHOD> <path>`.
pub fn audit_action(method: &str, path: &str) -> (r: String)
    ensures
        r@ == method@ + " "@ + path@,
{
    let mut out: Vec<char> = Vec::new();
    append_str(&mut out, method);
    append_str(&mut out, " ");
    append_str(&mut out, path);
    string_from_chars(&out)
}

/// The recorded outcome of a web request: `http:<status>`.
pub fn audit_outcome(status: u16) -> (r: String)
    ensures
        r@ == "http:"@ + decimal(status as nat),
{
    let mut out: Vec<char> = Vec::new();
    append_str(&mut out, "http:");
    push_decimal(&mut out, status as u64);
    string_from_chars(&out)
}

/// How an HTTP status recorded in the audit log is coloured.
pub enum StatusTone {
    /// A `2..` code.
    Success,
    /// A `3..` code.
    Redirect,
    /// Anything else.
    Failure,
}

/// How the audit-log page shows a recorded outcome.
pub enum OutcomeBadge {
    /// The outcome `ok`.
    Done,
    /// An outcome starting with `err`, shown as it is.
    Failed,
    /// `http:<code>`: the code, coloured by its first digit.
    Status { code: String, tone: StatusTone },
    /// Anything else, shown as it is.
    Plain,
}

/// The tone of a status code's text, by its first character.
pub open spec fn tone_spec(code: Seq<char>) -> StatusTone {
    if starts_with_text(code, "2"@) {
        StatusTone::Success
    } else if starts_with_text(code, "3"@) {
        StatusTone::Redirect
    } else {
        StatusTone::Failure
    }
}

/// Classifies a recorded outcome for the audit-log page. (The code of an
/// `http:` outcome is the text after the prefix.)
pub fn outcome_badge(outcome: &str) -> (b: OutcomeBadge)
    ensures
        outcome@ == "ok"@ ==> b is Done,
        outcome@ != "ok"@ && starts_with_text(outcome@, "err"@) ==> b is Failed,
        outcome@ != "ok"@ && !starts_with_text(outcome@, "err"@) && starts_with_text(outcome@, "http:"@) ==>
            (b matches OutcomeBadge::Status { code, tone } && code@ == outcome@.skip(5) && tone == tone_spec(outcome@.skip(5))),
        outcome@ != "ok"@ && !starts_with_text(outcome@, "err"@) && !starts_with_text(outcome@, "http:"@) ==> b is Plain,
{
    let v = chars_of(outcome);
    let ok = chars_of("ok");
    let err = chars_of("err");
    let http = chars_of("http:");
    if chars_eq(&v, &ok) {
        return OutcomeBadge::Done;
    }
    if starts_with_chars(&v, &err) {
        return OutcomeBadge::Failed;
    }
    if starts_with_chars(&v, &http) {
        proof {
            reveal_strlit("http:");
        }
        assert(http@.len() == 5);
        let code = crate::text::copy_range(&v, 5, v.len());
        let two = chars_of("2");
        let three = chars_of("3");
        let tone = if starts_with_chars(&code, &two) {
            StatusTone::Success
        } else if starts_with_chars(&code, &three) {
            StatusTone::Redirect
        } else {
            StatusTone::Failure
        };
        assert(code@ =~= outcome@.skip(5));
        return OutcomeBadge::Status { code: string_from_chars(&code), tone };
    }
    OutcomeBadge::Plain
}

/// The record of a mutating web request: source `web`, no guild, no detail.
pub fn web_audit_entry<'a>(actor_id: Option<&'a str>, actor_name: Option<&'a str>, action: &'a str, outcome: &'a str) -> (e: NewAuditLogEntry<'a>)
    ensures
        e.source@ == "web"@,
        e.actor_id == actor_id,
        e.actor_name == actor_name,
        e.guild_id is None,
        e.action == action,
        e.detail is None,
        e.outcome == outcome,
{
    NewAuditLogEntry { source: "web", actor_id, actor_name, guild_id: None, action, detail: None, outcome }
}

} // verus!
