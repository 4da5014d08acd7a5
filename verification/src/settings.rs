//! Per-guild settings as the library sees them: the admin-role list and
//! its JSON column encoding, and the clamping applied to settings posted
//! from the dashboard. (Volumes are floating point and stay with the
//! caller.)

use vstd::prelude::*;
use crate::text::{chars_of, decimal, parse_u64, parse_u64_spec, push_decimal, string_from_chars, owned};

verus! {

/// Upper bound on the idle-leave timeout accepted from the dashboard, in seconds.
pub const MAX_IDLE_LEAVE_SECS: i64 = 3600;

/// Idle-leave timeout of a guild without a settings row, in seconds.
pub const DEFAULT_IDLE_LEAVE_SECS: i64 = 300;

/// What `serde_json::from_str::<Vec<String>>` yields for `raw`.
pub uninterp spec fn json_string_array(raw: Seq<char>) -> Option<Seq<Seq<char>>>;

/// What `serde_json::to_string` yields for a list of strings.
pub uninterp spec fn json_of_strings(items: Seq<Seq<char>>) -> Seq<char>;

/// The characters of each string.
pub open spec fn string_views(v: Seq<String>) -> Seq<Seq<char>> {
    v.map_values(|s: String| s@)
}

/// The characters of each string held, if any.
pub open spec fn strings_of(o: Option<Vec<String>>) -> Option<Seq<Seq<char>>> {
    match o {
        Some(v) => Some(string_views(v@)),
        None => None,
    }
}

/// `serde_json::from_str::<Vec<String>>(raw).ok()`, named
/// [`json_string_array`]. Claimed beyond the name: the JSON that
/// `serde_json` writes for a list of strings reads back as that list.
#[verifier::external_body]
pub(crate) fn parse_json_strings(raw: &str) -> (r: Option<Vec<String>>)
    ensures
        strings_of(r) == json_string_array(raw@),
        forall|items: Seq<Seq<char>>| raw@ == json_of_strings(items) ==> strings_of(r) == Some(items),
{
    serde_json::from_str::<Vec<String>>(raw).ok()
}

/// `serde_json::to_string(items)`, named [`json_of_strings`]. Serialising
/// strings cannot fail, so the error arm is never taken. Claimed beyond
/// the name: `serde_json::from_str::<Vec<String>>` reads the text back as
/// `items`.
#[verifier::external_body]
pub(crate) fn json_strings(items: &Vec<String>) -> (r: String)
    ensures
        r@ == json_of_strings(string_views(items@)),
        json_string_array(r@) == Some(string_views(items@)),
{
    match serde_json::to_string(items) {
        Ok(s) => s,
        Err(_) => "[]".to_string(),
    }
}

/// The role ids among `items`: those that parse as unsigned 64-bit
/// decimals, in order; the rest are skipped.
pub open spec fn parse_ids_spec(items: Seq<Seq<char>>) -> Seq<u64>
    decreases items.len(),
{
    if items.len() == 0 {
        Seq::empty()
    } else {
        let rest = parse_ids_spec(items.drop_last());
        match parse_u64_spec(items.last()) {
            Some(x) => rest.push(x),
            None => rest,
        }
    }
}

/// The decimal text of each id.
pub open spec fn decimal_strings(ids: Seq<u64>) -> Seq<Seq<char>> {
    ids.map_values(|x: u64| decimal(x as nat))
}

/// The role ids stored in an `admin_role_ids` column: a JSON array of
/// decimal strings; anything unreadable counts as no roles.
pub open spec fn admin_role_ids_spec(raw: Seq<char>) -> Seq<u64> {
    match json_string_array(raw) {
        Some(items) => parse_ids_spec(items),
        None => Seq::empty(),
    }
}

/// No item reads as role id 0, which Discord's id type refuses.
pub open spec fn no_zero_ids(items: Seq<Seq<char>>) -> bool {
    forall|i: int| 0 <= i < items.len() ==> parse_u64_spec(#[trigger] items[i]) != Some(0u64)
}

/// Whether no item reads as role id 0 (see [`no_zero_ids`]).
pub fn role_ids_acceptable(items: &Vec<String>) -> (b: bool)
    ensures
        b == no_zero_ids(string_views(items@)),
{
    let mut i: usize = 0;
    while i < items.len()
        invariant
            i <= items.len(),
            forall|k: int| 0 <= k < i ==> parse_u64_spec(#[trigger] string_views(items@)[k]) != Some(0u64),
        decreases items.len() - i,
    {
        let v = chars_of(items[i].as_str());
        assert(string_views(items@)[i as int] == items@[i as int]@);
        match parse_u64(&v) {
            Some(x) => {
                if x == 0 {
                    return false;
                }
            },
            None => {},
        }
        i += 1;
    }
    true
}

/// Parses each string as a role id, skipping those that are not
/// unsigned 64-bit decimals. (An item reading as 0 is no role id at all;
/// such lists are left out.)
pub fn parse_role_id_list(items: &Vec<String>) -> (r: Vec<u64>)
    requires
        no_zero_ids(string_views(items@)),
    ensures
        r@ == parse_ids_spec(string_views(items@)),
{
    let mut r: Vec<u64> = Vec::new();
    let mut i: usize = 0;
    while i < items.len()
        invariant
            i <= items.len(),
            r@ == parse_ids_spec(string_views(items@.take(i as int))),
        decreases items.len() - i,
    {
        let ghost before = string_views(items@.take(i as int));
        let ghost after = string_views(items@.take(i + 1));
        proof {
            assert(after.drop_last() =~= before);
            assert(after.last() == items@[i as int]@);
        }
        let v = chars_of(items[i].as_str());
        match parse_u64(&v) {
            Some(x) => r.push(x),
            None => {},
        }
        i += 1;
    }
    assert(items@.take(items@.len() as int) =~= items@);
    r
}

/// The column holds no entry reading as role id 0.
pub open spec fn column_has_no_zero(raw: Seq<char>) -> bool {
    match json_string_array(raw) {
        Some(items) => no_zero_ids(items),
        None => true,
    }
}

/// Reads the `admin_role_ids` column: a JSON array of decimal strings.
/// Bad JSON, or entries that are not strings of digits, yield no ids.
/// (A column naming role id 0 is left out: see [`read_admin_role_ids`].)
pub fn parse_admin_role_ids(raw: &str) -> (r: Vec<u64>)
    requires
        column_has_no_zero(raw@),
    ensures
        r@ == admin_role_ids_spec(raw@),
{
    match parse_json_strings(raw) {
        Some(items) => parse_role_id_list(&items),
        None => Vec::new(),
    }
}

/// Reads the `admin_role_ids` column as [`parse_admin_role_ids`] does, or
/// `None` when an entry names role id 0, which is no valid role id.
pub fn read_admin_role_ids(raw: &str) -> (r: Option<Vec<u64>>)
    ensures
        column_has_no_zero(raw@) ==> (r matches Some(v) && v@ == admin_role_ids_spec(raw@)),
        !column_has_no_zero(raw@) ==> r is None,
{
    let acceptable = match parse_json_strings(raw) {
        Some(items) => role_ids_acceptable(&items),
        None => true,
    };
    if acceptable {
        Some(parse_admin_role_ids(raw))
    } else {
        None
    }
}

/// Writes the `admin_role_ids` column: each id as a decimal string, the
/// list as a JSON array (so ids above 2^53 survive JSON readers). Role
/// ids are never 0. The column reads back as `ids`, in order.
pub fn encode_admin_role_ids(ids: &[u64]) -> (r: String)
    requires
        !ids@.contains(0u64),
    ensures
        r@ == json_of_strings(decimal_strings(ids@)),
        column_has_no_zero(r@),
        admin_role_ids_spec(r@) == ids@,
{
    let mut strs: Vec<String> = Vec::new();
    let mut i: usize = 0;
    while i < ids.len()
        invariant
            i <= ids.len(),
            string_views(strs@) == decimal_strings(ids@.take(i as int)),
        decreases ids.len() - i,
    {
        let mut digits: Vec<char> = Vec::new();
        push_decimal(&mut digits, ids[i]);
        let s = string_from_chars(&digits);
        let ghost before = strs@;
        strs.push(s);
        proof {
            assert(digits@ =~= decimal(ids@[i as int] as nat));
            assert(ids@.take(i + 1) =~= ids@.take(i as int).push(ids@[i as int]));
            assert(string_views(strs@) =~= string_views(before).push(decimal(ids@[i as int] as nat)));
            assert(decimal_strings(ids@.take(i + 1)) =~= decimal_strings(ids@.take(i as int)).push(decimal(ids@[i as int] as nat)));
        }
        i += 1;
    }
    assert(ids@.take(ids@.len() as int) =~= ids@);
    let r = json_strings(&strs);
    proof {
        law_admin_role_ids_round_trip(ids@);
        assert forall|k: int| 0 <= k < decimal_strings(ids@).len()
            implies parse_u64_spec(#[trigger] decimal_strings(ids@)[k]) != Some(0u64) by {
            crate::text::law_decimal_parses_back(ids@[k]);
            assert(ids@[k] != 0u64);
        }
    }
    r
}

/// The idle-leave timeout accepted from the dashboard, clamped to [0, 3600].
pub fn clamp_idle_leave_secs(secs: i64) -> (r: i64)
    ensures
        r == if secs < 0 { 0 } else if secs > MAX_IDLE_LEAVE_SECS { MAX_IDLE_LEAVE_SECS } else { secs },
{
    if secs < 0 {
        0
    } else if secs > MAX_IDLE_LEAVE_SECS {
        MAX_IDLE_LEAVE_SECS
    } else {
        secs
    }
}

/// Decimal strings parse back to the ids they were written from.
pub proof fn law_role_ids_parse_back(ids: Seq<u64>)
    ensures
        parse_ids_spec(decimal_strings(ids)) == ids,
    decreases ids.len(),
{
    if ids.len() > 0 {
        law_role_ids_parse_back(ids.drop_last());
        assert(decimal_strings(ids).drop_last() =~= decimal_strings(ids.drop_last()));
        crate::text::law_decimal_parses_back(ids.last());
        assert(ids.drop_last().push(ids.last()) =~= ids);
    } else {
        assert(decimal_strings(ids) =~= Seq::<Seq<char>>::empty());
    }
}

/// Writing admin role ids to the column and reading them back gives the
/// same ids, in order, whenever `serde_json` reads its own output back (as
/// [`parse_json_strings`] promises).
pub proof fn law_admin_role_ids_round_trip(ids: Seq<u64>)
    requires
        json_string_array(json_of_strings(decimal_strings(ids))) == Some(decimal_strings(ids)),
    ensures
        admin_role_ids_spec(json_of_strings(decimal_strings(ids))) == ids,
{
    law_role_ids_parse_back(ids);
}

} // verus!
