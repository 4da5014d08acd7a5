//! Web sessions: the `id:token` cookie value, minting a session token
//! whose hash is stored server-side, and checking a presented token
//! against a stored session.

use vstd::prelude::*;
use subtle::ConstantTimeEq;
use rand::RngExt;
use base64::Engine;
use sha2::Digest;
use crate::listing::hex_char;
use crate::text::{append_chars, append_str, chars_of, copy_range, string_from_chars};

verus! {

/// The hex digit that stands at position `k` (0 to 31, most significant
/// first) of the 128-bit value `id`.
pub open spec fn uuid_nibble(id: u128, k: int) -> nat {
    ((id >> ((124 - 4 * k) as u128)) & 15u128) as nat
}

/// Which hex digit of the value the character at position `i` of the
/// hyphenated form shows (hyphens stand at 8, 13, 18 and 23).
pub open spec fn uuid_digit_index(i: int) -> int {
    if i < 8 {
        i
    } else if i < 13 {
        i - 1
    } else if i < 18 {
        i - 2
    } else if i < 23 {
        i - 3
    } else {
        i - 4
    }
}

/// The hyphenated lowercase form of `id`: 32 hex digits, most significant
/// first, in groups of 8, 4, 4, 4 and 12 joined by hyphens.
pub open spec fn uuid_text(id: u128) -> Seq<char> {
    Seq::new(36, |i: int|
        if i == 8 || i == 13 || i == 18 || i == 23 {
            '-'
        } else {
            hex_char(uuid_nibble(id, uuid_digit_index(i)))
        })
}

/// What `uuid::Uuid::parse_str` yields for `s`, as a 128-bit value.
pub uninterp spec fn uuid_parsed(s: Seq<char>) -> Option<u128>;

/// SHA-256 of `data`.
pub uninterp spec fn sha256(data: Seq<u8>) -> Seq<u8>;

/// URL-safe base64 without padding of `data`.
pub uninterp spec fn base64_url(data: Seq<u8>) -> Seq<char>;

/// Decoding of `s` as URL-safe unpadded base64, `None` when invalid.
pub uninterp spec fn base64_url_decoded(s: Seq<char>) -> Option<Seq<u8>>;

/// `uuid::Uuid::from_u128(id).to_string()`: the lowercase hyphenated form
/// [`uuid_text`]. Claimed beyond that: `uuid::Uuid::parse_str` reads this
/// text back as `id`.
#[verifier::external_body]
pub(crate) fn uuid_to_text(id: u128) -> (r: String)
    ensures
        r@ == uuid_text(id),
        uuid_parsed(r@) == Some(id),
{
    uuid::Uuid::from_u128(id).to_string()
}

/// `uuid::Uuid::parse_str(s)` as a 128-bit value, named [`uuid_parsed`].
#[verifier::external_body]
pub(crate) fn parse_uuid(s: &str) -> (r: Option<u128>)
    ensures
        r == uuid_parsed(s@),
{
    match uuid::Uuid::parse_str(s) {
        Ok(u) => Some(u.as_u128()),
        Err(_) => None,
    }
}

/// `uuid::Uuid::new_v4()` as a 128-bit value. Nothing is promised about
/// the value; it comes from the thread RNG.
#[verifier::external_body]
pub(crate) fn random_uuid() -> u128 {
    uuid::Uuid::new_v4().as_u128()
}

/// 32 bytes from `rand::rng()` (`RngExt::fill`). Only the length is promised.
#[verifier::external_body]
fn random_token_bytes() -> (r: Vec<u8>)
    ensures
        r@.len() == 32,
{
    let mut bytes = [0u8; 32];
    rand::rng().fill(&mut bytes);
    bytes.to_vec()
}

/// `sha2::Sha256::digest(data)`: 32 bytes, named [`sha256`].
#[verifier::external_body]
pub(crate) fn sha256_digest(data: &[u8]) -> (r: Vec<u8>)
    ensures
        r@ == sha256(data@),
        r@.len() == 32,
{
    sha2::Sha256::digest(data).to_vec()
}

/// `BASE64_URL_SAFE_NO_PAD.encode(data)`, named [`base64_url`]. Claimed
/// beyond the name: `BASE64_URL_SAFE_NO_PAD.decode` gives `data` back.
#[verifier::external_body]
pub(crate) fn base64_url_encode(data: &[u8]) -> (r: String)
    ensures
        r@ == base64_url(data@),
        base64_url_decoded(r@) == Some(data@),
{
    base64::prelude::BASE64_URL_SAFE_NO_PAD.encode(data)
}

/// The bytes held, if any.
pub open spec fn bytes_of(o: Option<Vec<u8>>) -> Option<Seq<u8>> {
    match o {
        Some(v) => Some(v@),
        None => None,
    }
}

/// `BASE64_URL_SAFE_NO_PAD.decode(s)`, named [`base64_url_decoded`].
#[verifier::external_body]
pub(crate) fn base64_url_decode(s: &str) -> (r: Option<Vec<u8>>)
    ensures
        bytes_of(r) == base64_url_decoded(s@),
{
    base64::prelude::BASE64_URL_SAFE_NO_PAD.decode(s).ok()
}

/// `subtle::ConstantTimeEq::ct_eq` on byte slices, as a `bool`: true
/// exactly when the slices hold the same bytes.
#[verifier::external_body]
pub(crate) fn constant_time_eq(a: &[u8], b: &[u8]) -> (r: bool)
    ensures
        r == (a@ == b@),
{
    a.ct_eq(b).into()
}

/// The parsed value of an `id:token` session cookie.
pub struct AppSessionCookie {
    id: u128,
    token: String,
}

/// Why a session cookie value was rejected.
pub enum CookieError {
    /// No `:` between id and token.
    MissingSeparator,
    /// The part before the first `:` is not a UUID.
    InvalidId,
}

/// Index of the first occurrence of `c` in `s`.
pub open spec fn first_index_of(s: Seq<char>, c: char) -> Option<int> {
    if exists|i: int| 0 <= i < s.len() && s[i] == c {
        Some(choose|i: int| 0 <= i < s.len() && s[i] == c && forall|j: int| 0 <= j < i ==> s[j] != c)
    } else {
        None
    }
}

/// The cookie a value parses to: split at the first `:`, the left side a
/// UUID, the right side the token.
pub open spec fn parse_cookie(s: Seq<char>) -> Result<(u128, Seq<char>), CookieError> {
    match first_index_of(s, ':') {
        None => Err(CookieError::MissingSeparator),
        Some(i) => match uuid_parsed(s.subrange(0, i)) {
            None => Err(CookieError::InvalidId),
            Some(id) => Ok((id, s.subrange(i + 1, s.len() as int))),
        },
    }
}

/// The cookie value written for an id and token.
pub open spec fn cookie_text(id: u128, token: Seq<char>) -> Seq<char> {
    uuid_text(id) + seq![':'] + token
}

proof fn lemma_first_index(s: Seq<char>, c: char, i: int)
    requires
        0 <= i < s.len(),
        s[i] == c,
        forall|j: int| 0 <= j < i ==> s[j] != c,
    ensures
        first_index_of(s, c) == Some(i),
{
    let k = choose|k: int| 0 <= k < s.len() && s[k] == c && forall|j: int| 0 <= j < k ==> s[j] != c;
    if k < i {
        assert(s[k] != c);
    } else if k > i {
        assert(s[i] != c);
    }
}

impl AppSessionCookie {
    /// A cookie for session `id` carrying `token`.
    pub fn new(id: u128, token: String) -> (c: AppSessionCookie)
        ensures
            c.id() == id,
            c.token_view() == token@,
    {
        AppSessionCookie { id, token }
    }

    /// The session id.
    pub closed spec fn id(&self) -> u128 {
        self.id
    }

    /// The token, as characters.
    pub closed spec fn token_view(&self) -> Seq<char> {
        self.token@
    }

    /// The session id.
    pub fn session_id(&self) -> (r: u128)
        ensures
            r == self.id(),
    {
        self.id
    }

    /// The token.
    pub fn token(&self) -> (r: &str)
        ensures
            r@ == self.token_view(),
    {
        self.token.as_str()
    }

    /// Parses a cookie value of the form `id:token` (split at the first `:`).
    pub fn from_cookie_str(cookie_str: &str) -> (r: Result<AppSessionCookie, CookieError>)
        ensures
            match parse_cookie(cookie_str@) {
                Ok((id, token)) => r matches Ok(c) && c.id() == id && c.token_view() == token,
                Err(CookieError::MissingSeparator) => r matches Err(CookieError::MissingSeparator),
                Err(CookieError::InvalidId) => r matches Err(CookieError::InvalidId),
            },
    {
        let v = chars_of(cookie_str);
        let mut i: usize = 0;
        while i < v.len() && v[i] != ':'
            invariant
                i <= v.len(),
                v@ == cookie_str@,
                forall|j: int| 0 <= j < i ==> v@[j] != ':',
            decreases v.len() - i,
        {
            i += 1;
        }
        if i == v.len() {
            assert(first_index_of(cookie_str@, ':') is None);
            return Err(CookieError::MissingSeparator);
        }
        proof { lemma_first_index(cookie_str@, ':', i as int); }
        let id_chars = copy_range(&v, 0, i);
        let id_text = string_from_chars(&id_chars);
        match parse_uuid(id_text.as_str()) {
            None => Err(CookieError::InvalidId),
            Some(id) => {
                let token_chars = copy_range(&v, i + 1, v.len());
                Ok(AppSessionCookie { id, token: string_from_chars(&token_chars) })
            },
        }
    }

    /// The cookie value, `id:token`, with the id in hyphenated form.
    pub fn to_cookie_value(&self) -> (r: String)
        ensures
            r@ == cookie_text(self.id(), self.token_view()),
            parse_cookie(r@) == Ok::<(u128, Seq<char>), CookieError>((self.id(), self.token_view())),
    {
        let id_text = uuid_to_text(self.id);
        proof { law_cookie_round_trip(self.id, self.token@); }
        let mut out: Vec<char> = Vec::new();
        append_str(&mut out, id_text.as_str());
        out.push(':');
        append_str(&mut out, self.token.as_str());
        string_from_chars(&out)
    }
}

/// Writing a cookie value and parsing it back gives the same id and token,
/// whatever the token holds.
pub proof fn law_cookie_round_trip(id: u128, token: Seq<char>)
    requires
        uuid_parsed(uuid_text(id)) == Some(id),
    ensures
        parse_cookie(cookie_text(id, token)) == Ok::<(u128, Seq<char>), CookieError>((id, token)),
{
    let s = cookie_text(id, token);
    assert forall|j: int| 0 <= j < 36 implies s[j] != ':' by {
        assert(s[j] == uuid_text(id)[j]);
        let x: u128 = id >> ((124 - 4 * uuid_digit_index(j)) as u128);
        assert(x & 15u128 <= 15u128) by (bit_vector);
    }
    assert(s[36] == ':');
    lemma_first_index(s, ':', 36);
    assert(s.subrange(0, 36) =~= uuid_text(id));
    assert(s.subrange(37, s.len() as int) =~= token);
}


/// How long a session stays valid, in milliseconds (14 days).
pub const SESSION_VALID_MS: i64 = 1_209_600_000;

/// A stored session; times are milliseconds since the Unix epoch.
pub struct AppSession {
    pub id: u128,
    pub hashed_token: Vec<u8>,
    pub user_id: u128,
    pub user_agent: String,
    pub ip: String,
    pub created_at: i64,
    pub expires_at: i64,
}

/// Why a presented session token was refused.
pub enum SessionRejection {
    /// The session's expiry lies in the past.
    Expired,
    /// The token is not valid URL-safe base64.
    MalformedToken,
    /// The token does not hash to the stored hash.
    TokenMismatch,
}

/// The verdict on presenting `token` at `now` for a session with the
/// given stored hash and expiry.
pub open spec fn session_check(hashed_token: Seq<u8>, expires_at: i64, now: i64, token: Seq<char>) -> Result<(), SessionRejection> {
    if expires_at < now {
        Err(SessionRejection::Expired)
    } else {
        match base64_url_decoded(token) {
            None => Err(SessionRejection::MalformedToken),
            Some(bytes) => if sha256(bytes) == hashed_token {
                Ok(())
            } else {
                Err(SessionRejection::TokenMismatch)
            },
        }
    }
}

impl AppSession {
    /// The session with id `id` for `user_id` at `now` whose token is made of
    /// `bytes`: only their SHA-256 is kept, the client gets their URL-safe
    /// base64, and the session expires 14 days out.
    pub fn from_token_bytes(id: u128, bytes: &[u8], user_id: u128, user_agent: String, ip: String, now: i64) -> (r: (AppSession, String))
        requires
            now <= i64::MAX - SESSION_VALID_MS,
        ensures
            r.0.id == id,
            r.0.user_id == user_id,
            r.0.user_agent@ == user_agent@,
            r.0.ip@ == ip@,
            r.0.created_at == now,
            r.0.expires_at == now + SESSION_VALID_MS,
            r.0.hashed_token@ == sha256(bytes@),
            r.1@ == base64_url(bytes@),
            base64_url_decoded(r.1@) == Some(bytes@),
            forall|t: i64| t <= r.0.expires_at ==> session_check(r.0.hashed_token@, r.0.expires_at, t, r.1@) == Ok::<(), SessionRejection>(()),
    {
        let hashed_token = sha256_digest(bytes);
        let token = base64_url_encode(bytes);
        let session = AppSession {
            id,
            hashed_token,
            user_id,
            user_agent,
            ip,
            created_at: now,
            expires_at: now + SESSION_VALID_MS,
        };
        proof {
            assert forall|t: i64| t <= session.expires_at implies session_check(session.hashed_token@, session.expires_at, t, token@) == Ok::<(), SessionRejection>(()) by {
                law_minted_token_authenticates(bytes@, session.expires_at, t);
            }
        }
        (session, token)
    }

    /// Mints a session for `user_id` at `now`: a fresh random id and 32
    /// random token bytes, made into a session by [`Self::from_token_bytes`].
    /// Returns the session and the token as handed to the client.
    pub fn new(user_id: u128, user_agent: String, ip: String, now: i64) -> (r: (AppSession, String))
        requires
            now <= i64::MAX - SESSION_VALID_MS,
        ensures
            r.0.user_id == user_id,
            r.0.user_agent@ == user_agent@,
            r.0.ip@ == ip@,
            r.0.created_at == now,
            r.0.expires_at == now + SESSION_VALID_MS,
            exists|bytes: Seq<u8>|
                bytes.len() == 32 && r.1@ == base64_url(bytes) && r.0.hashed_token@ == sha256(bytes)
                    && base64_url_decoded(r.1@) == Some(bytes),
            forall|t: i64| t <= r.0.expires_at ==> session_check(r.0.hashed_token@, r.0.expires_at, t, r.1@) == Ok::<(), SessionRejection>(()),
    {
        let bytes = random_token_bytes();
        let id = random_uuid();
        Self::from_token_bytes(id, bytes.as_slice(), user_id, user_agent, ip, now)
    }

    /// Checks a presented token at `now`: the session must not have expired,
    /// and the token must decode and hash to the stored hash (compared in
    /// constant time).
    pub fn authenticate(&self, token: &str, now: i64) -> (r: Result<(), SessionRejection>)
        ensures
            r == session_check(self.hashed_token@, self.expires_at, now, token@),
    {
        if self.expires_at < now {
            return Err(SessionRejection::Expired);
        }
        match base64_url_decode(token) {
            None => Err(SessionRejection::MalformedToken),
            Some(bytes) => {
                let hash = sha256_digest(bytes.as_slice());
                if constant_time_eq(self.hashed_token.as_slice(), hash.as_slice()) {
                    Ok(())
                } else {
                    Err(SessionRejection::TokenMismatch)
                }
            },
        }
    }
}

/// A token minted for a session authenticates against that session until
/// it expires (base64 decoding undoing encoding, as the decoder promises).
pub proof fn law_minted_token_authenticates(bytes: Seq<u8>, expires_at: i64, now: i64)
    requires
        base64_url_decoded(base64_url(bytes)) == Some(bytes),
        now <= expires_at,
    ensures
        session_check(sha256(bytes), expires_at, now, base64_url(bytes)) == Ok::<(), SessionRejection>(()),
{
}

/// An expired session refuses every token.
pub proof fn law_expired_session_refuses(hashed_token: Seq<u8>, expires_at: i64, now: i64, token: Seq<char>)
    requires
        expires_at < now,
    ensures
        session_check(hashed_token, expires_at, now, token) == Err::<(), SessionRejection>(SessionRejection::Expired),
{
}
} // verus!
