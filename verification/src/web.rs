//! Decisions of the web panel: logins and password changes.
use vstd::prelude::*;

use crate::config::{hashable, password_matches, Config};

verus! {

/// `200 OK`.
pub const STATUS_OK: u16 = 200;

/// `400 Bad Request`.
pub const STATUS_BAD_REQUEST: u16 = 400;

/// `401 Unauthorized`.
pub const STATUS_UNAUTHORIZED: u16 = 401;

/// `500 Internal Server Error`.
pub const STATUS_INTERNAL_ERROR: u16 = 500;

/// The cookie that carries the login token.
pub const TOKEN_COOKIE: &'static str = "token";

/// A password change: refused with `400` when the new password is empty; otherwise the hash
/// to store, which the new password logs in against, or `500` when the password is too long
/// for Argon2 to hash (see [`hashable`]).
pub fn change_password_request(new_password: &str) -> (r: Result<String, u16>)
    ensures
        new_password@.len() == 0 <==> (r matches Err(c) && c == STATUS_BAD_REQUEST),
        r matches Ok(h) ==> password_matches(Some(h@), new_password@),
        r is Ok <==> (new_password@.len() > 0 && hashable(new_password@)),
        (r matches Err(c) && c == STATUS_INTERNAL_ERROR) <==> (new_password@.len() > 0
            && !hashable(new_password@)),
        r matches Err(c) ==> c == STATUS_BAD_REQUEST || c == STATUS_INTERNAL_ERROR,
{
    if new_password.is_empty() {
        return Err(STATUS_BAD_REQUEST);
    }
    match Config::set_password(new_password) {
        Ok(h) => Ok(h),
        Err(_) => Err(STATUS_INTERNAL_ERROR),
    }
}

/// The status of a login attempt: `200` when `password` matches the stored hash, else `401`.
pub fn login_status(stored: Option<&str>, password: &str) -> (s: u16)
    ensures
        s == if password_matches(match stored {
            Some(h) => Some(h@),
            None => None,
        }, password@) {
            STATUS_OK
        } else {
            STATUS_UNAUTHORIZED
        },
{
    if Config::verify_password(stored, password) {
        STATUS_OK
    } else {
        STATUS_UNAUTHORIZED
    }
}

/// Seconds a login token stays valid: a day.
pub const SESSION_SECS: u64 = 86400;

/// The token `jsonwebtoken::encode` makes with the default header (HS256), the claims
/// `{"exp": exp}` and the HMAC key made of the bytes of `secret`.
pub uninterp spec fn jwt_hs256(secret: Seq<char>, exp: u64) -> Seq<char>;

/// `jsonwebtoken::encode(&Header::default(), {"exp": exp}, &EncodingKey::from_secret(secret))`.
/// Claimed: it succeeds (the header's HS256 is of the key's HMAC family, and serialising the
/// header and a one-member map cannot fail) and gives [`jwt_hs256`], which is deterministic:
/// base64url of the JSON header and claims, and of their HMAC-SHA256.
#[verifier::external_body]
fn session_token(secret: &str, exp: u64) -> (t: Option<String>)
    ensures
        t is Some,
        t matches Some(s) ==> s@ == jwt_hs256(secret@, exp),
{
    let claims = std::collections::BTreeMap::from([("exp", exp)]);
    let key = jsonwebtoken::EncodingKey::from_secret(secret.as_bytes());
    jsonwebtoken::encode(&jsonwebtoken::Header::default(), &claims, &key).ok()
}

/// A login at `now_secs` (seconds since the epoch): `401` when `password` does not match the
/// stored hash; otherwise the token signed with `secret` that expires a day later.
pub fn login_outcome(stored: Option<&str>, password: &str, secret: &str, now_secs: u64) -> (r: Result<String, u16>)
    requires
        now_secs <= u64::MAX - SESSION_SECS,
    ensures
        !password_matches(match stored {
            Some(h) => Some(h@),
            None => None,
        }, password@) ==> r == Err::<String, u16>(STATUS_UNAUTHORIZED),
        password_matches(match stored {
            Some(h) => Some(h@),
            None => None,
        }, password@) ==> (r matches Ok(t) && t@ == jwt_hs256(secret@, (now_secs + SESSION_SECS) as u64)),
{
    if login_status(stored, password) != STATUS_OK {
        return Err(STATUS_UNAUTHORIZED);
    }
    match session_token(secret, now_secs + SESSION_SECS) {
        Some(t) => Ok(t),
        None => Err(STATUS_INTERNAL_ERROR),
    }
}

} // verus!
