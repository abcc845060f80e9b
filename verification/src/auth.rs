//! The authentication layer: credential verification, token issuance, and
//! bearer-token verification for protected requests.
//!
//! The layer is stateless: a login mints a signed token carrying the subject
//! and an expiry one hour ahead, and every protected request presents it in
//! an `Authorization: Bearer <token>` header. The password hash comparison
//! and the token signing and decoding come from outside libraries; their
//! results are named (`bcrypt_accepts`, `jwt_of`, `jwt_claims_of`), not
//! restated, and all the decisions around them are verified. The caller looks the stored
//! hash up in the credential repository and reads the clock; both reach the
//! layer as plain values, so every decision here is checked for every value
//! they could take.

use vstd::prelude::*;

verus! {

use vstd::utf8::encode_utf8;

/// How an authentication operation fails: `Unauthorized` answers a bad
/// credential or a missing, malformed, tampered or expired token; `Internal`
/// a credential-repository failure, which only the shell that queries the
/// repository can observe and map in — no operation of the library itself
/// reports it, since HS256 signing cannot fail.
#[derive(PartialEq, Eq, Structural, Clone, Copy, Debug)]
pub enum AuthError {
    Unauthorized,
    Internal,
}

/// How long a token lives, in seconds past its issuance.
pub const TOKEN_LIFETIME_SECS: u64 = 3600;

/// Whether bcrypt accepts `password` against the stored `hash`: a function
/// of the two strings alone.
pub uninterp spec fn bcrypt_accepts(password: Seq<char>, hash: Seq<char>) -> bool;

/// Relies on bcrypt::verify: re-derives the hash from the password and the
/// hash's own salt and cost, so the outcome is deterministic in the two
/// arguments; a malformed stored hash counts as a mismatch.
#[verifier::external_body]
fn bcrypt_check(password: &str, hash: &str) -> (r: bool)
    ensures
        r == bcrypt_accepts(password@, hash@),
{
    bcrypt::verify(password, hash).unwrap_or(false)
}

/// The signed bearer token carrying subject `sub` and expiry `exp`, signed
/// with `secret`: a function of the three alone.
pub uninterp spec fn jwt_of(sub: Seq<char>, exp: u64, secret: Seq<u8>) -> Seq<char>;

/// The subject and expiry a token carries when the signing library accepts
/// it under `secret` — its format parses, its signature verifies, and the
/// subject and expiry claims are present — `None` otherwise. A function of
/// the token bytes and the secret alone: the clock decides only whether an
/// accepted token is also unexpired, never which claims it carries.
pub uninterp spec fn jwt_claims_of(token: Seq<u8>, secret: Seq<u8>) -> Option<(Seq<char>, u64)>;

/// Relies on jsonwebtoken::encode with the default header (HS256): base64 of
/// header and claims plus an HMAC tag, deterministic in the claims and the
/// secret. With a plain secret key and the default header the signing step
/// cannot fail — the HS256 arm of the library's sign returns the tag
/// directly, and a string-keyed JSON map always serializes — so the result
/// is unwrapped. Decoding the minted token under the same secret gives back
/// exactly these claims.
#[verifier::external_body]
fn jwt_sign(sub: &str, exp: u64, secret: &[u8]) -> (r: String)
    ensures
        r@ == jwt_of(sub@, exp, secret@),
        jwt_claims_of(encode_utf8(r@), secret@) == Some::<(Seq<char>, u64)>((sub@, exp)),
{
    let mut claims = serde_json::Map::new();
    claims.insert("sub".to_string(), serde_json::Value::String(sub.to_string()));
    claims.insert("exp".to_string(), serde_json::Value::from(exp));
    jsonwebtoken::encode(
        &jsonwebtoken::Header::default(),
        &serde_json::Value::Object(claims),
        &jsonwebtoken::EncodingKey::from_secret(secret),
    ).expect("HS256 signing with a secret key cannot fail")
}

/// Relies on jsonwebtoken::decode with the default validation (HS256, expiry
/// required and checked against the real clock). Whether the signature
/// verifies and which claims the token carries depend on the token and the
/// secret alone (`jwt_claims_of`); only the expiry check consults the clock,
/// so success is never promised.
#[verifier::external_body]
fn jwt_decode(token: &Vec<u8>, secret: &[u8]) -> (r: Option<(String, u64)>)
    ensures
        r matches Some(c) ==> jwt_claims_of(token@, secret@) == Some::<(Seq<char>, u64)>(
            (c.0@, c.1),
        ),
        jwt_claims_of(token@, secret@) is None ==> r is None,
{
    let token = core::str::from_utf8(token).ok()?;
    let data = jsonwebtoken::decode::<serde_json::Value>(
        token,
        &jsonwebtoken::DecodingKey::from_secret(secret),
        &jsonwebtoken::Validation::default(),
    ).ok()?;
    let sub = data.claims.get("sub")?.as_str()?.to_string();
    let exp = data.claims.get("exp")?.as_u64()?;
    Some((sub, exp))
}

/// The login step. The caller has looked `username` up in the credential
/// repository and passes the stored hash, or `None` for an unknown user,
/// together with the clock reading `now`. A token is returned exactly when a
/// hash is stored and bcrypt accepts the password against it; an unknown
/// user and a wrong password fail alike, indistinguishably, with
/// `Unauthorized`. The token carries the submitted username as subject and
/// expires exactly `TOKEN_LIFETIME_SECS` after `now`.
pub fn login(
    username: &str,
    password: &str,
    stored_hash: Option<&String>,
    now: u64,
    secret: &[u8],
) -> (r: Result<String, AuthError>)
    requires
        now <= u64::MAX - TOKEN_LIFETIME_SECS,
    ensures
        r is Ok <==> (stored_hash matches Some(h) && bcrypt_accepts(password@, h@)),
        r matches Ok(t) ==> t@ == jwt_of(username@, (now + TOKEN_LIFETIME_SECS) as u64, secret@)
            && jwt_claims_of(encode_utf8(t@), secret@) == Some::<(Seq<char>, u64)>(
            (username@, (now + TOKEN_LIFETIME_SECS) as u64),
        ),
        r is Err ==> r == Err::<String, AuthError>(AuthError::Unauthorized),
{
    match stored_hash {
        None => Err(AuthError::Unauthorized),
        Some(h) => {
            if !bcrypt_check(password, h.as_str()) {
                return Err(AuthError::Unauthorized);
            }
            Ok(jwt_sign(username, now + TOKEN_LIFETIME_SECS, secret))
        },
    }
}

/// The header opens with the seven bytes of `Bearer ` (capital B, one
/// trailing space).
pub open spec fn has_bearer_prefix(h: Seq<u8>) -> bool {
    h.len() >= 7 && h[0] == 66u8 && h[1] == 101u8 && h[2] == 97u8 && h[3] == 114u8 && h[4]
        == 101u8 && h[5] == 114u8 && h[6] == 32u8
}

fn starts_with_bearer(h: &Vec<u8>) -> (r: bool)
    ensures
        r == has_bearer_prefix(h@),
{
    h.len() >= 7 && h[0] == 66u8 && h[1] == 101u8 && h[2] == 97u8 && h[3] == 114u8 && h[4]
        == 101u8 && h[5] == 114u8 && h[6] == 32u8
}

/// The verification step, run before every protected handler. The caller
/// passes the raw bytes of the `Authorization` header, or `None` when the
/// request carries none. A missing header, one without the `Bearer ` prefix,
/// and a remainder the signing library does not accept under `secret` (bad
/// format, tampered signature, missing claims) are all refused; an accepted
/// but expired token is refused too, which the library's clock decides.
/// Every refusal is `Unauthorized`, never `Internal`; on success the subject
/// and expiry handed back are exactly the claims the token verifiably
/// carries, for the router to forward.
pub fn authorize(header: Option<&Vec<u8>>, secret: &[u8]) -> (r: Result<(String, u64), AuthError>)
    ensures
        r is Err ==> r == Err::<(String, u64), AuthError>(AuthError::Unauthorized),
        header is None ==> r is Err,
        header matches Some(h) && !has_bearer_prefix(h@) ==> r is Err,
        header matches Some(h) && has_bearer_prefix(h@) && jwt_claims_of(h@.skip(7), secret@)
            is None ==> r is Err,
        r matches Ok(c) ==> (header matches Some(h) && has_bearer_prefix(h@) && jwt_claims_of(
            h@.skip(7),
            secret@,
        ) == Some::<(Seq<char>, u64)>((c.0@, c.1))),
{
    match header {
        None => Err(AuthError::Unauthorized),
        Some(h) => {
            if !starts_with_bearer(h) {
                return Err(AuthError::Unauthorized);
            }
            let mut token: Vec<u8> = Vec::new();
            let mut i: usize = 7;
            while i < h.len()
                invariant
                    7 <= i <= h@.len(),
                    h@.len() >= 7,
                    token@ == h@.subrange(7, i as int),
                decreases h@.len() - i,
            {
                token.push(h[i]);
                proof {
                    assert(h@.subrange(7, i as int).push(h@[i as int]) =~= h@.subrange(
                        7,
                        i + 1,
                    ));
                }
                i = i + 1;
            }
            proof {
                assert(h@.subrange(7, h@.len() as int) =~= h@.skip(7));
            }
            match jwt_decode(&token, secret) {
                Some(claims) => Ok(claims),
                None => Err(AuthError::Unauthorized),
            }
        },
    }
}

} // verus!
