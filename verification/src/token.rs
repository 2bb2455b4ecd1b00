//! Signed, time-bound identity assertions.
//!
//! A token carries a subject (the user id as a decimal string) and an
//! absolute expiry timestamp, signed with a server-held shared secret.
//! Signing and signature checking are done by the `jsonwebtoken` crate;
//! the expiry comparison itself is made by this library's middleware, not
//! taken on trust.

use vstd::prelude::*;

verus! {

/// The claims a token carries: the subject (a user id rendered in
/// decimal) and the absolute expiry time, in seconds.
pub struct Claims {
    pub sub: String,
    pub exp: u64,
}

/// The compact signed token that encoding claims `(sub, exp)` under
/// `secret` yields; HMAC signing with a fixed header makes it a function
/// of the three alone.
pub uninterp spec fn jwt_of(sub: Seq<char>, exp: u64, secret: Seq<u8>) -> Seq<char>;

/// The claims recovered from `token` when its signature checks out under
/// `secret` and its payload carries a string `sub` and an integral `exp`;
/// `None` otherwise. Decoding is a function of token and secret alone.
pub uninterp spec fn decoded_claims(token: Seq<char>, secret: Seq<u8>) -> Option<(Seq<char>, u64)>;

/// Relies on `jsonwebtoken::encode` with the default (HS256) header: the
/// token it returns is determined by the claims and the secret, and
/// `jsonwebtoken::decode` with the same secret recovers exactly the
/// claims that were encoded.
#[verifier::external_body]
pub fn encode_token(sub: &str, exp: u64, secret: &[u8]) -> (r: String)
    ensures
        r@ == jwt_of(sub@, exp, secret@),
        decoded_claims(r@, secret@) == Some((sub@, exp)),
{
    let mut claims = serde_json::Map::new();
    claims.insert("sub".to_string(), serde_json::Value::String(sub.to_string()));
    claims.insert("exp".to_string(), serde_json::Value::Number(serde_json::Number::from(exp)));
    jsonwebtoken::encode(
        &jsonwebtoken::Header::default(),
        &serde_json::Value::Object(claims),
        &jsonwebtoken::EncodingKey::from_secret(secret),
    )
    .unwrap()
}

/// Relies on `jsonwebtoken::decode` restricted to HS256 signature
/// checking alone (no claim validation): it succeeds exactly on a token
/// signed with `secret`, and hands back the `sub` and `exp` claims of its
/// payload when both are present with those types.
#[verifier::external_body]
pub fn decode_token(token: &str, secret: &[u8]) -> (r: Option<Claims>)
    ensures
        r is Some <==> decoded_claims(token@, secret@) is Some,
        r matches Some(c) ==> decoded_claims(token@, secret@) == Some((c.sub@, c.exp)),
{
    let mut validation = jsonwebtoken::Validation::new(jsonwebtoken::Algorithm::HS256);
    validation.validate_exp = false;
    validation.validate_aud = false;
    validation.required_spec_claims.clear();
    let key = jsonwebtoken::DecodingKey::from_secret(secret);
    let data = jsonwebtoken::decode::<serde_json::Value>(token, &key, &validation).ok()?;
    let sub = data.claims.get("sub")?.as_str()?.to_string();
    let exp = data.claims.get("exp")?.as_u64()?;
    Some(Claims { sub, exp })
}

} // verus!
