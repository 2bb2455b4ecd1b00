//! The access-control check for protected routes.
//!
//! A pure function of the `Authorization` header value, the shared
//! secret and the current time: it demands the exact `"Bearer "` prefix,
//! a token whose signature checks out under the secret, and an expiry
//! strictly in the future, and hands back the verified subject.

use crate::errors::ApiError;
use crate::token::decoded_claims;
use vstd::prelude::*;
use vstd::string::StrSliceExecFns;

verus! {

/// The seven characters every bearer header must start with.
pub open spec fn bearer_prefix() -> Seq<char> {
    seq!['B', 'e', 'a', 'r', 'e', 'r', ' ']
}

/// What the middleware decides, as a function of the header value, the
/// secret and the current time: `Ok` with the token's subject exactly
/// when the header is present, carries the `"Bearer "` prefix, the token
/// decodes under the secret, and its expiry lies strictly after `now`.
pub open spec fn auth_spec(header: Option<Seq<char>>, secret: Seq<u8>, now: u64) -> Result<
    Seq<char>,
    ApiError,
> {
    match header {
        None => Err(ApiError::Unauthorized),
        Some(h) => {
            if h.len() < 7 || h.subrange(0, 7) != bearer_prefix() {
                Err(ApiError::Unauthorized)
            } else {
                match decoded_claims(h.subrange(7, h.len() as int), secret) {
                    None => Err(ApiError::Unauthorized),
                    Some((sub, exp)) => if exp > now {
                        Ok(sub)
                    } else {
                        Err(ApiError::Unauthorized)
                    },
                }
            }
        },
    }
}

/// The view of an optional header string.
pub open spec fn header_view(header: Option<&str>) -> Option<Seq<char>> {
    match header {
        None => None,
        Some(h) => Some(h@),
    }
}

/// Extracts and verifies the bearer token of one request, returning the
/// authenticated subject or `Unauthorized`, exactly as `auth_spec` says.
pub fn auth_middleware(header: Option<&str>, secret: &[u8], now: u64) -> (r: Result<
    String,
    ApiError,
>)
    ensures
        r matches Ok(sub) ==> auth_spec(header_view(header), secret@, now) == Ok::<
            Seq<char>,
            ApiError,
        >(sub@),
        r matches Err(e) ==> auth_spec(header_view(header), secret@, now) == Err::<
            Seq<char>,
            ApiError,
        >(e),
{
    let h = match header {
        None => { return Err(ApiError::Unauthorized); },
        Some(h) => h,
    };
    let len = h.unicode_len();
    if len < 7 {
        return Err(ApiError::Unauthorized);
    }
    let prefix_ok = h.get_char(0) == 'B' && h.get_char(1) == 'e' && h.get_char(2) == 'a'
        && h.get_char(3) == 'r' && h.get_char(4) == 'e' && h.get_char(5) == 'r' && h.get_char(6)
        == ' ';
    if !prefix_ok {
        proof {
            assert(h@.subrange(0, 7) != bearer_prefix()) by {
                if h@.subrange(0, 7) == bearer_prefix() {
                    assert(h@[0] == bearer_prefix()[0]);
                    assert(h@[1] == bearer_prefix()[1]);
                    assert(h@[2] == bearer_prefix()[2]);
                    assert(h@[3] == bearer_prefix()[3]);
                    assert(h@[4] == bearer_prefix()[4]);
                    assert(h@[5] == bearer_prefix()[5]);
                    assert(h@[6] == bearer_prefix()[6]);
                }
            }
        }
        return Err(ApiError::Unauthorized);
    }
    proof {
        assert(h@.subrange(0, 7) =~= bearer_prefix());
    }
    let token = h.substring_char(7, len);
    let claims = match crate::token::decode_token(token, secret) {
        None => { return Err(ApiError::Unauthorized); },
        Some(claims) => claims,
    };
    if claims.exp > now {
        Ok(claims.sub)
    } else {
        Err(ApiError::Unauthorized)
    }
}

/// A token carrying an expiry at or before `now` is rejected, and so is
/// any token whose signature does not check out — whatever else the
/// header holds after the `"Bearer "` prefix.
pub proof fn lemma_stale_or_unsigned_token_rejected(
    token: Seq<char>,
    secret: Seq<u8>,
    now: u64,
)
    requires
        match decoded_claims(token, secret) {
            Some((sub, exp)) => exp <= now,
            None => true,
        },
    ensures
        auth_spec(Some(bearer_prefix() + token), secret, now) == Err::<Seq<char>, ApiError>(
            ApiError::Unauthorized,
        ),
{
    let h = bearer_prefix() + token;
    assert(h.subrange(0, 7) =~= bearer_prefix());
    assert(h.subrange(7, h.len() as int) =~= token);
}

} // verus!
