//! Token claims and extraction of the bearer token.
use vstd::prelude::*;

use vstd::string::StringExecFns;

use crate::server::HttpStatus;
use crate::text::{chars_of, copy_range, string_of};

verus! {

broadcast use vstd::string::group_string_axioms;

/// Issuer written into and required of every token.
pub open spec fn issuer() -> Seq<char> {
    "vellum-api"@
}

/// How long a token stays valid, in seconds (24 hours).
pub const EXPIRY_SECS: i64 = 86400;

/// The claims of an access token; `sub` is the user's UUID as a number.
pub struct Claims {
    pub sub: u128,
    pub username: String,
    pub iss: String,
    pub exp: i64,
}

/// The secret that signs tokens.
pub struct JwtSecret(pub String);

/// The claims issued to a user at time `now` (Unix seconds): issuer
/// `vellum-api`, expiring 24 hours later.
pub fn token_claims(user_id: u128, username: &str, now: i64) -> (c: Claims)
    requires
        now <= i64::MAX - EXPIRY_SECS,
    ensures
        c.sub == user_id,
        c.username@ == username@,
        c.iss@ == issuer(),
        c.exp == now + EXPIRY_SECS,
{
    Claims {
        sub: user_id,
        username: String::from_str(username),
        iss: String::from_str("vellum-api"),
        exp: now + EXPIRY_SECS,
    }
}

/// The token in an `authorization` header of the form `Bearer <token>`;
/// `Unauthorized` when the header is missing or has another form.
pub fn bearer_token(header: Option<&str>) -> (res: Result<String, HttpStatus>)
    ensures
        header is None ==> res == Err::<String, HttpStatus>(HttpStatus::Unauthorized),
        header matches Some(h) ==> {
            let p = "Bearer "@;
            &&& (p.len() <= h@.len() && h@.subrange(0, p.len() as int) == p) ==> (res matches Ok(
                t,
            ) && t@ == h@.subrange(p.len() as int, h@.len() as int))
            &&& !(p.len() <= h@.len() && h@.subrange(0, p.len() as int) == p) ==> res
                == Err::<String, HttpStatus>(HttpStatus::Unauthorized)
        },
{
    match header {
        None => Err(HttpStatus::Unauthorized),
        Some(h) => {
            let hc = chars_of(h);
            let pc = chars_of("Bearer ");
            let mut i: usize = 0;
            if pc.len() > hc.len() {
                return Err(HttpStatus::Unauthorized);
            }
            while i < pc.len()
                invariant
                    header == Some(h),
                    hc@ == h@,
                    pc@ == "Bearer "@,
                    pc@.len() <= hc@.len(),
                    i <= pc@.len(),
                    forall|k: int| 0 <= k < i ==> hc@[k] == pc@[k],
                decreases pc@.len() - i,
            {
                if hc[i] != pc[i] {
                    assert(hc@.subrange(0, pc@.len() as int)[i as int] != pc@[i as int]);
                    return Err(HttpStatus::Unauthorized);
                }
                i += 1;
            }
            assert(hc@.subrange(0, pc@.len() as int) =~= pc@);
            let rest = copy_range(hc.as_slice(), pc.len(), hc.len());
            Ok(string_of(rest.as_slice()))
        },
    }
}

} // verus!
