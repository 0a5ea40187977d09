//! The enforcement point: extracting a token from a request, and turning
//! a token plus a permission requirement into an allow/deny decision.
//!
//! The `Authorization: Bearer` header takes precedence over the
//! `auth_token` cookie.  Authentication always runs first; permissions
//! are looked up only for an authenticated caller.

use vstd::prelude::*;

use crate::claims::Claims;
use crate::errors::ServiceError;
use crate::store::UserStore;
use crate::token::validate;
use crate::token::validate_model;
use crate::token::TokenConfig;
use crate::uuidfmt::parse_uuid;
use crate::uuidfmt::uuid_str;
use vstd::string::StrSliceExecFns;

verus! {

/// `Bearer ` — what an Authorization header must start with.
pub open spec fn bearer_prefix() -> Seq<char> {
    seq!['B', 'e', 'a', 'r', 'e', 'r', ' ']
}

/// The raw token a request carries: the Bearer token of the Authorization
/// header when that header is present and well-formed, else the cookie
/// value.  `None` means "anonymous" — an absent token is not an error.
pub open spec fn extract_model(h: Option<Seq<char>>, cookie: Option<Seq<char>>) -> Option<
    Seq<char>,
> {
    match h {
        Some(hs) => if hs.len() >= 7 && hs.subrange(0, 7) == bearer_prefix() {
            Some(hs.skip(7))
        } else {
            cookie
        },
        None => cookie,
    }
}

/// Extracts the raw token from the Authorization header value and/or the
/// `auth_token` cookie value; the header takes precedence.
pub fn extract_token(authorization: Option<&String>, cookie: Option<&String>) -> (r: Option<
    String,
>)
    ensures
        ({
            let m = extract_model(
                match authorization {
                    Some(h) => Some(h@),
                    None => None,
                },
                match cookie {
                    Some(c) => Some(c@),
                    None => None,
                },
            );
            match r {
                Some(s) => m matches Some(ms) && ms == s@,
                None => m is None,
            }
        }),
{
    match authorization {
        Some(h) => {
            let len = h.as_str().unicode_len();
            if len >= 7 && h.as_str().get_char(0) == 'B' && h.as_str().get_char(1) == 'e'
                && h.as_str().get_char(2) == 'a' && h.as_str().get_char(3) == 'r'
                && h.as_str().get_char(4) == 'e' && h.as_str().get_char(5) == 'r'
                && h.as_str().get_char(6) == ' ' {
                proof {
                    assert(h@.subrange(0, 7) =~= bearer_prefix());
                }
                let t = h.as_str().substring_char(7, len).to_owned();
                proof {
                    assert(t@ =~= h@.skip(7));
                }
                Some(t)
            } else {
                proof {
                    if h@.len() >= 7 && h@.subrange(0, 7) == bearer_prefix() {
                        assert(h@[0] == 'B' && h@[1] == 'e' && h@[2] == 'a' && h@[3] == 'r'
                            && h@[4] == 'e' && h@[5] == 'r' && h@[6] == ' ');
                    }
                }
                match cookie {
                    Some(c) => Some(c.clone()),
                    None => None,
                }
            }
        },
        None => match cookie {
            Some(c) => Some(c.clone()),
            None => None,
        },
    }
}

/// A reusable gate around a protected operation, carrying the names of
/// the permissions the operation requires (none means "any authenticated
/// user").
pub struct AuthMiddleware {
    pub required_permissions: Vec<String>,
}

impl AuthMiddleware {
    /// A gate requiring the given permissions.
    pub fn new(required_permissions: Vec<String>) -> (g: AuthMiddleware)
        ensures
            g.required_permissions == required_permissions,
    {
        AuthMiddleware { required_permissions }
    }

    /// Whether `uid` holds every permission this gate requires.
    pub open spec fn permitted(&self, store: &UserStore, uid: u128) -> bool {
        forall|k: int|
            0 <= k < self.required_permissions@.len() ==> store.user_has_perm(
                uid,
                (#[trigger] self.required_permissions@[k])@,
            )
    }

    /// Applies the policy: extract, authenticate, then (only for an
    /// authenticated caller) look up permissions.  No token or an invalid
    /// one is `Unauthorized`; a valid token lacking a required permission
    /// is `Forbidden`, never `Unauthorized`; a valid token whose subject
    /// holds every required permission always proceeds with the validated
    /// claim set.
    #[verifier::loop_isolation(false)]
    pub fn authorize(
        &self,
        store: &UserStore,
        authorization: Option<&String>,
        cookie: Option<&String>,
        cfg: &TokenConfig,
        now: u64,
    ) -> (r: Result<Claims, ServiceError>)
        ensures
            ({
                let tok = extract_model(
                    match authorization {
                        Some(h) => Some(h@),
                        None => None,
                    },
                    match cookie {
                        Some(c) => Some(c@),
                        None => None,
                    },
                );
                let outcome = match tok {
                    Some(ts) => validate_model(
                        ts,
                        cfg.secret@,
                        now,
                        cfg.required_issuer(),
                        cfg.required_audience(),
                    ),
                    None => Err(crate::token::AuthError::Malformed),
                };
                &&& (tok is None ==> r matches Err(ServiceError::Unauthorized(_)))
                &&& (outcome is Err ==> r matches Err(ServiceError::Unauthorized(_)))
                &&& (r matches Ok(c) ==> {
                    &&& tok is Some && outcome == Ok::<
                        crate::claims::ClaimsView,
                        crate::token::AuthError,
                    >(c@)
                    &&& exists|id: u128| c.sub@ == uuid_str(id) && self.permitted(store, id)
                })
                &&& (r matches Err(e) ==> (e matches ServiceError::Unauthorized(_) || e matches
                    ServiceError::Forbidden(_)))
                &&& (r matches Err(ServiceError::Forbidden(_)) ==> (outcome matches Ok(cv)
                    && exists|id: u128| cv.sub == uuid_str(id) && !self.permitted(store, id)))
                &&& ((outcome matches Ok(cv) && (exists|id: u128|
                    cv.sub == uuid_str(id) && self.permitted(store, id))) ==> (r matches Ok(c)
                    && outcome == Ok::<crate::claims::ClaimsView, crate::token::AuthError>(c@)))
                &&& ((outcome matches Ok(cv) && (exists|id: u128|
                    cv.sub == uuid_str(id) && !self.permitted(store, id))) ==> r matches Err(
                    ServiceError::Forbidden(_),
                ))
            }),
    {
        let tok = match extract_token(authorization, cookie) {
            Some(t) => t,
            None => {
                return Err(
                    ServiceError::Unauthorized(String::from_str("Missing or invalid token")),
                );
            },
        };
        let claims = match validate(tok.as_str(), cfg, now) {
            Ok(c) => c,
            Err(_) => {
                return Err(
                    ServiceError::Unauthorized(String::from_str("Missing or invalid token")),
                );
            },
        };
        // authenticated; resolve the subject before any permission lookup
        let uid = match parse_uuid(claims.sub.as_str()) {
            Some(id) => id,
            None => {
                return Err(
                    ServiceError::Unauthorized(String::from_str("Invalid user id in token")),
                );
            },
        };
        let n = self.required_permissions.len();
        let mut k: usize = 0;
        while k < n
            invariant
                0 <= k <= n,
                n == self.required_permissions@.len(),
                forall|j: int|
                    0 <= j < k ==> store.user_has_perm(
                        uid,
                        (#[trigger] self.required_permissions@[j])@,
                    ),
            decreases n - k,
        {
            if !store.has_permission(uid, self.required_permissions[k].as_str()) {
                proof {
                    assert(!self.permitted(store, uid));
                    assert(claims.sub@ == uuid_str(uid));
                    assert forall|id: u128| claims.sub@ == uuid_str(id) implies id == uid by {
                        assert(uuid_str(id) == uuid_str(uid));
                        crate::uuidfmt::lemma_uuid_str_injective(id, uid);
                    }
                }
                return Err(
                    ServiceError::Forbidden(String::from_str("Missing required permission.")),
                );
            }
            k = k + 1;
        }
        Ok(claims)
    }
}

} // verus!
