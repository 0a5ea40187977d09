//! Registration and login: the two flows that turn credentials into a
//! stored identity and a signed token.
//!
//! Registration validates the input shape, lets the store arbitrate
//! uniqueness, hashes the password, and signs the token *before* the row
//! is inserted, so a signing failure never leaves a half-created user.
//! Login looks the user up, verifies the password and signs a fresh
//! token; an unknown username and a wrong password yield one and the same
//! error.

use vstd::prelude::*;

use crate::errors::ServiceError;
use crate::hashing::hash_password;
use crate::hashing::password_matches;
use crate::hashing::verify_password;
use crate::store::has_email;
use crate::store::has_id;
use crate::store::has_username;
use crate::store::NewUser;
use crate::store::StoreError;
use crate::store::User;
use crate::store::UserStore;
use crate::textutil::all_ascii;
use crate::textutil::ascii_bytes_of;
use crate::token::issue;
use crate::token::issued_claims;
use crate::token::token_bytes;
use crate::token::validate_model;
use crate::token::AuthError;
use crate::token::TokenConfig;
use crate::uuidfmt::format_uuid;
use crate::uuidfmt::uuid_str;
use crate::validation::valid_email;
use crate::validation::valid_password;
use crate::validation::valid_username;
use crate::validation::validate_email;
use crate::validation::validate_password;
use crate::validation::validate_username;

verus! {

/// All three input-shape rules hold.
pub open spec fn valid_registration(
    username: Seq<char>,
    email: Seq<char>,
    password: Seq<char>,
) -> bool {
    valid_username(username) && valid_email(email) && valid_password(password)
}

/// What a successful registration or login answers: the identity without
/// its password hash, and the signed token.
#[derive(Debug)]
pub struct AuthResponse {
    pub id: u128,
    pub username: String,
    pub email: String,
    pub created_at: u64,
    pub token: String,
}

/// Whether `username`/`password` authenticate against the store: some
/// stored user carries the username and the password verifies against
/// that user's stored hash.
pub open spec fn login_auth(s: &UserStore, username: Seq<char>, password: Seq<char>) -> bool {
    exists|i: int|
        0 <= i < s.users@.len() && (#[trigger] s.users@[i]).username@ == username
            && password_matches(password, s.users@[i].password@)
}

/// Registers a new user: validates the input shape, rejects duplicates,
/// hashes the password, signs the token, and only then inserts the row —
/// a failure anywhere leaves the store exactly as it was.  With valid
/// fresh input the only thing that can still fail is the hashing
/// backend's salt generation or derivation.
pub fn register(
    store: &mut UserStore,
    username: &str,
    email: &str,
    password: &str,
    id: u128,
    now: u64,
    cfg: &TokenConfig,
) -> (r: Result<AuthResponse, ServiceError>)
    requires
        now + cfg.exp_secs <= u64::MAX,
    ensures
        final(store).groups == old(store).groups,
        final(store).permissions == old(store).permissions,
        final(store).user_groups == old(store).user_groups,
        final(store).group_permissions == old(store).group_permissions,
        old(store).wf() ==> final(store).wf(),
        r is Err ==> final(store).users == old(store).users,
        r matches Err(ServiceError::ValidationError(_)) <==> !valid_registration(
            username@,
            email@,
            password@,
        ),
        r matches Err(ServiceError::Conflict(_)) ==> (has_username(old(store).users@, username@)
            || has_email(old(store).users@, email@) || has_id(old(store).users@, id)),
        (valid_registration(username@, email@, password@) && (has_username(
            old(store).users@,
            username@,
        ) || has_email(old(store).users@, email@))) ==> r matches Err(ServiceError::Conflict(_)),
        r is Err ==> (r matches Err(ServiceError::ValidationError(_)) || r matches Err(
            ServiceError::Conflict(_),
        ) || r matches Err(ServiceError::HashingError(_))),
        (valid_registration(username@, email@, password@) && !has_username(
            old(store).users@,
            username@,
        ) && !has_email(old(store).users@, email@) && has_id(old(store).users@, id)) ==> (r
            matches Err(ServiceError::Conflict(_)) || r matches Err(
            ServiceError::HashingError(_),
        )),
        (valid_registration(username@, email@, password@) && !has_username(
            old(store).users@,
            username@,
        ) && !has_email(old(store).users@, email@) && !has_id(old(store).users@, id)) ==> (r is Ok
            || r matches Err(ServiceError::HashingError(_))),
        r matches Ok(p) ==> {
            &&& valid_registration(username@, email@, password@)
            &&& !has_username(old(store).users@, username@)
            &&& !has_email(old(store).users@, email@)
            &&& !has_id(old(store).users@, id)
            &&& p.id == id
            &&& p.username@ == username@
            &&& p.email@ == email@
            &&& p.created_at == now
            &&& all_ascii(p.token@)
            &&& ascii_bytes_of(p.token@) == token_bytes(
                issued_claims(uuid_str(id), now, cfg),
                cfg.secret@,
            )
            &&& exists|u: User|
                {
                    &&& final(store).users@ == old(store).users@.push(u)
                    &&& u.id == id
                    &&& (#[trigger] u.username)@ == username@
                    &&& u.email@ == email@
                    &&& u.created_at == now
                    &&& u.updated_at == now
                    &&& password_matches(password@, u.password@)
                }
        },
{
    // input shape first: nothing below runs on a malformed request
    if let Err(e) = validate_username(username) {
        return Err(ServiceError::ValidationError(e.message));
    }
    if let Err(e) = validate_email(email) {
        return Err(ServiceError::ValidationError(e.message));
    }
    if let Err(e) = validate_password(password) {
        return Err(ServiceError::ValidationError(e.message));
    }
    // a courtesy pre-check; the insert below remains the final arbiter
    if store.user_exists_by_username_or_email(username, email) {
        return Err(ServiceError::Conflict(String::from_str("Username or email already in use")));
    }
    // one-way hash; the plaintext goes no further
    let hashed = match hash_password(password) {
        Some(h) => h,
        None => {
            return Err(ServiceError::HashingError(String::from_str("password hashing failed")));
        },
    };
    // sign before inserting, so that no failure mode can leave a row
    // behind; with a shared-secret key the signing itself cannot fail
    let sub = format_uuid(id);
    let token = match issue(&sub, now, cfg) {
        Ok(t) => t,
        Err(e) => {
            proof {
                assert(false);
            }
            return Err(e);
        },
    };
    let new_user = NewUser {
        username: String::from_str(username),
        email: String::from_str(email),
        password: hashed,
    };
    match store.new_user(new_user, id, now) {
        Ok(user) => Ok(
            AuthResponse {
                id: user.id,
                username: user.username,
                email: user.email,
                created_at: user.created_at,
                token,
            },
        ),
        Err(StoreError::UniqueViolation) => Err(
            ServiceError::Conflict(String::from_str("Username or email already in use")),
        ),
    }
}

/// Logs a user in: correct credentials succeed, and an unknown username
/// and a wrong password yield one and the same `Unauthorized` error with
/// one and the same message.
pub fn login(store: &UserStore, username: &str, password: &str, now: u64, cfg: &TokenConfig) -> (r:
    Result<AuthResponse, ServiceError>)
    requires
        store.wf(),
        now + cfg.exp_secs <= u64::MAX,
    ensures
        r is Ok <==> login_auth(store, username@, password@),
        r matches Err(e) ==> e matches ServiceError::Unauthorized(m) && m@
            == "Invalid username or password"@,
        r matches Ok(p) ==> {
            &&& exists|i: int|
                {
                    &&& 0 <= i < store.users@.len()
                    &&& (#[trigger] store.users@[i]).id == p.id
                    &&& store.users@[i].username@ == username@
                    &&& password_matches(password@, store.users@[i].password@)
                }
            &&& p.username@ == username@
            &&& all_ascii(p.token@)
            &&& ascii_bytes_of(p.token@) == token_bytes(
                issued_claims(uuid_str(p.id), now, cfg),
                cfg.secret@,
            )
        },
{
    let user = match store.get_user_by_username(username) {
        Some(u) => u,
        None => {
            proof {
                assert(!login_auth(store, username@, password@));
            }
            return Err(
                ServiceError::Unauthorized(String::from_str("Invalid username or password")),
            );
        },
    };
    if !verify_password(password, user.password.as_str()) {
        proof {
            // usernames are unique, so no other row could match either
            assert(!login_auth(store, username@, password@)) by {
                if login_auth(store, username@, password@) {
                    let i = choose|i: int|
                        0 <= i < store.users@.len() && (#[trigger] store.users@[i]).username@
                            == username@ && password_matches(
                            password@,
                            store.users@[i].password@,
                        );
                    let j = choose|j: int|
                        0 <= j < store.users@.len() && store.users@[j] == user;
                    assert(store.users@[i].username@ == store.users@[j].username@);
                    assert(i == j);
                }
            }
        }
        return Err(ServiceError::Unauthorized(String::from_str("Invalid username or password")));
    }
    proof {
        let j = choose|j: int| 0 <= j < store.users@.len() && store.users@[j] == user;
        assert(login_auth(store, username@, password@));
    }
    let sub = format_uuid(user.id);
    match issue(&sub, now, cfg) {
        Ok(token) => Ok(
            AuthResponse {
                id: user.id,
                username: user.username,
                email: user.email,
                created_at: user.created_at,
                token,
            },
        ),
        Err(_) => {
            proof {
                assert(false);
            }
            Err(ServiceError::InternalServerError)
        },
    }
}

/// A row just registered makes its username and email taken: a second
/// registration carrying the same username (or the same email) meets the
/// condition under which `register` answers `Conflict`.
pub proof fn lemma_registered_name_taken(users: Seq<User>, u: User)
    ensures
        has_username(users.push(u), u.username@),
        has_email(users.push(u), u.email@),
{
    assert(users.push(u)[users.len() as int] == u);
}

/// Registering valid credentials and then logging in with them succeeds:
/// the store a successful registration leaves satisfies login's
/// authentication condition (so login never answers `Unauthorized`), and
/// the token a successful login then returns validates to a claim set
/// whose subject is the registered user's identifier — as long as the
/// clock has not reached the token's expiry.
pub proof fn lemma_register_then_login(
    s0: &UserStore,
    s1: &UserStore,
    u: User,
    username: Seq<char>,
    password: Seq<char>,
    t: Seq<char>,
    cfg: &TokenConfig,
    now: u64,
    now2: u64,
)
    requires
        // what register's success ensures
        s1.users@ == s0.users@.push(u),
        u.username@ == username,
        password_matches(password, u.password@),
        // what login's success ensures of the token it returns at `now`
        all_ascii(t),
        ascii_bytes_of(t) == token_bytes(issued_claims(uuid_str(u.id), now, cfg), cfg.secret@),
        now + cfg.exp_secs <= u64::MAX,
        now2 < now + cfg.exp_secs,
    ensures
        login_auth(s1, username, password),
        validate_model(t, cfg.secret@, now2, cfg.required_issuer(), cfg.required_audience())
            == Ok::<crate::claims::ClaimsView, AuthError>(issued_claims(uuid_str(u.id), now, cfg)),
        issued_claims(uuid_str(u.id), now, cfg).sub == uuid_str(u.id),
{
    assert(s1.users@[s0.users@.len() as int] == u);
    assert(login_auth(s1, username, password));
    let c = issued_claims(uuid_str(u.id), now, cfg);
    crate::token::lemma_validate_of_issued(
        c,
        cfg.secret@,
        now2,
        t,
        cfg.required_issuer(),
        cfg.required_audience(),
    );
}

/// Every credential rejection looks the same on the wire: two failed
/// logins — whether the username was unknown or the password wrong —
/// carry the same kind, the same status code (401), the same label and
/// the same message.
pub proof fn lemma_login_rejections_uniform(e1: &ServiceError, e2: &ServiceError)
    requires
        e1 matches ServiceError::Unauthorized(m1) && m1@ == "Invalid username or password"@,
        e2 matches ServiceError::Unauthorized(m2) && m2@ == "Invalid username or password"@,
    ensures
        crate::errors::spec_status_code(e1) == 401,
        crate::errors::spec_status_code(e1) == crate::errors::spec_status_code(e2),
        crate::errors::spec_error_label(e1) == crate::errors::spec_error_label(e2),
        crate::errors::spec_error_message(e1) == crate::errors::spec_error_message(e2),
{
}

} // verus!
