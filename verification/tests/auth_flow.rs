use auth_core::account::login;
use auth_core::account::register;
use auth_core::errors::ServiceError;
use auth_core::gate::extract_token;
use auth_core::gate::AuthMiddleware;
use auth_core::store::Group;
use auth_core::store::GroupPermission;
use auth_core::store::Permission;
use auth_core::store::UserGroup;
use auth_core::store::UserStore;
use auth_core::token::validate;
use auth_core::token::TokenConfig;
use auth_core::uuidfmt::format_uuid;

fn test_config() -> TokenConfig {
    TokenConfig {
        issuer: String::from("auth-service"),
        audience: String::from("api"),
        exp_secs: 3600,
        secret: b"unit-test-signing-key".to_vec(),
        check_issuer: false,
        check_audience: false,
    }
}

#[test]
fn register_api_test_register_handler_success() {
    let mut store = UserStore::new();
    let cfg = test_config();
    let r = register(&mut store, "johndoe", "john_doe@gmail.com", "Secret123!", 7, 1000, &cfg);
    assert!(r.is_ok());
}

#[test]
fn user_register_and_login_test_register_handler_success() {
    let mut store = UserStore::new();
    let cfg = test_config();
    let r = register(&mut store, "testuser", "test@example.com", "Password123!", 1, 1000, &cfg);
    assert!(r.is_ok());
}

#[test]
fn test_login_handler_success() {
    let mut store = UserStore::new();
    let cfg = test_config();
    register(&mut store, "testuser", "test@example.com", "Password123!", 1, 1000, &cfg).unwrap();
    let r = login(&store, "testuser", "Password123!", 1200, &cfg);
    assert!(r.is_ok());
}

#[test]
fn test_login_handler_invalid_password() {
    let mut store = UserStore::new();
    let cfg = test_config();
    register(&mut store, "testuser", "test@example.com", "Password123!", 1, 1000, &cfg).unwrap();
    let r = login(&store, "testuser", "wrongpassword", 1200, &cfg);
    match r {
        Err(ServiceError::Unauthorized(_)) => {}
        _ => panic!("Expected Unauthorized error"),
    }
}

/// Registration round-trips into login, the login token validates back to
/// the registered user's identifier, and the stored hash is one-way.
#[test]
fn register_then_login_token_round_trips() {
    let mut store = UserStore::new();
    let cfg = test_config();
    let created = register(&mut store, "johndoe", "j@x.com", "Secret123!", 42, 1000, &cfg).unwrap();
    assert_eq!(created.username, "johndoe");
    assert_eq!(created.email, "j@x.com");
    assert_eq!(created.id, 42);
    // the stored row carries a hash, not the plaintext password
    let row = store.get_user_by_username("johndoe").unwrap();
    assert_ne!(row.password, "Secret123!");
    let logged_in = login(&store, "johndoe", "Secret123!", 2000, &cfg).unwrap();
    assert_eq!(logged_in.id, 42);
    let token = logged_in.token;
    assert!(!token.is_empty());
    let claims = validate(&token, &cfg, 2500).unwrap();
    assert_eq!(claims.sub, format_uuid(42));
    assert_eq!(claims.iat, 2000);
    assert_eq!(claims.exp, 2000 + 3600);
    assert_eq!(claims.iss, "auth-service");
    assert_eq!(claims.aud, "api");
}

/// The concrete end-to-end scenario: register succeeds with a non-empty
/// token; the same username again conflicts; a wrong password is
/// unauthorized; the right one succeeds; and a permission-gated operation
/// requiring `view_users` is forbidden for a user in no group.
#[test]
fn scenario_register_conflict_login_gate() {
    let mut store = UserStore::new();
    let cfg = test_config();
    let created = register(&mut store, "johndoe", "j@x.com", "Secret123!", 1, 1000, &cfg).unwrap();
    assert!(!created.token.is_empty());
    let again = register(&mut store, "johndoe", "other@x.com", "Secret123!", 2, 1001, &cfg);
    match again {
        Err(ServiceError::Conflict(_)) => {}
        _ => panic!("expected Conflict"),
    }
    assert_eq!(again.err().unwrap().status_code(), 409);
    let wrong = login(&store, "johndoe", "WrongPass1!", 1002, &cfg);
    assert_eq!(wrong.err().unwrap().status_code(), 401);
    let token = login(&store, "johndoe", "Secret123!", 1003, &cfg).unwrap().token;
    let gate = AuthMiddleware::new(vec![String::from("view_users")]);
    let auth_header = format!("Bearer {}", token);
    let r = gate.authorize(&store, Some(&auth_header), None, &cfg, 1004);
    match r {
        Err(ServiceError::Forbidden(_)) => {}
        _ => panic!("expected Forbidden"),
    }
    assert_eq!(r.err().unwrap().status_code(), 403);
}

/// Duplicate email with a different username also conflicts.
#[test]
fn duplicate_email_conflicts() {
    let mut store = UserStore::new();
    let cfg = test_config();
    register(&mut store, "johndoe", "j@x.com", "Secret123!", 1, 1000, &cfg).unwrap();
    let again = register(&mut store, "janedoe", "j@x.com", "Secret123!", 2, 1001, &cfg);
    match again {
        Err(ServiceError::Conflict(_)) => {}
        _ => panic!("expected Conflict"),
    }
}

/// An unknown username and a wrong password yield the identical error
/// kind and message.
#[test]
fn login_failures_are_uniform() {
    let mut store = UserStore::new();
    let cfg = test_config();
    register(&mut store, "johndoe", "j@x.com", "Secret123!", 1, 1000, &cfg).unwrap();
    let no_user = login(&store, "nosuchuser", "Secret123!", 1001, &cfg);
    let bad_pass = login(&store, "johndoe", "WrongPass1!", 1001, &cfg);
    let m1 = match no_user {
        Err(ServiceError::Unauthorized(m)) => m,
        _ => panic!("expected Unauthorized"),
    };
    let m2 = match bad_pass {
        Err(ServiceError::Unauthorized(m)) => m,
        _ => panic!("expected Unauthorized"),
    };
    assert_eq!(m1, m2);
    assert_eq!(m1, "Invalid username or password");
}

/// A user who belongs to a group granted the permission is allowed through.
#[test]
fn gate_allows_granted_permission() {
    let mut store = UserStore::new();
    let cfg = test_config();
    let user = register(&mut store, "johndoe", "j@x.com", "Secret123!", 9, 1000, &cfg).unwrap();
    store.groups.push(Group { id: 100, name: String::from("admins") });
    store.permissions.push(Permission { id: 200, name: String::from("view_users") });
    store.user_groups.push(UserGroup { user_id: user.id, group_id: 100 });
    store.group_permissions.push(GroupPermission { group_id: 100, permission_id: 200 });
    let token = login(&store, "johndoe", "Secret123!", 1003, &cfg).unwrap().token;
    let gate = AuthMiddleware::new(vec![String::from("view_users")]);
    let auth_header = format!("Bearer {}", token);
    let claims = gate.authorize(&store, Some(&auth_header), None, &cfg, 1004).unwrap();
    assert_eq!(claims.sub, format_uuid(9));
    // a gate with no required permission admits any authenticated user
    let open_gate = AuthMiddleware::new(Vec::new());
    assert!(open_gate.authorize(&store, Some(&auth_header), None, &cfg, 1004).is_ok());
    // an anonymous request is rejected before any permission lookup
    let anon = open_gate.authorize(&store, None, None, &cfg, 1004);
    assert_eq!(anon.err().unwrap().status_code(), 401);
}

/// The Authorization header wins over the cookie; a malformed header
/// falls back to the cookie.
#[test]
fn extract_prefers_bearer_header() {
    let header = String::from("Bearer aaa.bbb.ccc");
    let cookie = String::from("xxx.yyy.zzz");
    assert_eq!(extract_token(Some(&header), Some(&cookie)).unwrap(), "aaa.bbb.ccc");
    let bad_header = String::from("Basic dXNlcg==");
    assert_eq!(extract_token(Some(&bad_header), Some(&cookie)).unwrap(), "xxx.yyy.zzz");
    assert_eq!(extract_token(None, Some(&cookie)).unwrap(), "xxx.yyy.zzz");
    assert!(extract_token(Some(&bad_header), None).is_none());
    assert!(extract_token(None, None).is_none());
}

/// A user in no group has an empty permission set and fails every check.
#[test]
fn no_groups_means_no_permissions() {
    let mut store = UserStore::new();
    let cfg = test_config();
    let user = register(&mut store, "johndoe", "j@x.com", "Secret123!", 5, 1000, &cfg).unwrap();
    assert!(store.get_permission_names_for_user(user.id).is_empty());
    assert!(store.get_user_permissions(user.id).is_empty());
    assert!(!store.has_permission(user.id, "view_users"));
    assert!(!store.has_permission(user.id, "anything_else"));
    assert!(store.get_user_roles(user.id).is_empty());
    assert!(store.get_group_ids_for_user(user.id).is_empty());
}

/// The permission walk follows memberships and grants, and deduplicates.
#[test]
fn permission_walk_joins_and_dedups() {
    let mut store = UserStore::new();
    store.groups.push(Group { id: 1, name: String::from("readers") });
    store.groups.push(Group { id: 2, name: String::from("writers") });
    store.permissions.push(Permission { id: 10, name: String::from("read") });
    store.permissions.push(Permission { id: 11, name: String::from("write") });
    store.permissions.push(Permission { id: 12, name: String::from("read") });
    store.user_groups.push(UserGroup { user_id: 77, group_id: 1 });
    store.user_groups.push(UserGroup { user_id: 77, group_id: 2 });
    store.group_permissions.push(GroupPermission { group_id: 1, permission_id: 10 });
    store.group_permissions.push(GroupPermission { group_id: 2, permission_id: 11 });
    store.group_permissions.push(GroupPermission { group_id: 2, permission_id: 12 });
    let perms = store.get_permission_names_for_user(77);
    assert_eq!(perms.len(), 2);
    assert!(perms.contains(&String::from("read")));
    assert!(perms.contains(&String::from("write")));
    assert!(store.has_permission(77, "read"));
    assert!(store.has_permission(77, "write"));
    assert!(!store.has_permission(77, "delete"));
    // one role name per membership row, in table order
    let roles = store.get_user_roles(77);
    assert_eq!(roles, vec![String::from("readers"), String::from("writers")]);
    // a second membership in the same group repeats its name
    store.user_groups.push(UserGroup { user_id: 77, group_id: 1 });
    let roles = store.get_user_roles(77);
    assert_eq!(
        roles,
        vec![String::from("readers"), String::from("writers"), String::from("readers")]
    );
    // the deduplicated sibling is unaffected
    assert_eq!(store.get_group_names_for_user(77).len(), 2);
    // a user in other groups only sees their own
    assert!(!store.has_permission(78, "read"));
}

/// The store's insert, not the pre-check, is the final arbiter: a direct
/// duplicate insert is refused and the store is unchanged.
#[test]
fn store_insert_enforces_uniqueness() {
    let mut store = UserStore::new();
    let cfg = test_config();
    register(&mut store, "johndoe", "j@x.com", "Secret123!", 1, 1000, &cfg).unwrap();
    let users_before = store.get_users().len();
    let dup = auth_core::store::NewUser {
        username: String::from("johndoe"),
        email: String::from("fresh@x.com"),
        password: String::from("hash"),
    };
    assert!(store.new_user(dup, 99, 1001).is_err());
    assert_eq!(store.get_users().len(), users_before);
    // a fresh id reusing an existing id is refused too
    let dup_id = auth_core::store::NewUser {
        username: String::from("janedoe"),
        email: String::from("fresh@x.com"),
        password: String::from("hash"),
    };
    assert!(store.new_user(dup_id, 1, 1001).is_err());
    let ok = auth_core::store::NewUser {
        username: String::from("janedoe"),
        email: String::from("fresh@x.com"),
        password: String::from("hash"),
    };
    assert!(store.new_user(ok, 2, 1001).is_ok());
    assert_eq!(store.get_users().len(), users_before + 1);
}

/// Store lookups find users by name, email or id.
#[test]
fn store_lookups() {
    let mut store = UserStore::new();
    let cfg = test_config();
    let u = register(&mut store, "johndoe", "j@x.com", "Secret123!", 3, 1000, &cfg).unwrap();
    assert_eq!(store.get_user_by_username("johndoe").unwrap().id, 3);
    assert!(store.get_user_by_username("nobody").is_none());
    assert_eq!(store.get_user(3).unwrap().username, "johndoe");
    assert!(store.get_user(4).is_none());
    assert_eq!(store.find_user_by_username_or_email("johndoe").unwrap().id, u.id);
    assert_eq!(store.find_user_by_username_or_email("j@x.com").unwrap().id, u.id);
    assert!(store.find_user_by_username_or_email("nobody").is_none());
    assert!(store.user_exists_by_username_or_email("johndoe", "zz@x.com"));
    assert!(store.user_exists_by_username_or_email("zzz", "j@x.com"));
    assert!(!store.user_exists_by_username_or_email("zzz", "zz@x.com"));
}
