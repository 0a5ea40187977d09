use auth_core::account::register;
use auth_core::CookieManager;
use auth_core::config::AppConfig;
use auth_core::errors::ServiceError;
use auth_core::state::GlobalState;
use auth_core::state::GlobalStateAction;
use auth_core::state::Theme;
use auth_core::store::UserStore;
use auth_core::token::TokenConfig;
use auth_core::validate_email;
use auth_core::validate_email_logic;
use auth_core::validate_password;
use auth_core::validate_password_logic;
use auth_core::validate_username;
use auth_core::validate_username_logic;

#[test]
fn username_rules() {
    assert!(validate_username_logic("johndoe").is_ok());
    assert!(validate_username_logic("ABCdefGHIjklMNOp").is_ok());
    assert_eq!(
        validate_username_logic("john").unwrap_err(),
        "Username must be 6-16 letters (a-z, A-Z)"
    );
    assert_eq!(
        validate_username_logic("johndoejohndoejoh").unwrap_err(),
        "Username must be 6-16 letters (a-z, A-Z)"
    );
    // digits are not letters: `johndoe1` is rejected
    assert_eq!(
        validate_username_logic("johndoe1").unwrap_err(),
        "Username must be 6-16 letters (a-z, A-Z)"
    );
    assert!(validate_username_logic("john doe").is_err());
    assert_eq!(validate_username("john").unwrap_err().code, "invalid_username");
    assert!(validate_username("johndoe").is_ok());
}

#[test]
fn password_rules() {
    assert!(validate_password_logic("Secret123!").is_ok());
    assert_eq!(
        validate_password_logic("Sh0r!").unwrap_err(),
        "Password must be between 8 and 32 characters"
    );
    assert_eq!(
        validate_password_logic("NOLOWER123!").unwrap_err(),
        "Password must contain at least one lowercase letter"
    );
    assert_eq!(
        validate_password_logic("noupper123!").unwrap_err(),
        "Password must contain at least one uppercase letter"
    );
    assert_eq!(
        validate_password_logic("NoDigits!!").unwrap_err(),
        "Password must contain at least one digit"
    );
    assert_eq!(
        validate_password_logic("NoSpecial123").unwrap_err(),
        "Password must contain at least one special character (@$!%*?&)"
    );
    assert_eq!(validate_password("short").unwrap_err().code, "invalid_password");
    assert!(validate_password("Secret123!").is_ok());
    // the size rule counts bytes of the UTF-8 form, not characters:
    // seven characters reach eight bytes through the two-byte a-umlaut
    assert!(validate_password_logic("A\u{e4}1!aaa").is_ok());
    // and one multi-byte character can push a 32-character password over
    assert!(validate_password_logic("\u{e4}aaaaaaaaaaaaaaaaaaaaaaaaaaaaA1!").is_err());
    // the wrapper carries the logic function's message
    assert_eq!(
        validate_password("short").unwrap_err().message,
        "Password must be between 8 and 32 characters"
    );
}

#[test]
fn email_rules() {
    assert!(validate_email_logic("j@x.com").is_ok());
    assert_eq!(
        validate_email_logic("nodomain").unwrap_err(),
        "Email must be a valid ASCII email address"
    );
    assert_eq!(
        validate_email_logic("a@b.").unwrap_err(),
        "Email must be between 5 and 254 characters"
    );
    assert!(validate_email_logic("caf\u{e9}@x.com").is_err());
    assert_eq!(validate_email("nodomain").unwrap_err().code, "invalid_email");
    assert!(validate_email("j@x.com").is_ok());
}

#[test]
fn invalid_registrations_are_rejected_with_400() {
    let mut store = UserStore::new();
    let cfg = TokenConfig {
        issuer: String::from("auth-service"),
        audience: String::from("api"),
        exp_secs: 600,
        secret: b"unit-test-signing-key".to_vec(),
        check_issuer: false,
        check_audience: false,
    };
    // a digit in the username breaks the letters-only rule
    let r = register(&mut store, "johndoe1", "j@x.com", "Secret123!", 1, 1000, &cfg);
    match r {
        Err(ServiceError::ValidationError(_)) => {}
        _ => panic!("expected ValidationError"),
    }
    assert_eq!(r.err().unwrap().status_code(), 400);
    let r = register(&mut store, "johndoe", "bademail", "Secret123!", 1, 1000, &cfg);
    assert_eq!(r.err().unwrap().status_code(), 400);
    let r = register(&mut store, "johndoe", "j@x.com", "weak", 1, 1000, &cfg);
    assert_eq!(r.err().unwrap().status_code(), 400);
    // nothing was stored along the way
    assert!(store.get_users().is_empty());
}

#[test]
fn error_responses_map_kinds_to_statuses() {
    let cases: Vec<(ServiceError, u16, &str)> = vec![
        (ServiceError::ValidationError(String::from("bad input")), 400, "Validation Error"),
        (ServiceError::Unauthorized(String::from("no")), 401, "Unauthorized"),
        (ServiceError::Forbidden(String::from("no")), 403, "Forbidden"),
        (ServiceError::NotFound(String::from("gone")), 404, "Not Found"),
        (ServiceError::Conflict(String::from("dup")), 409, "Conflict"),
        (ServiceError::StoreError(String::from("boom")), 500, "Database Error"),
        (ServiceError::SigningError(String::from("key")), 500, "JWT Generation Error"),
        (ServiceError::HashingError(String::from("oom")), 500, "Hashing Error"),
        (ServiceError::InternalServerError, 500, "Internal Server Error"),
    ];
    for (e, code, label) in cases {
        let body = e.error_response();
        assert_eq!(body.code, code);
        assert_eq!(body.error, label);
    }
    // the client-facing message survives for 400-class errors
    let body = ServiceError::ValidationError(String::from("bad input")).error_response();
    assert_eq!(body.message, "bad input");
    // but internal details never leak for 500-class errors
    let body = ServiceError::StoreError(String::from("connection refused at 10.0.0.1")).error_response();
    assert_eq!(body.message, "Database Error");
}

#[test]
fn unauthorized_constructor_keeps_its_kind() {
    let e = ServiceError::unauthorized(String::from("nope"));
    match e {
        ServiceError::Unauthorized(m) => assert_eq!(m, "nope"),
        _ => panic!("expected Unauthorized"),
    }
}

#[test]
fn theme_names() {
    assert_eq!(Theme::Auto.to_string(), "auto");
    assert_eq!(Theme::Light.to_string(), "light");
    assert_eq!(Theme::Dark.to_string(), "dark");
    assert_eq!(Theme::default(), Theme::Auto);
}

#[test]
fn global_state_updates() {
    let mut s = GlobalState::new();
    assert_eq!(s.theme, Theme::Light);
    assert!(!s.is_auth);
    assert!(!s.is_loaded);
    assert_eq!(s.account.name, "Alessandro");
    s.update(GlobalStateAction::SetTheme(Theme::Dark));
    assert_eq!(s.theme, Theme::Dark);
    s.update(GlobalStateAction::SetIsAuth(true));
    assert!(s.is_auth);
    assert_eq!(s.theme, Theme::Dark);
    s.update(GlobalStateAction::SetIsLoaded(true));
    assert!(s.is_loaded);
    assert!(s.is_auth);
}

#[test]
fn production_flag_follows_log_level() {
    let base = AppConfig {
        port: 8080,
        rust_log: Some(String::from("info")),
        database_url: String::from("postgres://localhost/app"),
        jwt_issuer: String::from("auth-service"),
        jwt_audience: String::from("api"),
        jwt_exp_secs: 600,
    };
    assert!(base.is_production());
    let dev = AppConfig { rust_log: Some(String::from("debug")), ..base };
    assert!(!dev.is_production());
    let none = AppConfig { rust_log: None, ..dev };
    assert!(!none.is_production());
    let cfg = none.token_config(b"k".to_vec(), true, false);
    assert_eq!(cfg.issuer, "auth-service");
    assert_eq!(cfg.audience, "api");
    assert_eq!(cfg.exp_secs, 600);
    assert!(cfg.check_issuer);
    assert!(!cfg.check_audience);
}

#[test]
fn cookie_text_and_lookup() {
    assert_eq!(
        CookieManager::set("auth_token", "abc", 86400),
        "auth_token=abc; path=/; max-age=86400; SameSite=Lax"
    );
    assert_eq!(CookieManager::get("auth_token=abc", "auth_token").unwrap(), "abc");
    assert_eq!(
        CookieManager::get("theme=dark; auth_token=xyz; lang=en", "auth_token").unwrap(),
        "xyz"
    );
    assert_eq!(CookieManager::get("  auth_token=trimmed  ; x=1", "auth_token").unwrap(), "trimmed");
    // only the part up to the second `=` is the value
    assert_eq!(CookieManager::get("auth_token=a=b", "auth_token").unwrap(), "a");
    assert!(CookieManager::get("theme=dark; lang=en", "auth_token").is_none());
    assert!(CookieManager::get("", "auth_token").is_none());
    // a space between the name and the `=` does not match
    assert!(CookieManager::get("auth_token = abc", "auth_token").is_none());
}
