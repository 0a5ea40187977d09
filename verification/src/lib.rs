//! Token-based authentication and permission-based authorization.
//!
//! The crate turns a username/password pair into a signed identity token,
//! turns an incoming token back into a verified identity, and turns that
//! identity into an allow/deny decision by resolving permissions through
//! a group-membership graph held in a relational store model.

use vstd::prelude::*;

pub mod account;
pub mod base64url;
pub mod claims;
pub mod config;
pub mod cookies;
pub mod decnum;
pub mod errors;
pub mod gate;
pub mod hashing;
pub mod jsontext;
pub mod state;
pub mod store;
pub mod textutil;
pub mod token;
pub mod uuidfmt;
pub mod validation;

pub use account::login;
pub use account::AuthResponse;
pub use account::register;
pub use claims::Claims;
pub use config::AppConfig;
pub use cookies::CookieManager;
pub use errors::ErrorResponse;
pub use errors::ServiceError;
pub use gate::AuthMiddleware;
pub use state::GlobalState;
pub use state::GlobalStateAction;
pub use state::Theme;
pub use store::User;
pub use store::UserStore;
pub use token::AuthError;
pub use token::TokenConfig;
pub use validation::validate_email;
pub use validation::validate_email_logic;
pub use validation::validate_password;
pub use validation::validate_password_logic;
pub use validation::validate_username;
pub use validation::validate_username_logic;

verus! {

} // verus!
