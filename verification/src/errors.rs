//! The error taxonomy of the service, and its structured wire shape.
//!
//! Credential mismatches are always reported through the single
//! `Unauthorized` kind so that a caller cannot tell a wrong password from an
//! unknown username, and store uniqueness violations surface as `Conflict`.

use vstd::prelude::*;

verus! {

/// Every failure the core can report.
#[derive(Debug)]
pub enum ServiceError {
    /// The input's shape broke a validation rule.
    ValidationError(String),
    /// No token, an invalid token, or bad credentials; deliberately coarse.
    Unauthorized(String),
    /// Authenticated, but a required permission is missing.
    Forbidden(String),
    /// A duplicate username or email.
    Conflict(String),
    /// The requested record does not exist.
    NotFound(String),
    /// The store failed to run a query.
    StoreError(String),
    /// The signing key could not be used.
    SigningError(String),
    /// Password hashing failed.
    HashingError(String),
    /// Any other internal failure.
    InternalServerError,
}

/// The structured body a failure is reported as.
#[derive(Debug)]
pub struct ErrorResponse {
    pub code: u16,
    pub error: String,
    pub message: String,
}

/// The HTTP status an error kind maps to.
pub open spec fn spec_status_code(e: &ServiceError) -> u16 {
    match e {
        ServiceError::ValidationError(_) => 400,
        ServiceError::Unauthorized(_) => 401,
        ServiceError::Forbidden(_) => 403,
        ServiceError::NotFound(_) => 404,
        ServiceError::Conflict(_) => 409,
        _ => 500,
    }
}

/// The short label an error kind is reported under.
pub open spec fn spec_error_label(e: &ServiceError) -> Seq<char> {
    match e {
        ServiceError::ValidationError(_) => "Validation Error"@,
        ServiceError::Unauthorized(_) => "Unauthorized"@,
        ServiceError::Forbidden(_) => "Forbidden"@,
        ServiceError::NotFound(_) => "Not Found"@,
        ServiceError::Conflict(_) => "Conflict"@,
        ServiceError::StoreError(_) => "Database Error"@,
        ServiceError::SigningError(_) => "JWT Generation Error"@,
        ServiceError::HashingError(_) => "Hashing Error"@,
        ServiceError::InternalServerError => "Internal Server Error"@,
    }
}

/// The detailed message an error carries; fixed for the kinds whose
/// internals must not leak to a caller.
pub open spec fn spec_error_message(e: &ServiceError) -> Seq<char> {
    match e {
        ServiceError::ValidationError(m) => m@,
        ServiceError::Unauthorized(m) => m@,
        ServiceError::Forbidden(m) => m@,
        ServiceError::NotFound(m) => m@,
        ServiceError::Conflict(m) => m@,
        ServiceError::StoreError(_) => "Database Error"@,
        ServiceError::SigningError(_) => "JWT Generation Error"@,
        ServiceError::HashingError(_) => "Hashing Error"@,
        ServiceError::InternalServerError => "Internal Server Error"@,
    }
}

impl ServiceError {
    /// The HTTP status code of this error.
    pub fn status_code(&self) -> (code: u16)
        ensures
            code == spec_status_code(self),
    {
        match self {
            ServiceError::ValidationError(_) => 400,
            ServiceError::Unauthorized(_) => 401,
            ServiceError::Forbidden(_) => 403,
            ServiceError::NotFound(_) => 404,
            ServiceError::Conflict(_) => 409,
            _ => 500,
        }
    }

    /// The structured body this error is reported as.  The message of a
    /// 500-class error is its fixed label: internal details never leak.
    pub fn error_response(&self) -> (r: ErrorResponse)
        ensures
            r.code == spec_status_code(self),
            r.error@ == spec_error_label(self),
            r.message@ == spec_error_message(self),
    {
        let (error, message): (String, String) = match self {
            ServiceError::ValidationError(m) => (
                String::from_str("Validation Error"),
                m.clone(),
            ),
            ServiceError::Unauthorized(m) => (String::from_str("Unauthorized"), m.clone()),
            ServiceError::Forbidden(m) => (String::from_str("Forbidden"), m.clone()),
            ServiceError::NotFound(m) => (String::from_str("Not Found"), m.clone()),
            ServiceError::Conflict(m) => (String::from_str("Conflict"), m.clone()),
            ServiceError::StoreError(_) => (
                String::from_str("Database Error"),
                String::from_str("Database Error"),
            ),
            ServiceError::SigningError(_) => (
                String::from_str("JWT Generation Error"),
                String::from_str("JWT Generation Error"),
            ),
            ServiceError::HashingError(_) => (
                String::from_str("Hashing Error"),
                String::from_str("Hashing Error"),
            ),
            ServiceError::InternalServerError => (
                String::from_str("Internal Server Error"),
                String::from_str("Internal Server Error"),
            ),
        };
        ErrorResponse { code: self.status_code(), error, message }
    }

    /// The coarse error every credential failure is reported as.
    pub fn unauthorized(message: String) -> (r: ServiceError)
        ensures
            r matches ServiceError::Unauthorized(m) && m == message,
    {
        ServiceError::Unauthorized(message)
    }
}

} // verus!
