//! Input-shape rules for usernames, emails and passwords.
//!
//! These rules run before any store access: a request that fails them is
//! rejected with a validation error and never reaches hashing or the store.

use vstd::prelude::*;
use vstd::string::StringSliceAdditionalSpecFns;
use vstd::string::StrSliceExecFns;

verus! {

/// An ASCII letter, `a`-`z` or `A`-`Z`.
pub open spec fn is_ascii_letter(c: char) -> bool {
    ('a' <= c && c <= 'z') || ('A' <= c && c <= 'Z')
}

/// An ASCII decimal digit.
pub open spec fn is_ascii_digit_char(c: char) -> bool {
    '0' <= c && c <= '9'
}

/// One of the special characters a password may draw on.
pub open spec fn is_password_special(c: char) -> bool {
    c == '@' || c == '$' || c == '!' || c == '%' || c == '*' || c == '?' || c == '&'
}

/// A username is 6 to 16 ASCII letters.
pub open spec fn valid_username(s: Seq<char>) -> bool {
    &&& 6 <= s.len() <= 16
    &&& forall|i: int| 0 <= i < s.len() ==> is_ascii_letter(#[trigger] s[i])
}

/// A password is 8 to 32 bytes (in its UTF-8 form, as it arrives on the
/// wire) and holds at least one lowercase letter, one uppercase letter,
/// one digit and one special character.
pub open spec fn valid_password(s: Seq<char>) -> bool {
    &&& 8 <= vstd::utf8::encode_utf8(s).len() <= 32
    &&& exists|i: int| 0 <= i < s.len() && 'a' <= #[trigger] s[i] && s[i] <= 'z'
    &&& exists|i: int| 0 <= i < s.len() && 'A' <= #[trigger] s[i] && s[i] <= 'Z'
    &&& exists|i: int| 0 <= i < s.len() && is_ascii_digit_char(#[trigger] s[i])
    &&& exists|i: int| 0 <= i < s.len() && is_password_special(#[trigger] s[i])
}

/// An email is 5 to 254 ASCII characters among which an `@` and a `.` occur.
pub open spec fn valid_email(s: Seq<char>) -> bool {
    &&& 5 <= s.len() <= 254
    &&& forall|i: int| 0 <= i < s.len() ==> (#[trigger] s[i]) as u32 <= 127
    &&& exists|i: int| 0 <= i < s.len() && #[trigger] s[i] == '@'
    &&& exists|i: int| 0 <= i < s.len() && #[trigger] s[i] == '.'
}

/// The one message every username rejection carries.
pub open spec fn username_error_text() -> Seq<char> {
    "Username must be 6-16 letters (a-z, A-Z)"@
}

/// Which message a password rejection carries: the rules are reported in
/// a fixed order, size first.
pub open spec fn password_error_text(s: Seq<char>) -> Seq<char> {
    if !(8 <= vstd::utf8::encode_utf8(s).len() <= 32) {
        "Password must be between 8 and 32 characters"@
    } else if !(exists|i: int| 0 <= i < s.len() && 'a' <= #[trigger] s[i] && s[i] <= 'z') {
        "Password must contain at least one lowercase letter"@
    } else if !(exists|i: int| 0 <= i < s.len() && 'A' <= #[trigger] s[i] && s[i] <= 'Z') {
        "Password must contain at least one uppercase letter"@
    } else if !(exists|i: int| 0 <= i < s.len() && is_ascii_digit_char(#[trigger] s[i])) {
        "Password must contain at least one digit"@
    } else {
        "Password must contain at least one special character (@$!%*?&)"@
    }
}

/// Which message an email rejection carries: the character rules are
/// reported before the size rule.
pub open spec fn email_error_text(s: Seq<char>) -> Seq<char> {
    if !((forall|i: int| 0 <= i < s.len() ==> ((#[trigger] s[i]) as u32) < 128) && (exists|i: int|
        0 <= i < s.len() && #[trigger] s[i] == '@') && (exists|i: int|
        0 <= i < s.len() && #[trigger] s[i] == '.')) {
        "Email must be a valid ASCII email address"@
    } else {
        "Email must be between 5 and 254 characters"@
    }
}

/// Accepts exactly the usernames that `valid_username` admits.
pub fn validate_username_logic(username: &str) -> (r: Result<(), String>)
    ensures
        r is Ok <==> valid_username(username@),
        r matches Err(m) ==> m@ == username_error_text(),
{
    let len = username.unicode_len();
    if len < 6 || len > 16 {
        return Err(username_rule_message());
    }
    let mut i: usize = 0;
    while i < len
        invariant
            len == username@.len(),
            0 <= i <= len,
            forall|j: int| 0 <= j < i ==> is_ascii_letter(#[trigger] username@[j]),
        decreases len - i,
    {
        let c = username.get_char(i);
        if !((c >= 'a' && c <= 'z') || (c >= 'A' && c <= 'Z')) {
            return Err(username_rule_message());
        }
        i = i + 1;
    }
    Ok(())
}

/// Accepts exactly the passwords that `valid_password` admits.
pub fn validate_password_logic(password: &str) -> (r: Result<(), String>)
    ensures
        r is Ok <==> valid_password(password@),
        r matches Err(m) ==> m@ == password_error_text(password@),
{
    let byte_len = password.as_bytes_vec().len();
    proof {
        assert(password.spec_bytes() == vstd::utf8::encode_utf8(password@));
    }
    if byte_len < 8 || byte_len > 32 {
        return Err(String::from_str("Password must be between 8 and 32 characters"));
    }
    let len = password.unicode_len();
    let mut has_lower = false;
    let mut has_upper = false;
    let mut has_digit = false;
    let mut has_special = false;
    let mut i: usize = 0;
    while i < len
        invariant
            len == password@.len(),
            0 <= i <= len,
            has_lower <==> exists|j: int|
                0 <= j < i && 'a' <= #[trigger] password@[j] && password@[j] <= 'z',
            has_upper <==> exists|j: int|
                0 <= j < i && 'A' <= #[trigger] password@[j] && password@[j] <= 'Z',
            has_digit <==> exists|j: int| 0 <= j < i && is_ascii_digit_char(#[trigger] password@[j]),
            has_special <==> exists|j: int| 0 <= j < i && is_password_special(#[trigger] password@[j]),
        decreases len - i,
    {
        let c = password.get_char(i);
        if c >= 'a' && c <= 'z' {
            has_lower = true;
        }
        if c >= 'A' && c <= 'Z' {
            has_upper = true;
        }
        if c >= '0' && c <= '9' {
            has_digit = true;
        }
        if c == '@' || c == '$' || c == '!' || c == '%' || c == '*' || c == '?' || c == '&' {
            has_special = true;
        }
        i = i + 1;
    }
    if !has_lower {
        return Err(String::from_str("Password must contain at least one lowercase letter"));
    }
    if !has_upper {
        return Err(String::from_str("Password must contain at least one uppercase letter"));
    }
    if !has_digit {
        return Err(String::from_str("Password must contain at least one digit"));
    }
    if !has_special {
        return Err(
            String::from_str("Password must contain at least one special character (@$!%*?&)"),
        );
    }
    Ok(())
}

/// Accepts exactly the emails that `valid_email` admits.
pub fn validate_email_logic(email: &str) -> (r: Result<(), String>)
    ensures
        r is Ok <==> valid_email(email@),
        r matches Err(m) ==> m@ == email_error_text(email@),
{
    let len = email.unicode_len();
    let mut all_ascii = true;
    let mut has_at = false;
    let mut has_dot = false;
    let mut i: usize = 0;
    while i < len
        invariant
            len == email@.len(),
            0 <= i <= len,
            all_ascii <==> forall|j: int| 0 <= j < i ==> (#[trigger] email@[j]) as u32 <= 127,
            has_at <==> exists|j: int| 0 <= j < i && #[trigger] email@[j] == '@',
            has_dot <==> exists|j: int| 0 <= j < i && #[trigger] email@[j] == '.',
        decreases len - i,
    {
        let c = email.get_char(i);
        if c as u32 > 127 {
            all_ascii = false;
        }
        if c == '@' {
            has_at = true;
        }
        if c == '.' {
            has_dot = true;
        }
        i = i + 1;
    }
    if !all_ascii || !has_at || !has_dot {
        return Err(String::from_str("Email must be a valid ASCII email address"));
    }
    if len < 5 || len > 254 {
        return Err(String::from_str("Email must be between 5 and 254 characters"));
    }
    Ok(())
}

/// A named violation of one input-shape rule: which rule broke, and a
/// human-readable message.
pub struct FieldError {
    pub code: String,
    pub message: String,
}

fn username_rule_message() -> (r: String)
    ensures
        r@ == username_error_text(),
{
    String::from_str("Username must be 6-16 letters (a-z, A-Z)")
}

/// Wraps `validate_username_logic` in a named field error.
pub fn validate_username(username: &str) -> (r: Result<(), FieldError>)
    ensures
        r is Ok <==> valid_username(username@),
        r matches Err(e) ==> e.code@ == "invalid_username"@ && e.message@
            == username_error_text(),
{
    match validate_username_logic(username) {
        Ok(()) => Ok(()),
        Err(m) => Err(FieldError { code: String::from_str("invalid_username"), message: m }),
    }
}

/// Wraps `validate_password_logic` in a named field error.
pub fn validate_password(password: &str) -> (r: Result<(), FieldError>)
    ensures
        r is Ok <==> valid_password(password@),
        r matches Err(e) ==> e.code@ == "invalid_password"@ && e.message@ == password_error_text(
            password@,
        ),
{
    match validate_password_logic(password) {
        Ok(()) => Ok(()),
        Err(m) => Err(FieldError { code: String::from_str("invalid_password"), message: m }),
    }
}

/// Wraps `validate_email_logic` in a named field error.
pub fn validate_email(email: &str) -> (r: Result<(), FieldError>)
    ensures
        r is Ok <==> valid_email(email@),
        r matches Err(e) ==> e.code@ == "invalid_email"@ && e.message@ == email_error_text(
            email@,
        ),
{
    match validate_email_logic(email) {
        Ok(()) => Ok(()),
        Err(m) => Err(FieldError { code: String::from_str("invalid_email"), message: m }),
    }
}

} // verus!
