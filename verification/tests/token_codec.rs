use auth_core::claims::encode_claims;
use auth_core::claims::parse_claims;
use auth_core::claims::Claims;
use auth_core::token::issue;
use auth_core::token::validate;
use auth_core::token::AuthError;
use auth_core::token::TokenConfig;
use auth_core::uuidfmt::format_uuid;
use auth_core::uuidfmt::parse_uuid;

fn test_config() -> TokenConfig {
    TokenConfig {
        issuer: String::from("auth-service"),
        audience: String::from("api"),
        exp_secs: 600,
        secret: b"unit-test-signing-key".to_vec(),
        check_issuer: true,
        check_audience: true,
    }
}

fn sample_claims() -> Claims {
    Claims {
        sub: String::from("ab"),
        exp: 1700000600,
        iat: 1700000000,
        iss: String::from("auth-service"),
        aud: String::from("api"),
    }
}

#[test]
fn claims_json_is_exact() {
    let bytes = encode_claims(&sample_claims());
    assert_eq!(
        String::from_utf8(bytes).unwrap(),
        "{\"sub\":\"ab\",\"exp\":1700000600,\"iat\":1700000000,\"iss\":\"auth-service\",\"aud\":\"api\"}"
    );
}

#[test]
fn claims_json_round_trips() {
    let c = sample_claims();
    let bytes = encode_claims(&c);
    let back = parse_claims(&bytes).unwrap();
    assert_eq!(back.sub, c.sub);
    assert_eq!(back.exp, c.exp);
    assert_eq!(back.iat, c.iat);
    assert_eq!(back.iss, c.iss);
    assert_eq!(back.aud, c.aud);
}

#[test]
fn claims_json_escapes_and_round_trips() {
    let c = Claims {
        sub: String::from("a\"b\\c\nd"),
        exp: 2,
        iat: 1,
        iss: String::from("caf\u{e9} \u{1F600}"),
        aud: String::from("\u{0007}"),
    };
    let bytes = encode_claims(&c);
    // everything unusual went out as \u escapes: the bytes are plain ASCII
    assert!(bytes.iter().all(|b| *b < 128));
    let s = String::from_utf8(bytes.clone()).unwrap();
    assert!(s.contains("\\u0022"));
    assert!(s.contains("\\u005c"));
    assert!(s.contains("\\u000a"));
    assert!(s.contains("\\u00e9"));
    // the smiley needs a surrogate pair
    assert!(s.contains("\\ud83d\\ude00"));
    let back = parse_claims(&bytes).unwrap();
    assert_eq!(back.sub, c.sub);
    assert_eq!(back.iss, c.iss);
    assert_eq!(back.aud, c.aud);
}

#[test]
fn claims_reader_is_strict() {
    // whitespace is not canonical
    assert!(parse_claims(&b"{\"sub\": \"ab\",\"exp\":1,\"iat\":1,\"iss\":\"x\",\"aud\":\"y\"}".to_vec()).is_none());
    // a leading zero is not canonical
    assert!(parse_claims(&b"{\"sub\":\"ab\",\"exp\":01,\"iat\":1,\"iss\":\"x\",\"aud\":\"y\"}".to_vec()).is_none());
    // reordered fields are refused
    assert!(parse_claims(&b"{\"exp\":1,\"sub\":\"ab\",\"iat\":1,\"iss\":\"x\",\"aud\":\"y\"}".to_vec()).is_none());
    // trailing bytes are refused
    assert!(parse_claims(&b"{\"sub\":\"ab\",\"exp\":1,\"iat\":1,\"iss\":\"x\",\"aud\":\"y\"} ".to_vec()).is_none());
    // an escape of a plain character is not canonical
    assert!(parse_claims(&b"{\"sub\":\"\\u0041\",\"exp\":1,\"iat\":1,\"iss\":\"x\",\"aud\":\"y\"}".to_vec()).is_none());
    // the canonical form is accepted
    assert!(parse_claims(&b"{\"sub\":\"ab\",\"exp\":1,\"iat\":1,\"iss\":\"x\",\"aud\":\"y\"}".to_vec()).is_some());
}

#[test]
fn issued_token_validates_and_expires() {
    let cfg = test_config();
    let sub = format_uuid(7);
    let token = issue(&sub, 1000, &cfg).unwrap();
    let claims = validate(&token, &cfg, 1500).unwrap();
    assert_eq!(claims.sub, sub);
    assert_eq!(claims.iat, 1000);
    assert_eq!(claims.exp, 1600);
    // at or past the expiry the same token always fails
    assert_eq!(validate(&token, &cfg, 1600).unwrap_err(), AuthError::Expired);
    assert_eq!(validate(&token, &cfg, 99999).unwrap_err(), AuthError::Expired);
}

#[test]
fn token_signed_with_other_key_fails() {
    let cfg = test_config();
    let mut other = test_config();
    other.secret = b"a-completely-different-key".to_vec();
    let token = issue(&format_uuid(7), 1000, &other).unwrap();
    assert_eq!(validate(&token, &cfg, 1100).unwrap_err(), AuthError::InvalidSignature);
    // and a tampered signature fails under the right key
    let good = issue(&format_uuid(7), 1000, &cfg).unwrap();
    let mut tampered = good.clone();
    tampered.pop();
    tampered.push('A');
    if tampered != good {
        assert!(validate(&tampered, &cfg, 1100).is_err());
    }
}

#[test]
fn issuer_and_audience_checks() {
    let cfg = test_config();
    let mut foreign = test_config();
    foreign.issuer = String::from("someone-else");
    let token = issue(&format_uuid(7), 1000, &foreign).unwrap();
    // same key, wrong issuer: treated as a signature failure
    assert_eq!(validate(&token, &cfg, 1100).unwrap_err(), AuthError::InvalidSignature);
    let mut lax = test_config();
    lax.check_issuer = false;
    lax.check_audience = false;
    assert!(validate(&token, &lax, 1100).is_ok());
}

#[test]
fn malformed_tokens_are_rejected() {
    let cfg = test_config();
    assert_eq!(validate("", &cfg, 1).unwrap_err(), AuthError::Malformed);
    assert_eq!(validate("abc", &cfg, 1).unwrap_err(), AuthError::Malformed);
    assert_eq!(validate("a.b", &cfg, 1).unwrap_err(), AuthError::Malformed);
    assert_eq!(validate("a.b.c", &cfg, 1).unwrap_err(), AuthError::Malformed);
    assert_eq!(validate("\u{e9}.x.y", &cfg, 1).unwrap_err(), AuthError::Malformed);
}

/// Our tokens verify under the reference implementation: same signature,
/// same claims.
#[test]
fn issued_token_decodes_with_jsonwebtoken() {
    let cfg = test_config();
    let sub = format_uuid(7);
    let token = issue(&sub, 1700000000, &cfg).unwrap();
    let mut validation = jsonwebtoken::Validation::new(jsonwebtoken::Algorithm::HS256);
    validation.validate_aud = false;
    validation.validate_exp = false;
    let data = jsonwebtoken::decode::<serde_json::Value>(
        &token,
        &jsonwebtoken::DecodingKey::from_secret(b"unit-test-signing-key"),
        &validation,
    )
    .unwrap();
    assert_eq!(data.claims.get("sub").unwrap().as_str().unwrap(), sub);
    assert_eq!(data.claims.get("iat").unwrap().as_u64().unwrap(), 1700000000);
    assert_eq!(data.claims.get("exp").unwrap().as_u64().unwrap(), 1700000600);
    assert_eq!(data.claims.get("iss").unwrap().as_str().unwrap(), "auth-service");
    assert_eq!(data.claims.get("aud").unwrap().as_str().unwrap(), "api");
}

/// A token whose signature was produced by the reference implementation's
/// own signing routine over a canonical payload validates here.
#[test]
fn jsonwebtoken_token_validates_here() {
    let cfg = test_config();
    let header = b"{\"typ\":\"JWT\",\"alg\":\"HS256\"}".to_vec();
    let payload = format!(
        "{{\"sub\":\"{}\",\"exp\":1700000600,\"iat\":1700000000,\"iss\":\"auth-service\",\"aud\":\"api\"}}",
        format_uuid(9)
    )
    .into_bytes();
    let mut msg: Vec<u8> = Vec::new();
    auth_core::base64url::append_b64(&mut msg, &header);
    msg.push(b'.');
    auth_core::base64url::append_b64(&mut msg, &payload);
    let sig = jsonwebtoken::crypto::sign(
        &msg,
        &jsonwebtoken::EncodingKey::from_secret(b"unit-test-signing-key"),
        jsonwebtoken::Algorithm::HS256,
    )
    .unwrap();
    let token = format!("{}.{}", String::from_utf8(msg).unwrap(), sig);
    let validated = validate(&token, &cfg, 1700000100).unwrap();
    assert_eq!(validated.sub, format_uuid(9));
    assert_eq!(validated.exp, 1700000600);
    assert_eq!(validated.iat, 1700000000);
}

#[test]
fn uuid_text_round_trips() {
    assert_eq!(format_uuid(0), "00000000-0000-0000-0000-000000000000");
    assert_eq!(format_uuid(u128::MAX), "ffffffff-ffff-ffff-ffff-ffffffffffff");
    let id: u128 = 0x0123456789abcdef0123456789abcdef;
    let s = format_uuid(id);
    assert_eq!(s, "01234567-89ab-cdef-0123-456789abcdef");
    assert_eq!(parse_uuid(&s).unwrap(), id);
    // the uuid crate agrees on the canonical text
    assert_eq!(uuid::Uuid::from_u128(id).to_string(), s);
    // only the canonical form is read back
    assert!(parse_uuid("01234567-89AB-CDEF-0123-456789ABCDEF").is_none());
    assert!(parse_uuid("0123456789abcdef0123456789abcdef").is_none());
    assert!(parse_uuid("").is_none());
}
