//! Issuing and validating signed identity tokens.
//!
//! A token is `base64url(header) "." base64url(claims) "." signature`,
//! where the header is fixed, the claims are the canonical JSON of
//! [`crate::claims`], and the signature is the HMAC-SHA256 of everything
//! before the second dot under the configured key.  Only the HMAC itself
//! is drawn from an outside crate; framing, serialization and every
//! decision around it are verified here.

use vstd::prelude::*;

use crate::base64url::b64_of;
use crate::base64url::b64_parse;
use crate::base64url::append_b64;
use crate::base64url::b64_decode_range;
use crate::base64url::is_b64_byte;
use crate::base64url::lemma_b64_of_alphabet;
use crate::base64url::lemma_b64_parse_of_b64_of;
use crate::claims::claims_json;
use crate::claims::encode_claims;
use crate::claims::lemma_claims_json_injective;
use crate::claims::parse_claims;
use crate::claims::Claims;
use crate::claims::ClaimsView;
use crate::errors::ServiceError;
use crate::textutil::all_ascii;
use vstd::string::StringSliceAdditionalSpecFns;
use crate::textutil::ascii_bytes;
use crate::textutil::ascii_bytes_of;
use crate::textutil::ascii_bytes_to_string;

verus! {

/// The immutable signing configuration, built once at startup and passed
/// by reference to the issuer and the validator.
pub struct TokenConfig {
    /// The `iss` claim stamped into new tokens.
    pub issuer: String,
    /// The `aud` claim stamped into new tokens.
    pub audience: String,
    /// Seconds from issuance to expiry; `exp = iat + exp_secs`.
    pub exp_secs: u64,
    /// The shared HMAC-SHA256 key.
    pub secret: Vec<u8>,
    /// Whether validation also requires `iss` to equal `issuer`.
    pub check_issuer: bool,
    /// Whether validation also requires `aud` to equal `audience`.
    pub check_audience: bool,
}

impl TokenConfig {
    /// The issuer a validated token must name, if that check is enabled.
    pub open spec fn required_issuer(&self) -> Option<Seq<char>> {
        if self.check_issuer {
            Some(self.issuer@)
        } else {
            None
        }
    }

    /// The audience a validated token must name, if that check is enabled.
    pub open spec fn required_audience(&self) -> Option<Seq<char>> {
        if self.check_audience {
            Some(self.audience@)
        } else {
            None
        }
    }
}

/// Why a token was rejected.  All three are reported to callers uniformly
/// as an unauthenticated outcome, never distinguished in a response.
#[derive(Debug, Clone, Copy, PartialEq, Eq, Structural)]
pub enum AuthError {
    /// The token does not have the expected shape.
    Malformed,
    /// The signature does not verify under the configured key (or a
    /// required issuer or audience does not match).
    InvalidSignature,
    /// The token is past its expiry.
    Expired,
}

/// The bytes of the fixed header `{"typ":"JWT","alg":"HS256"}`.
pub open spec fn header_json() -> Seq<u8> {
    seq![
        123u8, 34u8, 116u8, 121u8, 112u8, 34u8, 58u8, 34u8, 74u8, 87u8, 84u8, 34u8, 44u8, 34u8,
        97u8, 108u8, 103u8, 34u8, 58u8, 34u8, 72u8, 83u8, 50u8, 53u8, 54u8, 34u8, 125u8,
    ]
}

/// What the token's signature signs: `base64url(header) "." base64url(claims)`.
pub open spec fn token_msg(c: ClaimsView) -> Seq<u8> {
    b64_of(header_json()) + seq![46u8] + b64_of(claims_json(c))
}

/// The result of HMAC-SHA256 signing, already base64url-encoded, as the
/// outside crate returns it.  A function of the message and key alone —
/// assuming, as this crate and its surrounding program do, that no
/// consumer swaps the crate's process-wide crypto provider at runtime.
pub uninterp spec fn hs256_sig(message: Seq<u8>, key: Seq<u8>) -> Seq<u8>;

/// The full token bytes for claim set `c` under `key`.
pub open spec fn token_bytes(c: ClaimsView, key: Seq<u8>) -> Seq<u8> {
    token_msg(c) + seq![46u8] + hs256_sig(token_msg(c), key)
}

/// Relies on `jsonwebtoken::crypto::sign` with `Algorithm::HS256` and an
/// `EncodingKey::from_secret` key: the result is the URL-safe unpadded
/// base64 of the 32-byte HMAC-SHA256 digest of the message under the key
/// — 43 bytes, each in the base64url alphabet, a function of message and
/// key alone.  For this algorithm and key family the crate's signer is
/// total: the HMAC accepts keys of any length, so the call always returns
/// a signature.  (The crate routes signing through a process-wide
/// provider; the determinism assumes no consumer replaces it at runtime
/// via `CryptoProvider::install_default` — nothing here or in the
/// surrounding program does.)
#[verifier::external_body]
fn hs256_sign(message: &Vec<u8>, key: &Vec<u8>) -> (r: Option<Vec<u8>>)
    ensures
        r is Some,
        r matches Some(s) ==> s@ == hs256_sig(message@, key@) && s@.len() == 43 && (forall|i: int|
            0 <= i < s@.len() ==> is_b64_byte(#[trigger] s@[i])),
{
    let encoding_key = jsonwebtoken::EncodingKey::from_secret(key.as_slice());
    match jsonwebtoken::crypto::sign(message.as_slice(), &encoding_key, jsonwebtoken::Algorithm::HS256) {
        Ok(s) => Some(s.into_bytes()),
        Err(_) => None,
    }
}

/// Builds the fixed header bytes.
fn header_bytes() -> (v: Vec<u8>)
    ensures
        v@ == header_json(),
{
    let mut out: Vec<u8> = Vec::new();
    out.push(123);
    out.push(34);
    out.push(116);
    out.push(121);
    out.push(112);
    out.push(34);
    out.push(58);
    out.push(34);
    out.push(74);
    out.push(87);
    out.push(84);
    out.push(34);
    out.push(44);
    out.push(34);
    out.push(97);
    out.push(108);
    out.push(103);
    out.push(34);
    out.push(58);
    out.push(34);
    out.push(72);
    out.push(83);
    out.push(50);
    out.push(53);
    out.push(54);
    out.push(34);
    out.push(125);
    proof {
        assert(out@ =~= header_json());
    }
    out
}

/// The claim set issued to `sub` at `now` under `cfg`.
pub open spec fn issued_claims(sub: Seq<char>, now: u64, cfg: &TokenConfig) -> ClaimsView {
    ClaimsView {
        sub: sub,
        exp: (now + cfg.exp_secs) as u64,
        iat: now,
        iss: cfg.issuer@,
        aud: cfg.audience@,
    }
}

/// Builds and signs a token for `sub` at time `now`.  HMAC signing under
/// a shared secret cannot fail, so neither can this.
pub fn issue(sub: &String, now: u64, cfg: &TokenConfig) -> (r: Result<String, ServiceError>)
    requires
        now + cfg.exp_secs <= u64::MAX,
    ensures
        r is Ok,
        r matches Ok(t) ==> all_ascii(t@) && ascii_bytes_of(t@) == token_bytes(
            issued_claims(sub@, now, cfg),
            cfg.secret@,
        ),
        r matches Ok(t) ==> t@.len() == token_msg(issued_claims(sub@, now, cfg)).len() + 44,
{
    let claims = Claims {
        sub: sub.clone(),
        exp: now + cfg.exp_secs,
        iat: now,
        iss: cfg.issuer.clone(),
        aud: cfg.audience.clone(),
    };
    let ghost cv = issued_claims(sub@, now, cfg);
    proof {
        assert(claims@ =~= cv);
    }
    let payload = encode_claims(&claims);
    let header = header_bytes();
    let mut msg: Vec<u8> = Vec::new();
    append_b64(&mut msg, &header);
    msg.push(46);
    append_b64(&mut msg, &payload);
    proof {
        assert(msg@ =~= token_msg(cv));
    }
    let sig = hs256_sign(&msg, &cfg.secret);
    match sig {
        Some(mut s) => {
            let mut token = msg;
            token.push(46);
            token.append(&mut s);
            proof {
                assert(token@ =~= token_bytes(cv, cfg.secret@));
                lemma_b64_of_alphabet(header_json());
                lemma_b64_of_alphabet(claims_json(cv));
                assert forall|i: int| 0 <= i < token@.len() implies #[trigger] token@[i]
                    < 128 by {
                    let tm = token_msg(cv);
                    if i < tm.len() {
                        assert(token@[i] == tm[i]);
                        if i < b64_of(header_json()).len() {
                            assert(tm[i] == b64_of(header_json())[i]);
                        } else if i == b64_of(header_json()).len() {
                            assert(tm[i] == 46);
                        } else {
                            assert(tm[i] == b64_of(claims_json(cv))[i - b64_of(
                                header_json(),
                            ).len() - 1]);
                        }
                    } else if i == tm.len() {
                        assert(token@[i] == 46);
                    } else {
                        assert(token@[i] == hs256_sig(tm, cfg.secret@)[i - tm.len() - 1]);
                    }
                }
            }
            let out = ascii_bytes_to_string(token);
            proof {
                assert(ascii_bytes_of(out@) =~= token_bytes(cv, cfg.secret@));
            }
            Ok(out)
        },
        None => {
            proof {
                assert(false);
            }
            Err(ServiceError::SigningError(String::from_str("token signing failed")))
        },
    }
}

/// The first position of `b` in `s` at or after `from`; -1 if none.
pub open spec fn find_byte(s: Seq<u8>, b: u8, from: int) -> int
    decreases s.len() - from when from <= s.len()
{
    if from < 0 || from >= s.len() {
        -1
    } else if s[from] == b {
        from
    } else {
        find_byte(s, b, from + 1)
    }
}

proof fn lemma_find_byte_bounds(s: Seq<u8>, b: u8, from: int)
    requires
        0 <= from <= s.len(),
    ensures
        find_byte(s, b, from) == -1 || (from <= find_byte(s, b, from) < s.len() && s[find_byte(
            s,
            b,
            from,
        )] == b),
        find_byte(s, b, from) == -1 ==> (forall|k: int| from <= k < s.len() ==> s[k] != b),
        forall|k: int| from <= k < find_byte(s, b, from) ==> s[k] != b,
    decreases s.len() - from,
{
    if from < s.len() && s[from] != b {
        lemma_find_byte_bounds(s, b, from + 1);
    }
}

/// `b` first occurs at `at` when nothing before it matches.
proof fn lemma_find_byte_at(s: Seq<u8>, b: u8, from: int, at: int)
    requires
        0 <= from <= at < s.len(),
        s[at] == b,
        forall|k: int| from <= k < at ==> s[k] != b,
    ensures
        find_byte(s, b, from) == at,
    decreases at - from,
{
    if from < at {
        lemma_find_byte_at(s, b, from + 1, at);
    }
}

/// The strict reading of claim-set JSON, as a mathematical function: the
/// unique claim set with these canonical bytes, if there is one.
pub open spec fn claims_parse(v: Seq<u8>) -> Option<ClaimsView> {
    if exists|cv: ClaimsView| v == claims_json(cv) {
        Some(choose|cv: ClaimsView| v == claims_json(cv))
    } else {
        None
    }
}

/// What validation decides, given the token text, the key, the clock and
/// the optional issuer/audience requirements.  Checks run in this order:
/// shape, then signature, then issuer/audience, then expiry.
pub open spec fn validate_model(
    t: Seq<char>,
    key: Seq<u8>,
    now: u64,
    req_iss: Option<Seq<char>>,
    req_aud: Option<Seq<char>>,
) -> Result<ClaimsView, AuthError> {
    if !all_ascii(t) {
        Err(AuthError::Malformed)
    } else {
        let bytes = ascii_bytes_of(t);
        let d1 = find_byte(bytes, 46, 0);
        if d1 < 0 {
            Err(AuthError::Malformed)
        } else {
            let d2 = find_byte(bytes, 46, d1 + 1);
            if d2 < 0 {
                Err(AuthError::Malformed)
            } else {
                let h = bytes.subrange(0, d1);
                let p = bytes.subrange(d1 + 1, d2);
                let sg = bytes.subrange(d2 + 1, bytes.len() as int);
                if b64_parse(h) != Some(header_json()) {
                    Err(AuthError::Malformed)
                } else {
                    match b64_parse(p) {
                        None => Err(AuthError::Malformed),
                        Some(pj) => match claims_parse(pj) {
                            None => Err(AuthError::Malformed),
                            Some(cv) => {
                                if sg != hs256_sig(bytes.subrange(0, d2), key) {
                                    Err(AuthError::InvalidSignature)
                                } else if match req_iss {
                                    Some(x) => cv.iss != x,
                                    None => false,
                                } {
                                    Err(AuthError::InvalidSignature)
                                } else if match req_aud {
                                    Some(x) => cv.aud != x,
                                    None => false,
                                } {
                                    Err(AuthError::InvalidSignature)
                                } else if cv.exp <= now {
                                    Err(AuthError::Expired)
                                } else {
                                    Ok(cv)
                                }
                            },
                        },
                    }
                }
            }
        }
    }
}

/// Finds the first `b` at or after `from`, as `find_byte` does.
fn find_byte_exec(v: &Vec<u8>, b: u8, from: usize) -> (r: Option<usize>)
    requires
        from <= v@.len(),
    ensures
        r matches Some(i) ==> from <= i < v@.len() && find_byte(v@, b, from as int) == i,
        r is None ==> find_byte(v@, b, from as int) == -1,
{
    let len = v.len();
    let mut i = from;
    while i < len
        invariant
            from <= i <= len,
            len == v@.len(),
            forall|k: int| from <= k < i ==> v@[k] != b,
        decreases len - i,
    {
        if v[i] == b {
            proof {
                lemma_find_byte_at(v@, b, from as int, i as int);
            }
            return Some(i);
        }
        i = i + 1;
    }
    proof {
        lemma_find_byte_bounds(v@, b, from as int);
        if find_byte(v@, b, from as int) != -1 {
            assert(v@[find_byte(v@, b, from as int)] == b);
        }
    }
    None
}

/// Whether `v[from..to]` equals `pat`.
fn region_eq(v: &Vec<u8>, from: usize, to: usize, pat: &Vec<u8>) -> (r: bool)
    requires
        from <= to <= v@.len(),
    ensures
        r <==> v@.subrange(from as int, to as int) == pat@,
{
    if to - from != pat.len() {
        proof {
            assert(v@.subrange(from as int, to as int).len() == to - from);
        }
        return false;
    }
    let n = pat.len();
    let mut i: usize = 0;
    while i < n
        invariant
            0 <= i <= n,
            n == pat@.len(),
            from + n <= v@.len(),
            to == from + n,
            forall|k: int| 0 <= k < i ==> v@[from + k] == pat@[k],
        decreases n - i,
    {
        if v[from + i] != pat[i] {
            proof {
                assert(v@.subrange(from as int, to as int)[i as int] == v@[from + i]);
            }
            return false;
        }
        i = i + 1;
    }
    proof {
        assert(v@.subrange(from as int, to as int) =~= pat@);
    }
    true
}

/// Validates a token: verifies the shape, the signature under the
/// configured key, the optional issuer/audience requirements, and the
/// expiry against `now`.  The outcome equals `validate_model` in every
/// case: the same claim set on success, the same error otherwise.
#[verifier::rlimit(100)]
#[verifier::spinoff_prover]
pub fn validate(token: &str, cfg: &TokenConfig, now: u64) -> (r: Result<Claims, AuthError>)
    ensures
        r matches Ok(c) ==> validate_model(
            token@,
            cfg.secret@,
            now,
            cfg.required_issuer(),
            cfg.required_audience(),
        ) == Ok::<ClaimsView, AuthError>(c@),
        r matches Err(e) ==> validate_model(
            token@,
            cfg.secret@,
            now,
            cfg.required_issuer(),
            cfg.required_audience(),
        ) == Err::<ClaimsView, AuthError>(e),
        validate_model(
            token@,
            cfg.secret@,
            now,
            cfg.required_issuer(),
            cfg.required_audience(),
        ) is Ok ==> r is Ok,
{
    let ghost model = validate_model(
        token@,
        cfg.secret@,
        now,
        cfg.required_issuer(),
        cfg.required_audience(),
    );
    if !token.is_ascii() {
        proof {
            crate::textutil::lemma_all_ascii_is_ascii_chars(token@);
            assert(!all_ascii(token@));
        }
        return Err(AuthError::Malformed);
    }
    proof {
        crate::textutil::lemma_all_ascii_is_ascii_chars(token@);
        assert(all_ascii(token@));
        assert(ascii_bytes_of(token@) =~= token.spec_bytes()) by {
            broadcast use vstd::string::is_ascii_spec_bytes;

        }
    }
    let bytes = ascii_bytes(token);
    let len = bytes.len();
    let d1_r = find_byte_exec(&bytes, 46, 0);
    let d1 = match d1_r {
        Some(i) => i,
        None => {
            return Err(AuthError::Malformed);
        },
    };
    let d2_r = find_byte_exec(&bytes, 46, d1 + 1);
    let d2 = match d2_r {
        Some(i) => i,
        None => {
            return Err(AuthError::Malformed);
        },
    };
    // the header must be exactly the canonical encoding of the fixed header
    let header = header_bytes();
    let mut expected_h: Vec<u8> = Vec::new();
    append_b64(&mut expected_h, &header);
    let ghost h = bytes@.subrange(0, d1 as int);
    if !region_eq(&bytes, 0, d1, &expected_h) {
        proof {
            if b64_parse(h) == Some(header_json()) {
                crate::base64url::lemma_b64_of_of_b64_parse(h);
            }
        }
        return Err(AuthError::Malformed);
    }
    proof {
        lemma_b64_parse_of_b64_of(header_json());
        assert(b64_parse(h) matches Some(x) && x =~= header_json());
    }
    let pj_r = b64_decode_range(&bytes, d1 + 1, d2);
    let pj = match pj_r {
        Some(p) => p,
        None => {
            return Err(AuthError::Malformed);
        },
    };
    let claims_r = parse_claims(&pj);
    let c = match claims_r {
        Some(c) => c,
        None => {
            proof {
                assert(claims_parse(pj@) is None) by {
                    if exists|cv: ClaimsView| pj@ == claims_json(cv) {
                        let cv = choose|cv: ClaimsView| pj@ == claims_json(cv);
                        assert(false);
                    }
                }
            }
            return Err(AuthError::Malformed);
        },
    };
    proof {
        assert(claims_parse(pj@) == Some(c@)) by {
            assert(pj@ == claims_json(c@));
            let cv = choose|cv: ClaimsView| pj@ == claims_json(cv);
            lemma_claims_json_injective(cv, c@);
        }
    }
    // recompute the signature over everything before the second dot
    let mut msg: Vec<u8> = Vec::new();
    let mut k: usize = 0;
    while k < d2
        invariant
            0 <= k <= d2 < len,
            len == bytes@.len(),
            msg@ == bytes@.subrange(0, k as int),
        decreases d2 - k,
    {
        msg.push(bytes[k]);
        proof {
            assert(msg@ =~= bytes@.subrange(0, k + 1));
        }
        k = k + 1;
    }
    let sig = match hs256_sign(&msg, &cfg.secret) {
        Some(s) => s,
        None => {
            proof {
                assert(false);
            }
            return Err(AuthError::InvalidSignature);
        },
    };
    if !region_eq(&bytes, d2 + 1, len, &sig) {
        return Err(AuthError::InvalidSignature);
    }
    if cfg.check_issuer {
        if !(c.iss == cfg.issuer) {
            return Err(AuthError::InvalidSignature);
        }
    }
    if cfg.check_audience {
        if !(c.aud == cfg.audience) {
            return Err(AuthError::InvalidSignature);
        }
    }
    if c.exp <= now {
        return Err(AuthError::Expired);
    }
    Ok(c)
}

/// A token issued for claim set `c` under `key` validates back to exactly
/// `c` whenever the clock has not reached its expiry and any enabled
/// issuer/audience requirement names what the token carries.
#[verifier::rlimit(100)]
#[verifier::spinoff_prover]
pub proof fn lemma_validate_of_issued(
    c: ClaimsView,
    key: Seq<u8>,
    now: u64,
    t: Seq<char>,
    req_iss: Option<Seq<char>>,
    req_aud: Option<Seq<char>>,
)
    requires
        all_ascii(t),
        ascii_bytes_of(t) == token_bytes(c, key),
        now < c.exp,
        req_iss matches Some(x) ==> x == c.iss,
        req_aud matches Some(x) ==> x == c.aud,
    ensures
        validate_model(t, key, now, req_iss, req_aud) == Ok::<ClaimsView, AuthError>(c),
{
    let bytes = ascii_bytes_of(t);
    let hb = b64_of(header_json());
    let pb = b64_of(claims_json(c));
    let tm = token_msg(c);
    let sg = hs256_sig(tm, key);
    lemma_b64_of_alphabet(header_json());
    lemma_b64_of_alphabet(claims_json(c));
    assert(bytes =~= (hb + seq![46u8] + pb) + seq![46u8] + sg);
    let d1 = hb.len() as int;
    let d2 = tm.len() as int;
    assert forall|k: int| 0 <= k < d1 implies bytes[k] != 46 by {
        assert(bytes[k] == hb[k]);
        assert(is_b64_byte(hb[k]));
    }
    assert(bytes[d1] == 46);
    lemma_find_byte_at(bytes, 46, 0, d1);
    assert forall|k: int| d1 + 1 <= k < d2 implies bytes[k] != 46 by {
        assert(bytes[k] == pb[k - d1 - 1]);
        assert(is_b64_byte(pb[k - d1 - 1]));
    }
    assert(bytes[d2] == 46);
    lemma_find_byte_at(bytes, 46, d1 + 1, d2);
    let h = bytes.subrange(0, d1);
    let p = bytes.subrange(d1 + 1, d2);
    let s2 = bytes.subrange(d2 + 1, bytes.len() as int);
    assert(h =~= hb);
    assert(p =~= pb);
    assert(s2 =~= sg);
    lemma_b64_parse_of_b64_of(header_json());
    assert(b64_parse(h) matches Some(x) && x =~= header_json());
    assert(b64_parse(h) == Some(header_json()));
    lemma_b64_parse_of_b64_of(claims_json(c));
    assert(b64_parse(p) matches Some(x) && x =~= claims_json(c));
    assert(b64_parse(p) == Some(claims_json(c)));
    assert(claims_parse(claims_json(c)) == Some(c)) by {
        assert(claims_json(c) == claims_json(c));
        let cv = choose|cv: ClaimsView| claims_json(c) == claims_json(cv);
        lemma_claims_json_injective(cv, c);
    }
    assert(bytes.subrange(0, d2) =~= tm);
}

/// A token past its expiry never validates, whatever its signature: a
/// validated claim set always expires strictly after `now`.
pub proof fn lemma_validated_not_expired(
    t: Seq<char>,
    key: Seq<u8>,
    now: u64,
    req_iss: Option<Seq<char>>,
    req_aud: Option<Seq<char>>,
)
    ensures
        validate_model(t, key, now, req_iss, req_aud) matches Ok(cv) ==> cv.exp > now,
{
}

/// Validation is sound for the configured key: a validated token carries,
/// after its second dot, exactly the named HMAC signature of everything
/// before it under that key, and its payload is the canonical JSON of the
/// claim set returned.  A token whose signature part differs from that
/// value — for instance one signed under another key whose signature
/// differs — is never accepted.
pub proof fn lemma_validated_signature(
    t: Seq<char>,
    key: Seq<u8>,
    now: u64,
    req_iss: Option<Seq<char>>,
    req_aud: Option<Seq<char>>,
)
    ensures
        validate_model(t, key, now, req_iss, req_aud) matches Ok(cv) ==> ({
            let bytes = ascii_bytes_of(t);
            let d1 = find_byte(bytes, 46, 0);
            let d2 = find_byte(bytes, 46, d1 + 1);
            &&& bytes.subrange(d2 + 1, bytes.len() as int) == hs256_sig(
                bytes.subrange(0, d2),
                key,
            )
            &&& b64_parse(bytes.subrange(d1 + 1, d2)) == Some(claims_json(cv))
        }),
{
    if validate_model(t, key, now, req_iss, req_aud) is Ok {
        let cv = validate_model(t, key, now, req_iss, req_aud)->Ok_0;
        let bytes = ascii_bytes_of(t);
        let d1 = find_byte(bytes, 46, 0);
        let d2 = find_byte(bytes, 46, d1 + 1);
        let pj = b64_parse(bytes.subrange(d1 + 1, d2))->Some_0;
        assert(claims_parse(pj) == Some(cv));
        assert(pj == claims_json(cv)) by {
            let w = choose|w: ClaimsView| pj == claims_json(w);
            assert(pj == claims_json(w));
        }
    }
}

} // verus!
