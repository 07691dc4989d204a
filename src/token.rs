//! Signed, time-bounded identity tokens.
use vstd::prelude::*;
use vstd::string::StrSliceExecFns;

verus! {

/// Lifetime of an issued token, in seconds (24 hours).
pub const TOKEN_LIFETIME_SECS: u64 = 86400;

/// Why a token was not accepted.
#[derive(Debug, Clone, Copy, PartialEq, Eq, Structural)]
pub enum TokenError {
    /// The token is not a well-formed signed claim set.
    Malformed,
    /// The signature does not match the signing key.
    BadSignature,
    /// The expiry is not after the time of verification.
    Expired,
    /// The clock reads before the epoch, where no token time exists.
    ClockBeforeEpoch,
}

/// What a token carries: its subject and validity window, in epoch seconds.
#[derive(Debug)]
pub struct Claims {
    pub sub: String,
    pub exp: u64,
    pub iat: u64,
}

/// Claim fields as read from a token: subject, expiry and issued-at, each
/// present or not.
pub type ClaimFields = (Option<Seq<char>>, Option<u64>, Option<u64>);

/// What decoding `token` with `secret` yields, without any expiry check.
pub uninterp spec fn jwt_claims_of(token: Seq<char>, secret: Seq<char>) -> Result<ClaimFields, TokenError>;

/// The hyphenated lower-case text of an identifier.
pub uninterp spec fn uuid_text(id: u128) -> Seq<char>;

/// The identifier that a text parses to, if any.
pub uninterp spec fn uuid_parsed(s: Seq<char>) -> Option<u128>;

pub open spec fn opt_string_view(o: Option<String>) -> Option<Seq<char>> {
    match o {
        Some(s) => Some(s@),
        None => None,
    }
}

pub open spec fn fields_view(r: Result<(Option<String>, Option<u64>, Option<u64>), TokenError>) -> Result<ClaimFields, TokenError> {
    match r {
        Ok((s, e, i)) => Ok((opt_string_view(s), e, i)),
        Err(e) => Err(e),
    }
}

/// The claim fields of a token that was signed with these values.
pub open spec fn signed_fields(sub: Seq<char>, exp: u64, iat: u64) -> Result<ClaimFields, TokenError> {
    Ok((Some(sub), Some(exp), Some(iat)))
}

/// Relies on jsonwebtoken::encode with the default HS256 header: signing a
/// JSON object with an HMAC key cannot fail, and jsonwebtoken::decode with the
/// same key gives back the claims that were signed.
#[verifier::external_body]
fn sign_claims(sub: &str, exp: u64, iat: u64, secret: &str) -> (r: Result<String, TokenError>)
    ensures
        r.is_ok(),
        r.is_ok() ==> jwt_claims_of(r.unwrap()@, secret@) == signed_fields(sub@, exp, iat),
        r.is_ok() ==> r.unwrap()@.len() > 0,
{
    let mut m = serde_json::Map::new();
    m.insert("sub".to_string(), serde_json::Value::from(sub));
    m.insert("exp".to_string(), serde_json::Value::from(exp));
    m.insert("iat".to_string(), serde_json::Value::from(iat));
    let key = jsonwebtoken::EncodingKey::from_secret(secret.as_bytes());
    jsonwebtoken::encode(&jsonwebtoken::Header::default(), &serde_json::Value::Object(m), &key)
        .map_err(|_| TokenError::Malformed)
}

/// Relies on jsonwebtoken::decode with HS256 and no expiry check: it checks
/// the signature and reads the claim object; the result depends on the token
/// and the key alone.
#[verifier::external_body]
fn open_token(token: &str, secret: &str) -> (r: Result<(Option<String>, Option<u64>, Option<u64>), TokenError>)
    ensures
        fields_view(r) == jwt_claims_of(token@, secret@),
{
    let mut v = jsonwebtoken::Validation::new(jsonwebtoken::Algorithm::HS256);
    v.validate_exp = false;
    let key = jsonwebtoken::DecodingKey::from_secret(secret.as_bytes());
    match jsonwebtoken::decode::<serde_json::Map<String, serde_json::Value>>(token, &key, &v) {
        Ok(d) => Ok((
            d.claims.get("sub").and_then(|s| s.as_str()).map(|s| s.to_string()),
            d.claims.get("exp").and_then(|n| n.as_u64()),
            d.claims.get("iat").and_then(|n| n.as_u64()),
        )),
        Err(e) => match e.kind() {
            jsonwebtoken::errors::ErrorKind::InvalidSignature => Err(TokenError::BadSignature),
            _ => Err(TokenError::Malformed),
        },
    }
}

/// A bound on every time the clock can give, in epoch seconds either side
/// of the epoch: chrono's `DateTime<Utc>` spans less than 262144 years each way.
pub const CLOCK_MAX_SECS: i64 = 10_000_000_000_000;

/// A time in the range the clock can give.
pub open spec fn clock_reading(t: i64) -> bool {
    -CLOCK_MAX_SECS <= t <= CLOCK_MAX_SECS
}

/// Relies on chrono's `From<SystemTime> for DateTime<Utc>` and
/// `DateTime::timestamp`: the current time in epoch seconds, negative for a
/// system time before the epoch, within chrono's representable range.
#[verifier::external_body]
pub(crate) fn clock_now() -> (r: i64)
    ensures
        clock_reading(r),
{
    chrono::DateTime::<chrono::Utc>::from(std::time::SystemTime::now()).timestamp()
}

/// Relies on uuid's Display: the hyphenated text of an identifier, which
/// uuid::Uuid::parse_str reads back.
#[verifier::external_body]
pub(crate) fn uuid_to_text(id: u128) -> (r: String)
    ensures
        r@ == uuid_text(id),
        uuid_parsed(r@) == Some(id),
{
    uuid::Uuid::from_u128(id).to_string()
}

/// Relies on uuid::Uuid::parse_str.
#[verifier::external_body]
fn parse_uuid(s: &str) -> (r: Option<u128>)
    ensures
        r == uuid_parsed(s@),
{
    uuid::Uuid::parse_str(s).ok().map(|u| u.as_u128())
}

/// Relies on uuid::Uuid::new_v4: a random identifier.
#[verifier::external_body]
pub(crate) fn fresh_id() -> (r: u128) {
    uuid::Uuid::new_v4().as_u128()
}


/// The outcome of verifying `token` with `secret` at time `now`: the
/// signature must hold, subject, expiry and issued-at must be present, and
/// the expiry must lie after `now`.
pub open spec fn token_verdict(token: Seq<char>, secret: Seq<char>, now: u64) -> Result<(Seq<char>, u64, u64), TokenError> {
    match jwt_claims_of(token, secret) {
        Err(e) => Err(e),
        Ok((Some(sub), Some(exp), Some(iat))) => {
            if exp > now {
                Ok((sub, exp, iat))
            } else {
                Err(TokenError::Expired)
            }
        },
        Ok(_) => Err(TokenError::Malformed),
    }
}

pub open spec fn claims_view(r: Result<Claims, TokenError>) -> Result<(Seq<char>, u64, u64), TokenError> {
    match r {
        Ok(c) => Ok((c.sub@, c.exp, c.iat)),
        Err(e) => Err(e),
    }
}

/// Issues and verifies tokens signed with one process-wide secret.
pub struct JwtService {
    secret: String,
}

impl JwtService {
    pub closed spec fn secret_view(&self) -> Seq<char> {
        self.secret@
    }

    pub fn new(secret: String) -> (r: Self)
        ensures
            r.secret_view() == secret@,
    {
        JwtService { secret }
    }

    /// Issues a token for `user_id` at time `now`, valid for the fixed lifetime.
    pub fn generate_token_at(&self, user_id: u128, now: u64) -> (r: String)
        requires
            now <= u64::MAX - TOKEN_LIFETIME_SECS,
        ensures
            jwt_claims_of(r@, self.secret_view()) == signed_fields(uuid_text(user_id), (now + TOKEN_LIFETIME_SECS) as u64, now),
            r@.len() > 0,
            uuid_parsed(uuid_text(user_id)) == Some(user_id),
    {
        let sub = uuid_to_text(user_id);
        let signed = sign_claims(sub.as_str(), now + TOKEN_LIFETIME_SECS, now, self.secret.as_str());
        match signed {
            Ok(t) => t,
            Err(_) => String::new(),
        }
    }

    /// Issues a token for `user_id` at the time the clock gives; a clock
    /// before the epoch is refused.
    pub fn generate_token(&self, user_id: u128) -> (r: Result<String, TokenError>)
        ensures
            uuid_parsed(uuid_text(user_id)) == Some(user_id),
            match r {
                Ok(t) => t@.len() > 0 && exists|now: u64|
                    jwt_claims_of(t@, self.secret_view()) == #[trigger] signed_fields(uuid_text(user_id), (now + TOKEN_LIFETIME_SECS) as u64, now)
                    && now <= CLOCK_MAX_SECS,
                Err(e) => e == TokenError::ClockBeforeEpoch,
            },
    {
        let t = clock_now();
        if t < 0 {
            let _ = uuid_to_text(user_id);
            return Err(TokenError::ClockBeforeEpoch);
        }
        Ok(self.generate_token_at(user_id, t as u64))
    }

    /// Verifies `token` at time `now`: signature, presence of the claims, and
    /// expiry strictly after `now`.
    pub fn verify_token_at(&self, token: &str, now: u64) -> (r: Result<Claims, TokenError>)
        ensures
            claims_view(r) == token_verdict(token@, self.secret_view(), now),
    {
        match open_token(token, self.secret.as_str()) {
            Err(e) => Err(e),
            Ok((Some(sub), Some(exp), Some(iat))) => {
                if exp > now {
                    Ok(Claims { sub, exp, iat })
                } else {
                    Err(TokenError::Expired)
                }
            },
            Ok(_) => Err(TokenError::Malformed),
        }
    }

    /// Verifies `token` at the time the clock gives; a clock before the
    /// epoch is refused.
    pub fn verify_token(&self, token: &str) -> (r: Result<Claims, TokenError>)
        ensures
            r == Err::<Claims, TokenError>(TokenError::ClockBeforeEpoch)
                || exists|now: u64| claims_view(r) == #[trigger] token_verdict(token@, self.secret_view(), now),
    {
        let t = clock_now();
        if t < 0 {
            return Err(TokenError::ClockBeforeEpoch);
        }
        self.verify_token_at(token, t as u64)
    }
}

/// Why a request's bearer credential did not resolve to a user.
#[derive(Debug, Clone, Copy, PartialEq, Eq, Structural)]
pub enum BearerError {
    /// No credential was supplied.
    Missing,
    /// The credential does not start with `Bearer `.
    BadFormat,
    /// The token was not accepted.
    Token(TokenError),
    /// The token's subject is not a user identifier.
    BadSubject,
}

/// The scheme prefix of a bearer credential.
pub open spec fn bearer_prefix() -> Seq<char> {
    seq!['B', 'e', 'a', 'r', 'e', 'r', ' ']
}

pub open spec fn opt_str_view(o: Option<&str>) -> Option<Seq<char>> {
    match o {
        Some(s) => Some(s@),
        None => None,
    }
}

/// The user that a bearer credential `header` resolves to at time `now`.
pub open spec fn bearer_verdict(header: Option<Seq<char>>, secret: Seq<char>, now: u64) -> Result<u128, BearerError> {
    match header {
        None => Err(BearerError::Missing),
        Some(h) => {
            if h.len() < 7 || h.subrange(0, 7) != bearer_prefix() {
                Err(BearerError::BadFormat)
            } else {
                match token_verdict(h.subrange(7, h.len() as int), secret, now) {
                    Err(e) => Err(BearerError::Token(e)),
                    Ok((sub, _, _)) => match uuid_parsed(sub) {
                        Some(id) => Ok(id),
                        None => Err(BearerError::BadSubject),
                    },
                }
            }
        },
    }
}

impl JwtService {
    /// Resolves a bearer credential to the user it was issued for, at time `now`.
    pub fn extract_user_id_at(&self, header: Option<&str>, now: u64) -> (r: Result<u128, BearerError>)
        ensures
            r == bearer_verdict(opt_str_view(header), self.secret_view(), now),
    {
        let h = match header {
            None => return Err(BearerError::Missing),
            Some(h) => h,
        };
        let n = h.unicode_len();
        if n < 7 || h.get_char(0) != 'B' || h.get_char(1) != 'e' || h.get_char(2) != 'a'
            || h.get_char(3) != 'r' || h.get_char(4) != 'e' || h.get_char(5) != 'r'
            || h.get_char(6) != ' ' {
            proof {
                if n >= 7 {
                    assert(h@.subrange(0, 7)[0] == h@[0]);
                    assert(h@.subrange(0, 7)[1] == h@[1]);
                    assert(h@.subrange(0, 7)[2] == h@[2]);
                    assert(h@.subrange(0, 7)[3] == h@[3]);
                    assert(h@.subrange(0, 7)[4] == h@[4]);
                    assert(h@.subrange(0, 7)[5] == h@[5]);
                    assert(h@.subrange(0, 7)[6] == h@[6]);
                }
            }
            return Err(BearerError::BadFormat);
        }
        assert(h@.subrange(0, 7) =~= bearer_prefix());
        let token = h.substring_char(7, n);
        match self.verify_token_at(token, now) {
            Err(e) => Err(BearerError::Token(e)),
            Ok(c) => match parse_uuid(c.sub.as_str()) {
                Some(id) => Ok(id),
                None => Err(BearerError::BadSubject),
            },
        }
    }

    /// Resolves a bearer credential at the time the clock gives; a clock
    /// before the epoch is refused.
    pub fn extract_user_id(&self, header: Option<&str>) -> (r: Result<u128, BearerError>)
        ensures
            r == Err::<u128, BearerError>(BearerError::Token(TokenError::ClockBeforeEpoch))
                || exists|now: u64| r == #[trigger] bearer_verdict(opt_str_view(header), self.secret_view(), now),
    {
        let t = clock_now();
        if t < 0 {
            return Err(BearerError::Token(TokenError::ClockBeforeEpoch));
        }
        self.extract_user_id_at(header, t as u64)
    }
}

/// A token issued at `t` is accepted at every time before `t` plus the
/// lifetime, with the subject it was issued for, and rejected as expired from
/// then on; in particular it is accepted a minute before the lifetime ends and
/// rejected a minute after.
pub proof fn lemma_token_lifetime(token: Seq<char>, secret: Seq<char>, sub: Seq<char>, t: u64, now: u64)
    requires
        t <= u64::MAX - TOKEN_LIFETIME_SECS - 60,
        jwt_claims_of(token, secret) == signed_fields(sub, (t + TOKEN_LIFETIME_SECS) as u64, t),
    ensures
        now < t + TOKEN_LIFETIME_SECS ==> token_verdict(token, secret, now) == Ok::<(Seq<char>, u64, u64), TokenError>((sub, (t + TOKEN_LIFETIME_SECS) as u64, t)),
        now >= t + TOKEN_LIFETIME_SECS ==> token_verdict(token, secret, now) == Err::<(Seq<char>, u64, u64), TokenError>(TokenError::Expired),
        token_verdict(token, secret, (t + 86340) as u64) is Ok,
        token_verdict(token, secret, (t + 86460) as u64) == Err::<(Seq<char>, u64, u64), TokenError>(TokenError::Expired),
{
}

/// A token issued for a user resolves, through a bearer credential, to that
/// same user at any time before it expires.
pub proof fn lemma_issued_token_resolves(header: Seq<char>, secret: Seq<char>, user_id: u128, t: u64, now: u64)
    requires
        t <= u64::MAX - TOKEN_LIFETIME_SECS,
        now < t + TOKEN_LIFETIME_SECS,
        header.len() >= 7,
        header.subrange(0, 7) == bearer_prefix(),
        jwt_claims_of(header.subrange(7, header.len() as int), secret)
            == signed_fields(uuid_text(user_id), (t + TOKEN_LIFETIME_SECS) as u64, t),
        uuid_parsed(uuid_text(user_id)) == Some(user_id),
    ensures
        bearer_verdict(Some(header), secret, now) == Ok::<u128, BearerError>(user_id),
{
}

} // verus!
