use vstd::prelude::*;
use jsonwebtoken::errors::Error as JwtError;
use crate::error::Error;
use crate::models::{Id, Role, RoleEnum, lemma_role_label_round_trip, now_micros, role_label, role_of_label};

verus! {

#[verifier::external_type_specification]
#[verifier::external_body]
pub struct ExJwtError(JwtError);

/// Lifetime of a token, in seconds.
pub const TOKEN_LIFETIME: i64 = 1800;

/// The compact HS256 token that signs the claims `sub` (the id as a hyphenated UUID),
/// `role` and `exp` with a secret.
pub uninterp spec fn jwt_of(sub: Id, role: Seq<char>, exp: u64, secret: Seq<char>) -> Seq<char>;

/// What a token carries once its HS256 signature is checked against a secret: `None`
/// for a malformed or forged token or one without an `exp` claim, else the claims
/// `sub`, `role` and `exp`, each `None` where it is missing or of another shape.
pub uninterp spec fn jwt_claims_of(token: Seq<char>, secret: Seq<char>) -> Option<(Option<Id>, Option<Seq<char>>, Option<u64>)>;

/// The view of an optional string.
pub open spec fn opt_view(o: Option<String>) -> Option<Seq<char>> {
    match o {
        Some(s) => Some(s@),
        None => None,
    }
}

/// Relies on `jsonwebtoken::encode` with the default header (HS256) and
/// `EncodingKey::from_secret`: signs a claims object `{sub, role, exp}`, `sub` being
/// `Uuid::from_u128(sub)` in hyphenated form. With an HMAC key the key family matches
/// the header, the JSON encoding of a header and a map cannot fail, and HMAC signing
/// always succeeds, so the call succeeds. `jsonwebtoken::decode` with the same secret
/// checks that signature and reads those claims back.
#[verifier::external_body]
fn encode_claims(sub: Id, role: &str, exp: u64, secret: &str) -> (r: Result<String, JwtError>)
    ensures
        r is Ok,
        r matches Ok(t) ==> t@ == jwt_of(sub, role@, exp, secret@) && jwt_claims_of(t@, secret@) == Some(
            (Some(sub), Some(role@), Some(exp)),
        ),
{
    let mut claims = serde_json::Map::new();
    claims.insert("sub".to_string(), uuid::Uuid::from_u128(sub).to_string().into());
    claims.insert("role".to_string(), role.into());
    claims.insert("exp".to_string(), exp.into());
    let key = jsonwebtoken::EncodingKey::from_secret(secret.as_bytes());
    jsonwebtoken::encode(&jsonwebtoken::Header::default(), &claims, &key)
}

/// Relies on `jsonwebtoken::decode` with `Validation::new(Algorithm::HS256)`, expiry
/// checking switched off, and `DecodingKey::from_secret`: checks the signature and
/// format, and reads the claims; `sub` through `Uuid::parse_str`.
#[verifier::external_body]
fn decode_claims(token: &str, secret: &str) -> (r: Result<(Option<Id>, Option<String>, Option<u64>), JwtError>)
    ensures
        match jwt_claims_of(token@, secret@) {
            Some(c) => r matches Ok(d) && d.0 == c.0 && opt_view(d.1) == c.1 && d.2 == c.2,
            None => r is Err,
        },
{
    let mut validation = jsonwebtoken::Validation::new(jsonwebtoken::Algorithm::HS256);
    validation.validate_exp = false;
    let key = jsonwebtoken::DecodingKey::from_secret(secret.as_bytes());
    let claims = jsonwebtoken::decode::<serde_json::Value>(token, &key, &validation)?.claims;
    let sub = claims["sub"].as_str().and_then(|s| uuid::Uuid::parse_str(s).ok()).map(|u| u.as_u128());
    Ok((sub, claims["role"].as_str().map(String::from), claims["exp"].as_u64()))
}

/// The claims of a token: subject, role and expiry (seconds since the Unix epoch).
#[derive(Clone, Copy, Debug, PartialEq, Eq, Structural)]
pub struct AuthData {
    pub sub: Id,
    pub role: Role,
    pub exp: u64,
}

/// The claims that a token with checked contents `claims` grants at instant `now`:
/// all three claims present, a known role, and not yet expired.
pub open spec fn validated(claims: Option<(Option<Id>, Option<Seq<char>>, Option<u64>)>, now: int) -> Option<AuthData> {
    match claims {
        Some((Some(sub), Some(label), Some(exp))) => match role_of_label(label) {
            Some(role) => if now <= exp {
                Some(AuthData { sub, role, exp })
            } else {
                None
            },
            None => None,
        },
        _ => None,
    }
}

/// Token `token` is the one issued for `sub` with `role` at instant `now`, signed with
/// `secret`: it expires `TOKEN_LIFETIME` seconds after `now`.
pub open spec fn issued_at(token: Seq<char>, secret: Seq<char>, sub: Id, role: Role, now: int) -> bool {
    let exp = (now + TOKEN_LIFETIME) as u64;
    &&& token == jwt_of(sub, role_label(role), exp, secret)
    &&& jwt_claims_of(token, secret) == Some((Some(sub), Some(role_label(role)), Some(exp)))
}

/// Issues a token for `uuid` with `role` at instant `now` (seconds since the Unix
/// epoch), expiring `TOKEN_LIFETIME` seconds later, signed with `secret`.
pub fn issue_token(uuid: Id, role: Role, secret: &str, now: i64) -> (r: Result<String, Error>)
    requires
        0 <= now <= i64::MAX - TOKEN_LIFETIME,
    ensures
        r matches Ok(t) && issued_at(t@, secret@, uuid, role, now as int),
{
    let exp = (now + TOKEN_LIFETIME) as u64;
    let label = RoleEnum::label(role);
    match encode_claims(uuid, label.as_str(), exp, secret) {
        Ok(t) => Ok(t),
        Err(_) => Err(Error::InternalServerError),
    }
}

/// Token `token`, checked against `secret`, carries subject `sub`, role `role` and
/// some expiry.
pub open spec fn grants(token: Seq<char>, secret: Seq<char>, sub: Id, role: Role) -> bool {
    jwt_claims_of(token, secret) matches Some((Some(s), Some(l), Some(_))) && s == sub && l == role_label(role)
}

/// Issues a token for `uuid` with `role`, valid for `TOKEN_LIFETIME` seconds from now.
pub fn generate_jwt(uuid: Id, role: Role, secret: &str) -> (r: Result<String, Error>)
    ensures
        r matches Ok(t) && grants(t@, secret@, uuid, role) && exists|now: int| 0 <= now && #[trigger] issued_at(
            t@,
            secret@,
            uuid,
            role,
            now,
        ),
{
    let now = now_micros() / 1_000_000;
    let r = issue_token(uuid, role, secret, now);
    assert(issued_at(r->Ok_0@, secret@, uuid, role, now as int));
    r
}

/// Checks a token against `secret` at instant `now` (seconds since the Unix epoch) and
/// returns its claims. A forged, malformed or expired token is `Unauthorized`.
pub fn validate_token(token: &str, secret: &str, now: i64) -> (r: Result<AuthData, Error>)
    ensures
        match validated(jwt_claims_of(token@, secret@), now as int) {
            Some(a) => r == Ok::<AuthData, Error>(a),
            None => r == Err::<AuthData, Error>(Error::Unauthorized),
        },
{
    let (sub, label, exp) = match decode_claims(token, secret) {
        Ok(c) => c,
        Err(_) => {
            return Err(Error::Unauthorized);
        },
    };
    let (sub, label, exp) = match (sub, label, exp) {
        (Some(s), Some(l), Some(e)) => (s, l, e),
        _ => {
            return Err(Error::Unauthorized);
        },
    };
    let role = match RoleEnum::parse(&label) {
        Some(r) => r,
        None => {
            return Err(Error::Unauthorized);
        },
    };
    if now >= 0 && (now as u64) > exp {
        return Err(Error::Unauthorized);
    }
    Ok(AuthData { sub, role, exp })
}

/// A token issued for `sub` with `role` and expiry `exp` grants exactly those claims
/// up to its expiry, and nothing after it.
pub proof fn lemma_token_round_trip(sub: Id, role: Role, exp: u64, now: int)
    ensures
        now <= exp ==> validated(Some((Some(sub), Some(role_label(role)), Some(exp))), now) == Some(
            AuthData { sub, role, exp },
        ),
        now > exp ==> validated(Some((Some(sub), Some(role_label(role)), Some(exp))), now) is None,
{
    lemma_role_label_round_trip(role);
}

impl AuthData {
    /// The subject, when the role is `Admin`; otherwise `Forbidden`.
    pub fn is_admin(&self) -> (r: Result<Id, Error>)
        ensures
            self.role == Role::Admin ==> r == Ok::<Id, Error>(self.sub),
            self.role != Role::Admin ==> r == Err::<Id, Error>(Error::Forbidden),
    {
        match self.role {
            Role::Admin => Ok(self.sub),
            Role::User => Err(Error::Forbidden),
        }
    }

    /// The subject, when it is `user_id`; otherwise `Forbidden`.
    pub fn user_ok(&self, user_id: Id) -> (r: Result<Id, Error>)
        ensures
            self.sub == user_id ==> r == Ok::<Id, Error>(self.sub),
            self.sub != user_id ==> r == Err::<Id, Error>(Error::Forbidden),
    {
        if self.sub == user_id {
            Ok(self.sub)
        } else {
            Err(Error::Forbidden)
        }
    }
}

/// Why `require_admin` refuses `auth`, if it does.
pub open spec fn admin_refusal(auth: Result<AuthData, Error>) -> Option<Error> {
    match auth {
        Err(_) => Some(Error::Unauthorized),
        Ok(a) => if a.role == Role::Admin {
            None
        } else {
            Some(Error::Forbidden)
        },
    }
}

/// Why `require_self_or_admin` refuses `auth` for `user_id`, if it does.
pub open spec fn self_refusal(auth: Result<AuthData, Error>, user_id: Id) -> Option<Error> {
    match auth {
        Err(_) => Some(Error::Unauthorized),
        Ok(a) => if a.role == Role::Admin || a.sub == user_id {
            None
        } else {
            Some(Error::Forbidden)
        },
    }
}

/// Admits administrators only: the subject of valid claims with role `Admin`;
/// `Forbidden` for another role; `Unauthorized` without valid claims.
pub fn require_admin(auth: Result<AuthData, Error>) -> (r: Result<Id, Error>)
    ensures
        auth matches Ok(a) ==> (a.role == Role::Admin ==> r == Ok::<Id, Error>(a.sub)) && (a.role != Role::Admin
            ==> r == Err::<Id, Error>(Error::Forbidden)),
        auth is Err ==> r == Err::<Id, Error>(Error::Unauthorized),
        r is Ok <==> (auth matches Ok(a) && a.role == Role::Admin),
        match admin_refusal(auth) {
            Some(e) => r == Err::<Id, Error>(e),
            None => auth matches Ok(a) && r == Ok::<Id, Error>(a.sub),
        },
{
    match auth {
        Ok(a) => a.is_admin(),
        Err(_) => Err(Error::Unauthorized),
    }
}

/// Admits administrators and the user `user_id` itself: the subject of valid claims
/// with role `Admin` or subject `user_id`; `Forbidden` otherwise; `Unauthorized`
/// without valid claims.
pub fn require_self_or_admin(auth: Result<AuthData, Error>, user_id: Id) -> (r: Result<Id, Error>)
    ensures
        auth matches Ok(a) ==> ((a.role == Role::Admin || a.sub == user_id) ==> r == Ok::<Id, Error>(a.sub)) && (!(
        a.role == Role::Admin || a.sub == user_id) ==> r == Err::<Id, Error>(Error::Forbidden)),
        auth is Err ==> r == Err::<Id, Error>(Error::Unauthorized),
        r is Ok <==> (auth matches Ok(a) && (a.role == Role::Admin || a.sub == user_id)),
        match self_refusal(auth, user_id) {
            Some(e) => r == Err::<Id, Error>(e),
            None => auth matches Ok(a) && r == Ok::<Id, Error>(a.sub),
        },
{
    match auth {
        Ok(a) => match a.is_admin() {
            Ok(id) => Ok(id),
            Err(_) => a.user_ok(user_id),
        },
        Err(_) => Err(Error::Unauthorized),
    }
}

/// What `require_admin` gives for `auth`.
pub open spec fn admin_outcome(auth: Result<AuthData, Error>) -> Result<Id, Error> {
    match admin_refusal(auth) {
        Some(e) => Err(e),
        None => Ok(auth->Ok_0.sub),
    }
}

/// What `require_self_or_admin` gives for `auth` and `user_id`.
pub open spec fn self_outcome(auth: Result<AuthData, Error>, user_id: Id) -> Result<Id, Error> {
    match self_refusal(auth, user_id) {
        Some(e) => Err(e),
        None => Ok(auth->Ok_0.sub),
    }
}

/// Permission checks on the outcome of token validation.
pub trait Permission: Sized {
    /// What `admin` gives.
    spec fn spec_admin(self) -> Result<Id, Error>;

    /// What `user` gives for `user_id`.
    spec fn spec_user(self, user_id: Id) -> Result<Id, Error>;

    /// Admits administrators only.
    fn admin(self) -> (r: Result<Id, Error>)
        ensures
            r == self.spec_admin(),
    ;

    /// Admits administrators and the user `user_id` itself.
    fn user(self, user_id: Id) -> (r: Result<Id, Error>)
        ensures
            r == self.spec_user(user_id),
    ;
}

impl Permission for Result<AuthData, Error> {
    /// The subject of claims with role `Admin`; `Forbidden` for another role;
    /// `Unauthorized` without valid claims.
    open spec fn spec_admin(self) -> Result<Id, Error> {
        admin_outcome(self)
    }

    /// The subject of claims with role `Admin` or subject `user_id`; `Forbidden`
    /// otherwise; `Unauthorized` without valid claims.
    open spec fn spec_user(self, user_id: Id) -> Result<Id, Error> {
        self_outcome(self, user_id)
    }

    fn admin(self) -> (r: Result<Id, Error>) {
        require_admin(self)
    }

    fn user(self, user_id: Id) -> (r: Result<Id, Error>) {
        require_self_or_admin(self, user_id)
    }
}

} // verus!
