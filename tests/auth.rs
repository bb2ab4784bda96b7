use unpacking::auth::{
    generate_jwt, issue_token, require_admin, require_self_or_admin, validate_token, AuthData, Permission,
};
use unpacking::db::users::{authenticate, insert};
use unpacking::db::Database;
use unpacking::error::Error;
use unpacking::models::{Role, User};

const SECRET: &str = "a-test-signing-secret";
const SALT: &str = "c29tZXNhbHQ";

fn test_auth(role: Role) -> AuthData {
    AuthData { sub: uuid::Uuid::new_v4().as_u128(), role, exp: 0 }
}

#[test]
fn is_admin() {
    let auth = test_auth(Role::Admin);
    assert!(auth.is_admin().is_ok());

    let auth = test_auth(Role::User);
    assert!(auth.is_admin().is_err());
}

#[test]
fn user_ok() {
    let auth = test_auth(Role::Admin);
    assert!(auth.user_ok(auth.sub).is_ok());
    assert!(auth.user_ok(uuid::Uuid::new_v4().as_u128()).is_err());

    let auth = test_auth(Role::User);
    assert!(auth.user_ok(auth.sub).is_ok());
    assert!(auth.user_ok(uuid::Uuid::new_v4().as_u128()).is_err());
}

#[test]
fn admin_permission() {
    let auth = test_auth(Role::Admin);
    let sub = auth.sub;
    assert_eq!(Ok::<AuthData, Error>(auth).admin().unwrap(), sub);

    let auth = test_auth(Role::User);
    assert!(Ok::<AuthData, Error>(auth).admin().is_err());
}

#[test]
fn user_permission() {
    let auth = test_auth(Role::Admin);
    let sub = auth.sub;
    assert_eq!(Ok::<AuthData, Error>(auth).user(uuid::Uuid::new_v4().as_u128()).unwrap(), sub);

    let auth = test_auth(Role::User);
    let sub = auth.sub;
    assert_eq!(Ok::<AuthData, Error>(auth).user(sub).unwrap(), sub);

    let auth = test_auth(Role::User);
    assert!(Ok::<AuthData, Error>(auth).user(uuid::Uuid::new_v4().as_u128()).is_err());
}

#[test]
fn valid_request() {
    let mut db = Database::new();
    let user = User::new("Jane".to_string(), "jane@example.com".to_string(), Role::User);
    let password = "secret-password";
    let user_id = insert(user, password, SALT, &mut db).expect("Can not create");
    let (id, role) = authenticate("jane@example.com", password, &db).expect("Can not authenticate");
    assert_eq!(id, user_id);
    let token = generate_jwt(id, role, SECRET).expect("Can not create token");
    let now = chrono::Utc::now().timestamp();
    let claims = validate_token(&token, SECRET, now).expect("Can not decode JWT");
    assert_eq!(claims.sub, user_id);
    assert_eq!(claims.role, Role::User);
}

#[test]
fn token_round_trip_keeps_subject_and_role() {
    let sub: u128 = 0x0123_4567_89ab_cdef_0123_4567_89ab_cdef;
    let token = issue_token(sub, Role::Admin, SECRET, 1_000_000).unwrap();
    let claims = validate_token(&token, SECRET, 1_000_000).unwrap();
    assert_eq!(claims, AuthData { sub, role: Role::Admin, exp: 1_001_800 });
    let claims = validate_token(&token, SECRET, 1_001_800).unwrap();
    assert_eq!(claims.role, Role::Admin);
}

#[test]
fn expired_token_is_unauthorized() {
    let token = issue_token(7, Role::User, SECRET, 1_000_000).unwrap();
    assert_eq!(validate_token(&token, SECRET, 1_001_801), Err(Error::Unauthorized));
}

#[test]
fn token_with_another_secret_is_unauthorized() {
    let token = issue_token(7, Role::User, SECRET, 1_000_000).unwrap();
    assert_eq!(validate_token(&token, "another-secret", 1_000_000), Err(Error::Unauthorized));
    assert_eq!(validate_token("not a token", SECRET, 1_000_000), Err(Error::Unauthorized));
}

#[test]
fn permission_without_valid_claims_is_unauthorized() {
    assert_eq!(require_admin(Err(Error::Unauthorized)), Err(Error::Unauthorized));
    assert_eq!(require_self_or_admin(Err(Error::Unauthorized), 3), Err(Error::Unauthorized));
}

#[test]
fn permission_decisions() {
    let admin = AuthData { sub: 1, role: Role::Admin, exp: 0 };
    let user = AuthData { sub: 2, role: Role::User, exp: 0 };
    assert_eq!(require_admin(Ok(admin)), Ok(1));
    assert_eq!(require_admin(Ok(user)), Err(Error::Forbidden));
    assert_eq!(require_self_or_admin(Ok(admin), 9), Ok(1));
    assert_eq!(require_self_or_admin(Ok(user), 2), Ok(2));
    assert_eq!(require_self_or_admin(Ok(user), 9), Err(Error::Forbidden));
}

#[test]
fn issued_token_expires_after_its_lifetime() {
    let token = issue_token(9, Role::User, SECRET, 100).unwrap();
    assert_eq!(validate_token(&token, SECRET, 100).unwrap().exp, 100 + unpacking::auth::TOKEN_LIFETIME as u64);
    assert_eq!(issue_token(9, Role::User, SECRET, 100).unwrap(), token);
}
