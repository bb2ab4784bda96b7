use unpacking::authentication::{hash_password, verify_password};
use unpacking::error::Error;
use unpacking::validation::MIN_PASSWORD_LENGTH;

const SALT: &str = "c29tZXNhbHQ";

#[test]
fn test_verify_random_password() {
    let password: String = "p4ssw0rd-with-some-length".chars().take(MIN_PASSWORD_LENGTH + 10).collect();
    let hash = hash_password(&password, SALT).expect("Can not hash password");
    verify_password(&password, &hash).expect("Can not verify password");
}

#[test]
fn hash_is_argon2id_and_not_the_password() {
    let hash = hash_password("123456", SALT).unwrap();
    assert_ne!(hash, "123456");
    assert!(hash.starts_with("$argon2id$"));
}

#[test]
fn another_password_is_rejected() {
    let hash = hash_password("right-password", SALT).unwrap();
    assert_eq!(verify_password("wrong-password", &hash), Err(Error::BadRequest("Not found".to_string())));
}

#[test]
fn malformed_hash_is_rejected() {
    assert_eq!(verify_password("whatever", "not a hash"), Err(Error::BadRequest("Not found".to_string())));
}

#[test]
fn malformed_salt_is_an_internal_error() {
    assert_eq!(hash_password("123456", "!"), Err(Error::InternalServerError));
}

#[test]
fn hashing_is_deterministic_under_one_salt() {
    assert_eq!(hash_password("same-password", SALT), hash_password("same-password", SALT));
}
