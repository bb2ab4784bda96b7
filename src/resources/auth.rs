use vstd::prelude::*;
use crate::auth::{generate_jwt, grants};
use crate::authentication::argon2_accepts;
use crate::db::Database;
use crate::error::{Error, is_not_found};
use crate::models::{Id, Role};
use crate::validation::{MIN_EMAIL_LENGTH, MIN_PASSWORD_LENGTH};

verus! {

/// Credentials offered to sign in.
pub struct CreateToken {
    pub email: String,
    pub password: String,
}

/// A signed-in user: its id, a token and its role.
pub struct TokenResponse {
    pub id: Id,
    pub token: String,
    pub role: Role,
}

/// Signs in: checks that the credentials are long enough, authenticates them, and
/// issues a token signed with `secret` for the account's id and role.
pub fn auth(body: CreateToken, secret: &str, db: &Database) -> (r: Result<TokenResponse, Error>)
    requires
        db.wf(),
    ensures
        !(body.email@.len() >= MIN_EMAIL_LENGTH && body.password@.len() >= MIN_PASSWORD_LENGTH) ==> r matches Err(
            Error::BadRequest(_),
        ),
        body.email@.len() >= MIN_EMAIL_LENGTH && body.password@.len() >= MIN_PASSWORD_LENGTH ==> {
            &&& !(exists|i: int| 0 <= i < db.users@.len() && db.users@[i].email@ == body.email@ && !db.users@[i].is_deleted)
                ==> (r matches Err(e) && is_not_found(e))
            &&& forall|i: int, j: int|
                0 <= i < db.users@.len() && db.users@[i].email@ == body.email@ && !db.users@[i].is_deleted && 0 <= j
                    < db.passwords@.len() && db.passwords@[j].user_id == db.users@[i].id ==> {
                    &&& !argon2_accepts(body.password@, db.passwords@[j].password@) ==> (r matches Err(e) && is_not_found(e))
                    &&& argon2_accepts(body.password@, db.passwords@[j].password@) ==> r is Ok
                    &&& r matches Ok(t) ==> {
                        &&& argon2_accepts(body.password@, db.passwords@[j].password@)
                        &&& t.id == db.users@[i].id
                        &&& t.role == db.users@[i].role
                        &&& grants(t.token@, secret@, t.id, t.role)
                    }
                }
        },
{
    if body.email.as_str().unicode_len() < MIN_EMAIL_LENGTH {
        return Err(Error::BadRequest("email is too short".to_string()));
    }
    if body.password.as_str().unicode_len() < MIN_PASSWORD_LENGTH {
        return Err(Error::BadRequest("password is too short".to_string()));
    }
    let (id, role) = match crate::db::users::authenticate(body.email.as_str(), body.password.as_str(), db) {
        Ok(found) => found,
        Err(e) => {
            return Err(e);
        },
    };
    match generate_jwt(id, role, secret) {
        Ok(token) => Ok(TokenResponse { id, token, role }),
        Err(e) => Err(e),
    }
}

} // verus!
