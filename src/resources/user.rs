use vstd::prelude::*;
use crate::auth::{AuthData, admin_refusal, require_admin, require_self_or_admin, self_refusal};
use crate::db::Database;
use crate::db::users::{lists_active_users, selectable, soft_deleted, user_inserted};
use crate::error::{Error, is_already_exists, is_not_found};
use crate::models::{Id, Role, User};
use crate::validation::{CreateUser, MIN_EMAIL_LENGTH, MIN_NAME_LENGTH, MIN_PASSWORD_LENGTH, UpdateUser};

verus! {

/// A user account as the interface shows it: no password, no deletion flag.
pub struct UserResponse {
    pub id: Id,
    pub name: String,
    pub email: String,
    pub role: Role,
}

/// `resp` shows account `u`.
pub open spec fn shows_user(u: User, resp: UserResponse) -> bool {
    resp.id == u.id && resp.name == u.name && resp.email == u.email && resp.role == u.role
}

/// The account `u` as the interface shows it.
fn response_of(u: User) -> (r: UserResponse)
    ensures
        shows_user(u, r),
{
    UserResponse { id: u.id, name: u.name, email: u.email, role: u.role }
}

/// Creates an account with a fresh random id, for administrators only, from a valid
/// body; the password is stored as its Argon2 hash under `salt`.
pub fn create(auth: Result<AuthData, Error>, body: CreateUser, salt: &str, db: &mut Database) -> (r: Result<Id, Error>)
    requires
        old(db).wf(),
    ensures
        final(db).wf(),
        match admin_refusal(auth) {
            Some(e) => r == Err::<Id, Error>(e) && *final(db) == *old(db),
            None => if !(body.name@.len() >= MIN_NAME_LENGTH && body.email@.len() >= MIN_EMAIL_LENGTH
                && body.password@.len() >= MIN_PASSWORD_LENGTH) {
                r matches Err(Error::BadRequest(_)) && *final(db) == *old(db)
            } else {
                exists|u: User|
                    u.name == body.name && u.email == body.email && u.role == body.role && !u.is_deleted
                        && #[trigger] user_inserted(*old(db), *final(db), u, body.password@, salt@, r)
            },
        },
{
    if let Err(e) = require_admin(auth) {
        return Err(e);
    }
    if let Err(e) = body.validate() {
        return Err(e);
    }
    let user = User::new(body.name, body.email, body.role);
    crate::db::users::insert(user, body.password.as_str(), salt, db)
}

/// Account `id`, to administrators and to that user itself.
pub fn read(auth: Result<AuthData, Error>, id: Id, db: &Database) -> (r: Result<UserResponse, Error>)
    requires
        db.wf(),
    ensures
        match self_refusal(auth, id) {
            Some(e) => r == Err::<UserResponse, Error>(e),
            None => {
                &&& (selectable(*db, id) <==> r is Ok)
                &&& r matches Ok(resp) ==> exists|u: User| #[trigger] db.users@.contains(u) && u.id == id && !u.is_deleted && shows_user(u, resp)
                &&& r matches Err(e) ==> is_not_found(e)
            },
        },
{
    if let Err(e) = require_self_or_admin(auth, id) {
        return Err(e);
    }
    match crate::db::users::select(id, db) {
        Ok(u) => {
            let ghost g = u;
            let resp = response_of(u);
            assert(db.users@.contains(g));
            Ok(resp)
        },
        Err(e) => Err(e),
    }
}

/// All accounts that are not deleted, ordered by name, to administrators only.
pub fn read_all(auth: Result<AuthData, Error>, db: &Database) -> (r: Result<Vec<UserResponse>, Error>)
    ensures
        match admin_refusal(auth) {
            Some(e) => r == Err::<Vec<UserResponse>, Error>(e),
            None => r matches Ok(v) && exists|us: Seq<User>|
                #[trigger] lists_active_users(*db, us) && us.len() == v@.len() && forall|k: int|
                    0 <= k < v@.len() ==> shows_user(us[k], #[trigger] v@[k]),
        },
{
    if let Err(e) = require_admin(auth) {
        return Err(e);
    }
    let users = match crate::db::users::select_all(db) {
        Ok(v) => v,
        Err(e) => {
            return Err(e);
        },
    };
    let mut out: Vec<UserResponse> = Vec::new();
    let mut i: usize = 0;
    while i < users.len()
        invariant
            lists_active_users(*db, users@),
            i <= users@.len(),
            out@.len() == i,
            forall|k: int| 0 <= k < i ==> shows_user(users@[k], #[trigger] out@[k]),
        decreases users@.len() - i,
    {
        let u = &users[i];
        out.push(UserResponse { id: u.id, name: u.name.clone(), email: u.email.clone(), role: u.role });
        i = i + 1;
    }
    Ok(out)
}

/// Changes the name, address and role of account `id`, for administrators only, from
/// a valid body.
pub fn update(auth: Result<AuthData, Error>, id: Id, body: UpdateUser, db: &mut Database) -> (r: Result<(), Error>)
    requires
        old(db).wf(),
    ensures
        final(db).wf(),
        match admin_refusal(auth) {
            Some(e) => r == Err::<(), Error>(e) && *final(db) == *old(db),
            None => if !(body.name@.len() >= MIN_NAME_LENGTH && body.email@.len() >= MIN_EMAIL_LENGTH) {
                r matches Err(Error::BadRequest(_)) && *final(db) == *old(db)
            } else {
                &&& ((exists|j: int| 0 <= j < old(db).users@.len() && old(db).users@[j].id != id && old(db).users@[j].email@ == body.email@) <==> r is Err)
                &&& r matches Err(e) ==> is_already_exists(e) && *final(db) == *old(db)
                &&& r is Ok ==> forall|i: int| 0 <= i < old(db).users@.len() ==> #[trigger] final(db).users@[i] == (
                    if old(db).users@[i].id == id {
                        User { name: body.name, email: body.email, role: body.role, ..old(db).users@[i] }
                    } else {
                        old(db).users@[i]
                    })
                &&& r is Ok ==> final(db).users@.len() == old(db).users@.len() && final(db).passwords == old(db).passwords
            },
        },
{
    if let Err(e) = require_admin(auth) {
        return Err(e);
    }
    if let Err(e) = body.validate() {
        return Err(e);
    }
    match crate::db::users::update(id, body.name, body.email, body.role, db) {
        Ok(_) => Ok(()),
        Err(e) => Err(e),
    }
}

/// Deletes account `id` logically, for administrators only.
pub fn delete(auth: Result<AuthData, Error>, id: Id, db: &mut Database) -> (r: Result<(), Error>)
    requires
        old(db).wf(),
    ensures
        final(db).wf(),
        match admin_refusal(auth) {
            Some(e) => r == Err::<(), Error>(e) && *final(db) == *old(db),
            None => r is Ok && soft_deleted(*old(db), *final(db), id),
        },
{
    if let Err(e) = require_admin(auth) {
        return Err(e);
    }
    match crate::db::users::delete(id, db) {
        Ok(_) => Ok(()),
        Err(e) => Err(e),
    }
}

} // verus!
