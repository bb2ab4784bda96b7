use vstd::prelude::*;
use crate::authentication::{argon2_accepts, argon2_hash_of, hash_password, verify_password};
use crate::db::{Database, lemma_author_links_frame, lemma_no_duplicates_append};
use crate::error::{Error, is_already_exists, is_not_found};
use crate::models::{Id, Password, Role, User};
use crate::order::{name_le, order_by_name};

verus! {

/// Every table but `users` and `passwords` is as before.
pub open spec fn only_users_changed(a: Database, b: Database) -> bool {
    &&& b.authors == a.authors
    &&& b.authors_snippets == a.authors_snippets
    &&& b.snippets == a.snippets
    &&& b.terms == a.terms
    &&& b.terms_related == a.terms_related
    &&& b.terms_snippets == a.terms_snippets
}

/// Storing `u` would repeat a user id or an e-mail address.
pub open spec fn user_conflict(db: Database, u: User) -> bool {
    db.user_ids().contains(u.id) || db.user_emails().contains(u.email@)
}

/// Accounts that are not deleted.
pub open spec fn is_active() -> spec_fn(User) -> bool {
    |u: User| !u.is_deleted
}

/// The accounts that are not deleted, in the order in which they were created.
pub open spec fn active_users(db: Database) -> Seq<User> {
    db.users@.filter(is_active())
}

/// Account `id` exists and is not deleted.
pub open spec fn selectable(db: Database, id: Id) -> bool {
    exists|i: int| 0 <= i < db.users@.len() && db.users@[i].id == id && !db.users@[i].is_deleted
}

/// A copy of `u`.
fn copy_user(u: &User) -> (r: User)
    ensures
        r == *u,
{
    User {
        id: u.id,
        name: u.name.clone(),
        email: u.email.clone(),
        role: u.role,
        is_deleted: u.is_deleted,
        created_at: u.created_at,
        updated_at: u.updated_at,
    }
}

/// Stores `user` with the password hash `hash` in one transaction. Fails with a
/// conflict, changing nothing, when the id or the e-mail address is taken.
pub fn insert_with_hash(user: User, hash: String, db: &mut Database) -> (r: Result<Id, Error>)
    requires
        old(db).wf(),
    ensures
        final(db).wf(),
        user_conflict(*old(db), user) <==> r is Err,
        r matches Err(e) ==> is_already_exists(e) && *final(db) == *old(db),
        r is Ok ==> {
            &&& r == Ok::<Id, Error>(user.id)
            &&& final(db).users@ == old(db).users@.push(user)
            &&& final(db).passwords@.len() == old(db).passwords@.len() + 1
            &&& final(db).passwords@.drop_last() == old(db).passwords@
            &&& final(db).passwords@.last().user_id == user.id
            &&& final(db).passwords@.last().password == hash
            &&& only_users_changed(*old(db), *final(db))
        },
{
    if let Some(i) = db.find_user(user.id) {
        assert(db.user_ids()[i as int] == user.id);
        return Err(Error::already_exists());
    }
    if let Some(i) = db.find_user_by_email(&user.email) {
        assert(db.user_emails()[i as int] == user.email@);
        return Err(Error::already_exists());
    }
    let ghost before = *db;
    let uid = user.id;
    let ghost email = user.email@;
    proof {
        assert(!before.password_owners().contains(uid)) by {
            if before.password_owners().contains(uid) {
                let k = choose|k: int| 0 <= k < before.password_owners().len() && before.password_owners()[k] == uid;
                assert(before.user_ids().contains(before.passwords@[k].user_id));
            }
        }
    }
    db.users.push(user);
    db.passwords.push(Password::new(uid, hash));
    proof {
        assert(db.user_ids() =~= before.user_ids() + seq![uid]);
        assert(db.user_emails() =~= before.user_emails() + seq![email]);
        assert(db.password_owners() =~= before.password_owners() + seq![uid]);
        lemma_no_duplicates_append(before.user_ids(), seq![uid]);
        lemma_no_duplicates_append(before.user_emails(), seq![email]);
        lemma_no_duplicates_append(before.password_owners(), seq![uid]);
        assert forall|i: int| 0 <= i < db.passwords@.len() implies db.user_ids().contains(
            #[trigger] db.passwords@[i].user_id,
        ) by {
            if i < before.passwords@.len() {
                let x = before.passwords@[i].user_id;
                assert(before.user_ids().contains(x));
                let k = choose|k: int| 0 <= k < before.user_ids().len() && before.user_ids()[k] == x;
                assert(db.user_ids()[k] == x);
            } else {
                assert(db.user_ids()[before.users@.len() as int] == uid);
            }
        }
        assert forall|i: int| 0 <= i < db.users@.len() implies db.password_owners().contains(
            #[trigger] db.users@[i].id,
        ) by {
            if i < before.users@.len() {
                let x = before.users@[i].id;
                assert(before.password_owners().contains(x));
                let k = choose|k: int| 0 <= k < before.password_owners().len() && before.password_owners()[k] == x;
                assert(db.password_owners()[k] == x);
            } else {
                assert(db.password_owners()[before.passwords@.len() as int] == uid);
            }
        }
        assert(db.users_wf());
        assert(db.keys_wf()) by {
            assert(db.author_ids() == before.author_ids());
            assert(db.snippet_ids() == before.snippet_ids());
            assert(db.term_ids() == before.term_ids());
        }
        assert(db.term_links_wf()) by {
            assert(db.term_ids() == before.term_ids());
            assert(db.snippet_ids() == before.snippet_ids());
        }
        lemma_author_links_frame(before, *db);
        assert(db.passwords@.drop_last() =~= before.passwords@);
    }
    Ok(uid)
}

/// The outcome of storing `user` with the hash of `password` under `salt`: a conflict
/// when the id or address is taken, an internal failure when the salt cannot be used
/// (either way nothing changes), otherwise the user and its password row added.
pub open spec fn user_inserted(a: Database, b: Database, user: User, password: Seq<char>, salt: Seq<char>, r: Result<Id, Error>) -> bool {
    &&& user_conflict(a, user) ==> (r matches Err(e) && is_already_exists(e)) && b == a
    &&& !user_conflict(a, user) && argon2_hash_of(password, salt) is None ==> r == Err::<Id, Error>(
        Error::InternalServerError,
    ) && b == a
    &&& !user_conflict(a, user) && argon2_hash_of(password, salt) is Some ==> r is Ok
    &&& r is Ok ==> {
        &&& !user_conflict(a, user)
        &&& r == Ok::<Id, Error>(user.id)
        &&& b.users@ == a.users@.push(user)
        &&& b.passwords@.drop_last() == a.passwords@
        &&& b.passwords@.len() == a.passwords@.len() + 1
        &&& b.passwords@.last().user_id == user.id
        &&& argon2_hash_of(password, salt) == Some(b.passwords@.last().password@)
        &&& argon2_accepts(password, b.passwords@.last().password@)
        &&& only_users_changed(a, b)
    }
}

/// Stores `user` with the Argon2 hash of `password` under `salt`, in one transaction.
/// A taken id or e-mail address fails with a conflict, a salt that cannot be used with
/// an internal error; either way nothing changes. The stored hash is accepted by
/// `verify_password` for `password`.
pub fn insert(user: User, password: &str, salt: &str, db: &mut Database) -> (r: Result<Id, Error>)
    requires
        old(db).wf(),
    ensures
        final(db).wf(),
        user_inserted(*old(db), *final(db), user, password@, salt@, r),
{
    if let Some(i) = db.find_user(user.id) {
        assert(db.user_ids()[i as int] == user.id);
        return Err(Error::already_exists());
    }
    if let Some(i) = db.find_user_by_email(&user.email) {
        assert(db.user_emails()[i as int] == user.email@);
        return Err(Error::already_exists());
    }
    let hash = match hash_password(password, salt) {
        Ok(h) => h,
        Err(e) => {
            return Err(e);
        },
    };
    insert_with_hash(user, hash, db)
}

/// The account `id`, unless it is deleted or missing, which fails with
/// `BadRequest("Not found")`.
pub fn select(id: Id, db: &Database) -> (r: Result<User, Error>)
    requires
        db.wf(),
    ensures
        selectable(*db, id) <==> r is Ok,
        r matches Ok(u) ==> u.id == id && !u.is_deleted && db.users@.contains(u),
        r matches Err(e) ==> is_not_found(e),
{
    match db.find_user(id) {
        Some(i) => {
            if db.users[i].is_deleted {
                proof {
                    assert forall|j: int| 0 <= j < db.users@.len() && db.users@[j].id == id implies db.users@[j].is_deleted by {
                        assert(db.user_ids()[j] == db.user_ids()[i as int]);
                    }
                }
                Err(Error::not_found())
            } else {
                let u = copy_user(&db.users[i]);
                assert(db.users@[i as int] == u);
                Ok(u)
            }
        },
        None => {
            proof {
                assert forall|j: int| 0 <= j < db.users@.len() implies db.users@[j].id != id by {
                    assert(db.user_ids()[j] == db.users@[j].id);
                }
            }
            Err(Error::not_found())
        },
    }
}

/// `v` lists the accounts of `db` that are not deleted, each once, ordered by name.
pub open spec fn lists_active_users(db: Database, v: Seq<User>) -> bool {
    &&& v.len() == active_users(db).len()
    &&& forall|k: int| 0 <= k < v.len() ==> active_users(db).contains(#[trigger] v[k])
    &&& forall|j: int| 0 <= j < active_users(db).len() ==> v.contains(#[trigger] active_users(db)[j])
    &&& forall|i: int, j: int| 0 <= i < j < v.len() ==> name_le(v[i].name@, v[j].name@)
}

/// All accounts that are not deleted, ordered by name.
pub fn select_all(db: &Database) -> (r: Result<Vec<User>, Error>)
    ensures
        r matches Ok(v) && lists_active_users(*db, v@),
{
    let mut active: Vec<User> = Vec::new();
    let mut i: usize = 0;
    while i < db.users.len()
        invariant
            i <= db.users@.len(),
            active@ == db.users@.subrange(0, i as int).filter(is_active()),
        decreases db.users@.len() - i,
    {
        let u = &db.users[i];
        proof {
            assert(db.users@.subrange(0, i + 1) =~= db.users@.subrange(0, i as int).push(*u));
            db.users@.subrange(0, i as int).lemma_filter_push(*u, is_active());
        }
        if !u.is_deleted {
            active.push(copy_user(u));
        }
        i = i + 1;
    }
    assert(db.users@.subrange(0, i as int) =~= db.users@);
    let mut names: Vec<String> = Vec::new();
    let mut k: usize = 0;
    while k < active.len()
        invariant
            k <= active@.len(),
            names@.len() == k,
            forall|x: int| 0 <= x < k ==> #[trigger] names@[x] == active@[x].name,
        decreases active@.len() - k,
    {
        names.push(active[k].name.clone());
        k = k + 1;
    }
    let idx = order_by_name(&names);
    let mut out: Vec<User> = Vec::new();
    let mut j: usize = 0;
    while j < idx.len()
        invariant
            idx@.len() == active@.len(),
            names@.len() == active@.len(),
            forall|x: int| 0 <= x < names@.len() ==> #[trigger] names@[x] == active@[x].name,
            forall|x: int| 0 <= x < idx@.len() ==> #[trigger] idx@[x] < active@.len(),
            j <= idx@.len(),
            out@.len() == j,
            forall|x: int| 0 <= x < j ==> #[trigger] out@[x] == active@[idx@[x] as int],
        decreases idx@.len() - j,
    {
        out.push(copy_user(&active[idx[j]]));
        j = j + 1;
    }
    proof {
        assert forall|x: int| 0 <= x < out@.len() implies active@.contains(#[trigger] out@[x]) by {
            assert(active@[idx@[x] as int] == out@[x]);
        }
        assert forall|y: int| 0 <= y < active@.len() implies out@.contains(#[trigger] active@[y]) by {
            assert(idx@.contains(y as usize));
            let x = choose|x: int| 0 <= x < idx@.len() && idx@[x] == y as usize;
            assert(out@[x] == active@[y]);
        }
        assert forall|a: int, b: int| 0 <= a < b < out@.len() implies name_le(out@[a].name@, out@[b].name@) by {
            assert(names@[idx@[a] as int] == out@[a].name);
            assert(names@[idx@[b] as int] == out@[b].name);
        }
    }
    Ok(out)
}

/// `b` is `a` with account `id`, if it exists, marked deleted and nothing else changed.
pub open spec fn soft_deleted(a: Database, b: Database, id: Id) -> bool {
    &&& b.users@.len() == a.users@.len()
    &&& forall|i: int| 0 <= i < a.users@.len() ==> #[trigger] b.users@[i] == (
        if a.users@[i].id == id {
            User { is_deleted: true, ..a.users@[i] }
        } else {
            a.users@[i]
        })
    &&& b.passwords == a.passwords
    &&& only_users_changed(a, b)
}

/// Deletes account `id` logically: the row stays, marked deleted, and so does its
/// password row. Returns the number of rows marked (0 or 1).
pub fn delete(id: Id, db: &mut Database) -> (r: Result<usize, Error>)
    requires
        old(db).wf(),
    ensures
        final(db).wf(),
        soft_deleted(*old(db), *final(db), id),
        r == Ok::<usize, Error>(if old(db).user_ids().contains(id) { 1usize } else { 0usize }),
{
    match db.find_user(id) {
        None => {
            assert forall|j: int| 0 <= j < db.users@.len() implies db.users@[j].id != id by {
                assert(db.user_ids()[j] == db.users@[j].id);
            }
            Ok(0)
        },
        Some(i) => {
            let ghost before = *db;
            assert(before.user_ids()[i as int] == id);
            proof {
                assert forall|j: int| 0 <= j < before.users@.len() && j != i implies before.users@[j].id != id by {
                    assert(before.user_ids()[j] != before.user_ids()[i as int]);
                }
            }
            let mut row = db.users.remove(i);
            row.is_deleted = true;
            db.users.insert(i, row);
            proof {
                assert(db.users@ =~= before.users@.update(i as int, row));
                assert(db.user_ids() =~= before.user_ids());
                assert(db.user_emails() =~= before.user_emails());
                assert(db.password_owners() == before.password_owners());
                assert(db.keys_wf()) by {
                    assert(db.author_ids() == before.author_ids());
                    assert(db.snippet_ids() == before.snippet_ids());
                    assert(db.term_ids() == before.term_ids());
                }
                assert(db.term_links_wf()) by {
                    assert(db.term_ids() == before.term_ids());
                    assert(db.snippet_ids() == before.snippet_ids());
                }
                lemma_author_links_frame(before, *db);
            }
            Ok(1)
        },
    }
}

/// A soft-deleted account is no longer listed nor selectable, and its password row
/// is untouched.
pub proof fn lemma_soft_deleted_hidden(a: Database, b: Database, id: Id)
    requires
        a.wf(),
        soft_deleted(a, b, id),
    ensures
        !selectable(b, id),
        forall|k: int| 0 <= k < active_users(b).len() ==> (#[trigger] active_users(b)[k]).id != id,
        forall|v: Seq<User>, k: int| lists_active_users(b, v) && 0 <= k < v.len() ==> (#[trigger] v[k]).id != id,
        b.passwords == a.passwords,
{
    assert(!selectable(b, id)) by {
        if selectable(b, id) {
            let i = choose|i: int| 0 <= i < b.users@.len() && b.users@[i].id == id && !b.users@[i].is_deleted;
            assert(b.users@[i] == (User { is_deleted: true, ..a.users@[i] }));
        }
    }
    assert forall|k: int| 0 <= k < active_users(b).len() implies (#[trigger] active_users(b)[k]).id != id by {
        let u = active_users(b)[k];
        b.users@.lemma_filter_pred(is_active(), k);
        assert(b.users@.filter(is_active()).contains(u));
        b.users@.lemma_filter_contains_rev(is_active(), u);
        let i = choose|i: int| 0 <= i < b.users@.len() && b.users@[i] == u;
        if u.id == id {
            assert(b.users@[i] == (User { is_deleted: true, ..a.users@[i] }));
        }
    }
    assert forall|v: Seq<User>, k: int| lists_active_users(b, v) && 0 <= k < v.len() implies (#[trigger] v[k]).id != id by {
        let j = choose|j: int| 0 <= j < active_users(b).len() && active_users(b)[j] == v[k];
        assert(active_users(b)[j].id != id);
    }
}

/// Changes the name, e-mail address and role of account `id`, deleted or not; returns
/// the number of rows changed (0 or 1). Fails with a conflict, changing nothing, when
/// another account has that e-mail address.
pub fn update(id: Id, name: String, email: String, role: Role, db: &mut Database) -> (r: Result<usize, Error>)
    requires
        old(db).wf(),
    ensures
        final(db).wf(),
        (exists|j: int| 0 <= j < old(db).users@.len() && old(db).users@[j].id != id && old(db).users@[j].email@ == email@)
            <==> r is Err,
        r matches Err(e) ==> is_already_exists(e) && *final(db) == *old(db),
        r matches Ok(n) ==> {
            &&& n == (if old(db).user_ids().contains(id) { 1usize } else { 0usize })
            &&& final(db).users@.len() == old(db).users@.len()
            &&& forall|i: int| 0 <= i < old(db).users@.len() ==> #[trigger] final(db).users@[i] == (
                if old(db).users@[i].id == id {
                    User { name: name, email: email, role: role, ..old(db).users@[i] }
                } else {
                    old(db).users@[i]
                })
            &&& final(db).passwords == old(db).passwords
            &&& only_users_changed(*old(db), *final(db))
        },
{
    let mut k: usize = 0;
    while k < db.users.len()
        invariant
            k <= db.users@.len(),
            db.wf(),
            *db == *old(db),
            forall|j: int| 0 <= j < k ==> !(db.users@[j].id != id && db.users@[j].email@ == email@),
        decreases db.users@.len() - k,
    {
        if db.users[k].id != id && db.users[k].email == email {
            return Err(Error::already_exists());
        }
        k = k + 1;
    }
    match db.find_user(id) {
        None => {
            assert forall|j: int| 0 <= j < db.users@.len() implies db.users@[j].id != id by {
                assert(db.user_ids()[j] == db.users@[j].id);
            }
            Ok(0)
        },
        Some(i) => {
            let ghost before = *db;
            assert(before.user_ids()[i as int] == id);
            proof {
                assert forall|j: int| 0 <= j < before.users@.len() && j != i implies before.users@[j].id != id by {
                    assert(before.user_ids()[j] != before.user_ids()[i as int]);
                }
            }
            let old_row = db.users.remove(i);
            let ghost new_email = email@;
            let row = User {
                id: old_row.id,
                name,
                email,
                role,
                is_deleted: old_row.is_deleted,
                created_at: old_row.created_at,
                updated_at: old_row.updated_at,
            };
            db.users.insert(i, row);
            proof {
                assert(db.users@ =~= before.users@.update(i as int, row));
                assert(db.user_ids() =~= before.user_ids());
                assert(db.user_emails() =~= before.user_emails().update(i as int, new_email));
                assert(db.user_emails().no_duplicates()) by {
                    let e = db.user_emails();
                    assert forall|x: int, y: int| 0 <= x < e.len() && 0 <= y < e.len() && x != y implies e[x] != e[y] by {
                        if x == i {
                            assert(before.users@[y].id != id);
                        } else if y == i {
                            assert(before.users@[x].id != id);
                        } else {
                            assert(before.user_emails()[x] != before.user_emails()[y]);
                        }
                    }
                }
                assert(db.password_owners() == before.password_owners());
                assert forall|j: int| 0 <= j < db.users@.len() implies db.password_owners().contains(#[trigger] db.users@[j].id) by {
                    assert(before.password_owners().contains(before.users@[j].id));
                }
                assert(db.users_wf());
                assert(db.keys_wf()) by {
                    assert(db.author_ids() == before.author_ids());
                    assert(db.snippet_ids() == before.snippet_ids());
                    assert(db.term_ids() == before.term_ids());
                }
                assert(db.term_links_wf()) by {
                    assert(db.term_ids() == before.term_ids());
                    assert(db.snippet_ids() == before.snippet_ids());
                }
                lemma_author_links_frame(before, *db);
            }
            Ok(1)
        },
    }
}

/// Checks a sign-in: the account with address `email` that is not deleted, and the
/// password against its stored hash. Returns its id and role; an unknown address or a
/// rejected password fails with `BadRequest("Not found")`.
pub fn authenticate(email: &str, password: &str, db: &Database) -> (r: Result<(Id, Role), Error>)
    requires
        db.wf(),
    ensures
        r matches Err(e) ==> is_not_found(e),
        !(exists|i: int| 0 <= i < db.users@.len() && db.users@[i].email@ == email@ && !db.users@[i].is_deleted) ==> r is Err,
        forall|i: int, j: int|
            0 <= i < db.users@.len() && db.users@[i].email@ == email@ && !db.users@[i].is_deleted
                && 0 <= j < db.passwords@.len() && db.passwords@[j].user_id == db.users@[i].id ==> {
                &&& (r is Ok <==> argon2_accepts(password@, db.passwords@[j].password@))
                &&& r is Ok ==> r == Ok::<(Id, Role), Error>((db.users@[i].id, db.users@[i].role))
            },
{
    let address: String = email.to_owned();
    let i = match db.find_user_by_email(&address) {
        Some(i) => i,
        None => {
            proof {
                assert forall|k: int| 0 <= k < db.users@.len() implies db.users@[k].email@ != email@ by {
                    assert(db.user_emails()[k] == db.users@[k].email@);
                }
            }
            return Err(Error::not_found());
        },
    };
    proof {
        assert forall|k: int| 0 <= k < db.users@.len() && db.users@[k].email@ == email@ implies k == i by {
            assert(db.user_emails()[k] == db.user_emails()[i as int]);
        }
    }
    if db.users[i].is_deleted {
        return Err(Error::not_found());
    }
    let uid = db.users[i].id;
    assert(db.password_owners().contains(db.users@[i as int].id));
    let j = match db.find_password(uid) {
        Some(j) => j,
        None => {
            return Err(Error::not_found());
        },
    };
    proof {
        assert forall|k: int| 0 <= k < db.passwords@.len() && db.passwords@[k].user_id == uid implies k == j by {
            assert(db.password_owners()[k] == db.password_owners()[j as int]);
        }
    }
    match verify_password(password, db.passwords[j].password.as_str()) {
        Ok(()) => Ok((uid, db.users[i].role)),
        Err(e) => Err(e),
    }
}

/// The account that the bootstrap creates: named "Admin", with address `email`, role
/// `Admin`, not deleted.
pub open spec fn is_admin_account(u: User, email: Seq<char>) -> bool {
    u.name@ == "Admin"@ && u.email@ == email && u.role == Role::Admin && !u.is_deleted
}

/// The outcome of making sure that an administrator account with address `email`
/// exists: nothing changes when the address is taken; otherwise an administrator
/// account with the hash of `password` is stored as `users::insert` stores it, and a
/// key conflict there counts as success.
pub open spec fn admin_ensured(a: Database, b: Database, email: Seq<char>, password: Seq<char>, salt: Seq<char>, r: Result<(), Error>) -> bool {
    if a.user_emails().contains(email) {
        r is Ok && b == a
    } else {
        exists|u: User, ri: Result<Id, Error>|
            is_admin_account(u, email) && #[trigger] user_inserted(a, b, u, password, salt, ri) && (r is Ok <==> (ri is Ok || (
            ri matches Err(e) && is_already_exists(e)))) && (r is Err ==> (ri matches Err(e) && r == Err::<(), Error>(e)))
    }
}

/// Creates the administrator account with address `admin_email` and password
/// `admin_password` (hashed under `salt`) unless an account with that address exists.
/// A key conflict on creation means the account is being created already, and counts
/// as success.
pub fn create_admin_account_if_not_present(
    admin_email: &str,
    admin_password: &str,
    salt: &str,
    db: &mut Database,
) -> (r: Result<(), Error>)
    requires
        old(db).wf(),
    ensures
        final(db).wf(),
        admin_ensured(*old(db), *final(db), admin_email@, admin_password@, salt@, r),
{
    let address: String = admin_email.to_owned();
    if let Some(i) = db.find_user_by_email(&address) {
        assert(db.user_emails()[i as int] == admin_email@);
        return Ok(());
    }
    let user = User::new("Admin".to_string(), address, Role::Admin);
    let ghost u = user;
    let ghost before = *db;
    let ri = insert(user, admin_password, salt, db);
    assert(user_inserted(before, *db, u, admin_password@, salt@, ri));
    match ri {
        Ok(_) => Ok(()),
        Err(e) => {
            if is_conflict(&e) {
                Ok(())
            } else {
                Err(e)
            }
        },
    }
}

/// Whether `e` is the error of a unique-key conflict.
fn is_conflict(e: &Error) -> (r: bool)
    ensures
        r == is_already_exists(*e),
{
    match e {
        Error::BadRequest(m) => *m == "Already exists".to_string(),
        _ => false,
    }
}

/// Once an account with the administrator's address exists, making sure of it again
/// succeeds, changes nothing, and leaves exactly one account with that address.
pub proof fn lemma_admin_idempotent(
    b: Database,
    c: Database,
    email: Seq<char>,
    password: Seq<char>,
    salt: Seq<char>,
    r: Result<(), Error>,
)
    requires
        b.wf(),
        b.user_emails().contains(email),
        admin_ensured(b, c, email, password, salt, r),
    ensures
        r is Ok,
        c == b,
        exists|i: int| 0 <= i < c.users@.len() && c.users@[i].email@ == email,
        forall|i: int, j: int|
            0 <= i < c.users@.len() && 0 <= j < c.users@.len() && c.users@[i].email@ == email && c.users@[j].email@ == email ==> i == j,
{
    assert forall|i: int, j: int|
        0 <= i < c.users@.len() && 0 <= j < c.users@.len() && c.users@[i].email@ == email && c.users@[j].email@ == email implies i == j by {
        assert(c.user_emails()[i] == c.user_emails()[j]);
    }
    let k = choose|k: int| 0 <= k < b.user_emails().len() && b.user_emails()[k] == email;
    assert(c.users@[k].email@ == email);
}

/// A first successful bootstrap that did not meet a key conflict leaves an account
/// with the administrator's address, whose stored hash verifies the password.
pub proof fn lemma_admin_created(
    a: Database,
    b: Database,
    email: Seq<char>,
    password: Seq<char>,
    salt: Seq<char>,
    r: Result<(), Error>,
)
    requires
        admin_ensured(a, b, email, password, salt, r),
        r is Ok,
        b != a,
    ensures
        b.user_emails().contains(email),
        b.users@.last().email@ == email,
        b.users@.last().role == Role::Admin,
        b.passwords@.last().user_id == b.users@.last().id,
        argon2_accepts(password, b.passwords@.last().password@),
{
    let (u, ri) = choose|u: User, ri: Result<Id, Error>|
        is_admin_account(u, email) && #[trigger] user_inserted(a, b, u, password, salt, ri) && (r is Ok <==> (ri is Ok || (
        ri matches Err(e) && is_already_exists(e)))) && (r is Err ==> (ri matches Err(e) && r == Err::<(), Error>(e)));
    assert(ri is Ok);
    assert(b.user_emails()[a.users@.len() as int] == email);
}

} // verus!
