use unpacking::db::users::{
    authenticate, create_admin_account_if_not_present, delete, insert, select, select_all, update,
};
use unpacking::db::Database;
use unpacking::error::Error;
use unpacking::models::{Role, User};

const SALT: &str = "c29tZXNhbHQ";
const ADMIN_EMAIL: &str = "admin@example.com";
const ADMIN_PASSWORD: &str = "admin-password";

fn verify_user_count(db: &Database, count: usize) {
    let result = select_all(db).expect("Can not select all users");
    assert_eq!(result.len(), count);
}

#[test]
fn create_admin_account_skips_when_present() {
    let mut db = Database::new();
    verify_user_count(&db, 0);
    create_admin_account_if_not_present(ADMIN_EMAIL, ADMIN_PASSWORD, SALT, &mut db).expect("Can not create admin");
    verify_user_count(&db, 1);
    create_admin_account_if_not_present(ADMIN_EMAIL, ADMIN_PASSWORD, SALT, &mut db).expect("Can not create admin");
    verify_user_count(&db, 1);
    let all = select_all(&db).unwrap();
    assert_eq!(all[0].role, Role::Admin);
    assert_eq!(all[0].name, "Admin");
    assert_eq!(all[0].email, ADMIN_EMAIL);
}

#[test]
fn authenticate_admin() {
    let mut db = Database::new();
    create_admin_account_if_not_present(ADMIN_EMAIL, ADMIN_PASSWORD, SALT, &mut db).expect("Can not create admin");
    let (_, role) = authenticate(ADMIN_EMAIL, ADMIN_PASSWORD, &db).expect("Can not authenticate admin");
    assert_eq!(role, Role::Admin);
}

#[test]
fn authentication_failures_read_as_not_found() {
    let mut db = Database::new();
    create_admin_account_if_not_present(ADMIN_EMAIL, ADMIN_PASSWORD, SALT, &mut db).unwrap();
    let not_found = Err(Error::BadRequest("Not found".to_string()));
    assert_eq!(authenticate(ADMIN_EMAIL, "wrong-password", &db), not_found);
    assert_eq!(authenticate("nobody@example.com", ADMIN_PASSWORD, &db), not_found);
}

#[test]
fn password_is_not_stored_as_plain_text() {
    let mut db = Database::new();
    let user = User::new("Jane".to_string(), "jane@example.com".to_string(), Role::User);
    let password = "plain-password";
    let id = insert(user, password, SALT, &mut db).expect("Can not create");
    let passwords: Vec<_> = db.passwords.iter().filter(|p| p.user_id == id).collect();
    assert_eq!(passwords.len(), 1);
    for found in passwords {
        assert_ne!(found.password, password);
        assert!(found.password.starts_with("$argon2id$"))
    }
}

#[test]
fn soft_deletion() {
    let mut db = Database::new();
    let user = User::new("Jane".to_string(), "jane@example.com".to_string(), Role::User);
    let id = insert(user, "jane-password", SALT, &mut db).expect("Can not create");

    let all = select_all(&db).expect("Can not select all");
    assert!(all.iter().any(|v| v.id == id));
    assert!(select(id, &db).is_ok());

    let passwords_before = db.passwords.clone();
    assert_eq!(delete(id, &mut db), Ok(1));

    let all = select_all(&db).expect("Can not select all");
    assert!(!all.iter().any(|v| v.id == id));
    assert_eq!(select(id, &db), Err(Error::BadRequest("Not found".to_string())));
    assert_eq!(db.passwords, passwords_before);
    assert!(authenticate("jane@example.com", "jane-password", &db).is_err());
}

#[test]
fn username_is_unique() {
    let mut db = Database::new();
    let user1 = User::new("Foo".to_string(), "foo@foo.com".to_string(), Role::User);
    insert(user1, "password", SALT, &mut db).expect("Can not create");

    let user2 = User::new("Bar".to_string(), "foo@foo.com".to_string(), Role::Admin);
    let result = insert(user2, "password", SALT, &mut db);
    assert!(matches!(result, Err(Error::BadRequest(t)) if t == "Already exists"));
    assert_eq!(db.users.len(), 1);
    assert_eq!(db.passwords.len(), 1);
}

#[test]
fn update_refuses_an_address_in_use() {
    let mut db = Database::new();
    let a = User { id: 1, name: "A".to_string(), email: "a@example.com".to_string(), role: Role::User, is_deleted: false, created_at: 0, updated_at: 0 };
    let b = User { id: 2, name: "B".to_string(), email: "b@example.com".to_string(), role: Role::User, is_deleted: false, created_at: 0, updated_at: 0 };
    insert(a, "password", SALT, &mut db).unwrap();
    insert(b, "password", SALT, &mut db).unwrap();
    let result = update(2, "B".to_string(), "a@example.com".to_string(), Role::User, &mut db);
    assert_eq!(result, Err(Error::BadRequest("Already exists".to_string())));
    assert_eq!(update(2, "Bee".to_string(), "b@example.com".to_string(), Role::Admin, &mut db), Ok(1));
    let b = select(2, &db).unwrap();
    assert_eq!(b.name, "Bee");
    assert_eq!(b.role, Role::Admin);
    assert_eq!(update(3, "C".to_string(), "c@example.com".to_string(), Role::User, &mut db), Ok(0));
}

#[test]
fn listing_is_ordered_by_name() {
    let mut db = Database::new();
    let zed = User { id: 1, name: "Zed".to_string(), email: "zed@example.com".to_string(), role: Role::User, is_deleted: false, created_at: 0, updated_at: 0 };
    let amy = User { id: 2, name: "Amy".to_string(), email: "amy@example.com".to_string(), role: Role::User, is_deleted: false, created_at: 1, updated_at: 1 };
    insert(zed, "password", SALT, &mut db).unwrap();
    insert(amy, "password", SALT, &mut db).unwrap();
    let names: Vec<String> = select_all(&db).unwrap().into_iter().map(|u| u.name).collect();
    assert_eq!(names, vec!["Amy".to_string(), "Zed".to_string()]);
}
