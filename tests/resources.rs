use unpacking::auth::{validate_token, AuthData};
use unpacking::db::users::create_admin_account_if_not_present;
use unpacking::db::Database;
use unpacking::error::Error;
use unpacking::models::{Media, Role};
use unpacking::resources::auth::{auth, CreateToken};
use unpacking::resources::snippet::{self, SnippetQueryStringExtractor};
use unpacking::resources::term::{self, CreateTerm};
use unpacking::resources::{author, user};
use unpacking::validation::{CreateSnippet, CreateUser};

const SECRET: &str = "resource-test-secret";
const SALT: &str = "c29tZXNhbHQ";

fn admin() -> Result<AuthData, Error> {
    Ok(AuthData { sub: 1, role: Role::Admin, exp: 0 })
}

fn reader(sub: u128) -> Result<AuthData, Error> {
    Ok(AuthData { sub, role: Role::User, exp: 0 })
}

#[test]
fn sign_in_issues_a_token_for_the_account() {
    let mut db = Database::new();
    create_admin_account_if_not_present("admin@example.com", "admin-password", SALT, &mut db).unwrap();
    let body = CreateToken { email: "admin@example.com".to_string(), password: "admin-password".to_string() };
    let response = auth(body, SECRET, &db).unwrap();
    assert_eq!(response.role, Role::Admin);
    let claims = validate_token(&response.token, SECRET, chrono::Utc::now().timestamp()).unwrap();
    assert_eq!(claims.sub, response.id);
    let short = CreateToken { email: "a@b".to_string(), password: "admin-password".to_string() };
    assert!(matches!(auth(short, SECRET, &db), Err(Error::BadRequest(_))));
}

#[test]
fn only_administrators_create() {
    let mut db = Database::new();
    let body = CreateTerm { name: "Love".to_string(), related: vec![] };
    assert_eq!(term::create(reader(5), body, &mut db), Err(Error::Forbidden));
    let body = CreateTerm { name: "Love".to_string(), related: vec![] };
    assert_eq!(term::create(Err(Error::Unauthorized), body, &mut db), Err(Error::Unauthorized));
    let body = CreateTerm { name: String::new(), related: vec![] };
    assert!(matches!(term::create(admin(), body, &mut db), Err(Error::BadRequest(_))));
    assert!(db.terms.is_empty());
}

#[test]
fn term_listing_carries_related_terms() {
    let mut db = Database::new();
    let a = term::create(admin(), CreateTerm { name: "a".to_string(), related: vec![] }, &mut db).unwrap();
    let b = term::create(admin(), CreateTerm { name: "b".to_string(), related: vec![a] }, &mut db).unwrap();
    let listed = term::read_all(reader(9), &db).unwrap();
    assert_eq!(listed.len(), 2);
    assert!(listed[0].related.is_empty());
    assert_eq!(listed[1].id, b);
    assert_eq!(listed[1].related, vec![a]);
    let graph = term::read_graph(reader(9), &db).unwrap();
    assert_eq!(graph.nodes, vec![vec![1, 0]]);
}

#[test]
fn snippet_search_pages() {
    let mut db = Database::new();
    for i in 0..41 {
        let body = CreateSnippet {
            text: format!("Quote {i}"),
            media: Media::Website,
            link: None,
            existing_authors: vec![],
            new_authors: vec![],
            terms: vec![],
        };
        snippet::create(admin(), body, &mut db).unwrap();
    }
    let first = snippet::search(reader(3), SnippetQueryStringExtractor { term_id: None, page: 1 }, &db).unwrap();
    assert_eq!(first.pages, 3);
    assert_eq!(first.snippets.len(), 20);
    let last = snippet::search(reader(3), SnippetQueryStringExtractor { term_id: None, page: 3 }, &db).unwrap();
    assert_eq!(last.snippets.len(), 1);
    let zero = snippet::search(reader(3), SnippetQueryStringExtractor { term_id: None, page: 0 }, &db);
    assert!(matches!(zero, Err(Error::InternalServerError)));
    assert_eq!(snippet::stats(reader(3), &db), Ok(vec![(Media::Website, 41)]));
}

#[test]
fn users_read_themselves_and_admins_read_all() {
    let mut db = Database::new();
    let body = CreateUser {
        name: "Jane".to_string(),
        role: Role::User,
        email: "jane@example.com".to_string(),
        password: "jane-password".to_string(),
    };
    let jane = user::create(admin(), body, SALT, &mut db).unwrap();
    assert_eq!(user::read(reader(jane), jane, &db).unwrap().email, "jane@example.com");
    assert!(matches!(user::read(reader(jane + 1), jane, &db), Err(Error::Forbidden)));
    assert!(matches!(user::read_all(reader(jane), &db), Err(Error::Forbidden)));
    assert_eq!(user::read_all(admin(), &db).unwrap().len(), 1);
    user::delete(admin(), jane, &mut db).unwrap();
    assert!(user::read_all(admin(), &db).unwrap().is_empty());
    assert!(author::read_all(reader(jane), &db).unwrap().is_empty());
}
