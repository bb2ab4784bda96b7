use unpacking::models::{Media, Role};
use unpacking::validation::{CreateSnippet, CreateUser, UpdateUser, MIN_PASSWORD_LENGTH};

fn create_with_name(name: &str) -> CreateUser {
    CreateUser {
        name: name.to_string(),
        role: Role::User,
        email: "someone@example.com".to_string(),
        password: "x".repeat(MIN_PASSWORD_LENGTH + 3),
    }
}

fn create_with_password(password: &str) -> CreateUser {
    CreateUser {
        name: "Someone".to_string(),
        role: Role::User,
        email: "someone@example.com".to_string(),
        password: password.to_string(),
    }
}

fn update_with_name(name: &str) -> UpdateUser {
    UpdateUser { name: name.to_string(), role: Role::User, email: "someone@example.com".to_string() }
}

fn update_with_email(email: &str) -> UpdateUser {
    UpdateUser { name: "Someone".to_string(), role: Role::User, email: email.to_string() }
}

#[test]
fn update_short_name_validates() {
    let update = update_with_name("ÎŸ");
    assert!(update.validate().is_ok());
}

#[test]
fn update_empty_name_does_not_validate() {
    let update = update_with_name("");
    assert!(update.validate().is_err());
}

#[test]
fn update_short_email_validates() {
    let update = update_with_email("123456");
    assert!(update.validate().is_ok());
}

#[test]
fn update_very_short_email_does_not_validate() {
    let update = update_with_email("12345");
    assert!(update.validate().is_err());
}

#[test]
fn create_short_name_validates() {
    let create = create_with_name("😱");
    assert!(create.validate().is_ok());
}

#[test]
fn create_empty_name_does_not_validate() {
    let create = create_with_name("");
    assert!(create.validate().is_err());
}

#[test]
fn create_short_password_validates() {
    let create = create_with_password("123456");
    assert!(create.validate().is_ok());
}

#[test]
fn create_very_short_password_does_not_validate() {
    let create = create_with_password("12345");
    assert!(create.validate().is_err());
}

#[test]
fn snippet_text_must_not_be_empty() {
    let mut body = CreateSnippet {
        text: String::new(),
        media: Media::Book,
        link: None,
        existing_authors: vec![],
        new_authors: vec![],
        terms: vec![],
    };
    assert!(body.validate().is_err());
    body.text = "Q".to_string();
    assert!(body.validate().is_ok());
}
