use vstd::prelude::*;
use crate::error::Error;
use crate::models::{Id, Media, Role};

verus! {

/// Minimum length, in characters, of a user, author or term name.
pub const MIN_NAME_LENGTH: usize = 1;

/// Minimum length, in characters, of an e-mail address.
pub const MIN_EMAIL_LENGTH: usize = 6;

/// Minimum length, in characters, of a password.
pub const MIN_PASSWORD_LENGTH: usize = 6;

/// Minimum length, in characters, of a snippet's text.
pub const MIN_TEXT_LENGTH: usize = 1;

/// A request to create a user account.
pub struct CreateUser {
    pub name: String,
    pub role: Role,
    pub email: String,
    pub password: String,
}

/// A request to change a user account.
pub struct UpdateUser {
    pub name: String,
    pub role: Role,
    pub email: String,
}

/// A request to create a snippet.
pub struct CreateSnippet {
    pub text: String,
    pub media: Media,
    pub link: Option<String>,
    pub existing_authors: Vec<Id>,
    pub new_authors: Vec<String>,
    pub terms: Vec<Id>,
}

/// A request to change a snippet.
pub struct UpdateSnippet {
    pub text: String,
    pub media: Media,
    pub link: Option<String>,
    pub existing_authors: Vec<Id>,
    pub new_authors: Vec<String>,
    pub terms: Vec<Id>,
}

/// Whether `s` has at least `min` characters.
fn long_enough(s: &String, min: usize) -> (r: bool)
    ensures
        r == (s@.len() >= min),
{
    s.as_str().unicode_len() >= min
}

impl CreateUser {
    /// Accepts the request when the name, the address and the password are long enough;
    /// otherwise a bad request.
    pub fn validate(&self) -> (r: Result<(), Error>)
        ensures
            r is Ok <==> self.name@.len() >= MIN_NAME_LENGTH && self.email@.len() >= MIN_EMAIL_LENGTH
                && self.password@.len() >= MIN_PASSWORD_LENGTH,
            r is Err ==> r matches Err(Error::BadRequest(_)),
    {
        if !long_enough(&self.name, MIN_NAME_LENGTH) {
            return Err(Error::BadRequest("name is too short".to_string()));
        }
        if !long_enough(&self.email, MIN_EMAIL_LENGTH) {
            return Err(Error::BadRequest("email is too short".to_string()));
        }
        if !long_enough(&self.password, MIN_PASSWORD_LENGTH) {
            return Err(Error::BadRequest("password is too short".to_string()));
        }
        Ok(())
    }
}

impl UpdateUser {
    /// Accepts the request when the name and the address are long enough; otherwise a
    /// bad request.
    pub fn validate(&self) -> (r: Result<(), Error>)
        ensures
            r is Ok <==> self.name@.len() >= MIN_NAME_LENGTH && self.email@.len() >= MIN_EMAIL_LENGTH,
            r is Err ==> r matches Err(Error::BadRequest(_)),
    {
        if !long_enough(&self.name, MIN_NAME_LENGTH) {
            return Err(Error::BadRequest("name is too short".to_string()));
        }
        if !long_enough(&self.email, MIN_EMAIL_LENGTH) {
            return Err(Error::BadRequest("email is too short".to_string()));
        }
        Ok(())
    }
}

impl CreateSnippet {
    /// Accepts the request when the text is long enough; otherwise a bad request.
    pub fn validate(&self) -> (r: Result<(), Error>)
        ensures
            r is Ok <==> self.text@.len() >= MIN_TEXT_LENGTH,
            r is Err ==> r matches Err(Error::BadRequest(_)),
    {
        if !long_enough(&self.text, MIN_TEXT_LENGTH) {
            return Err(Error::BadRequest("text is too short".to_string()));
        }
        Ok(())
    }
}

impl UpdateSnippet {
    /// Accepts the request when the text is long enough; otherwise a bad request.
    pub fn validate(&self) -> (r: Result<(), Error>)
        ensures
            r is Ok <==> self.text@.len() >= MIN_TEXT_LENGTH,
            r is Err ==> r matches Err(Error::BadRequest(_)),
    {
        if !long_enough(&self.text, MIN_TEXT_LENGTH) {
            return Err(Error::BadRequest("text is too short".to_string()));
        }
        Ok(())
    }
}

} // verus!
