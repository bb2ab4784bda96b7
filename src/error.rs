use vstd::prelude::*;

verus! {

/// The error categories that callers of the library observe.
#[derive(Debug, PartialEq, Eq)]
pub enum Error {
    /// A failed validation, a missing row on lookup, or a unique-key conflict.
    BadRequest(String),
    /// A missing, invalid or expired token.
    Unauthorized,
    /// A valid token whose role or subject does not permit the action.
    Forbidden,
    /// Any other storage or backend failure.
    InternalServerError,
}

/// The message carried by a unique-key conflict.
pub open spec fn already_exists_text() -> Seq<char> {
    "Already exists"@
}

/// The message carried by a failed lookup.
pub open spec fn not_found_text() -> Seq<char> {
    "Not found"@
}

/// `e` is the error of a unique-key conflict.
pub open spec fn is_already_exists(e: Error) -> bool {
    e matches Error::BadRequest(m) && m@ == already_exists_text()
}

/// `e` is the error of a failed lookup.
pub open spec fn is_not_found(e: Error) -> bool {
    e matches Error::BadRequest(m) && m@ == not_found_text()
}

impl Error {
    /// The error of a unique-key conflict: `BadRequest("Already exists")`.
    pub fn already_exists() -> (e: Error)
        ensures
            is_already_exists(e),
    {
        Error::BadRequest("Already exists".to_string())
    }

    /// The error of a failed lookup: `BadRequest("Not found")`.
    pub fn not_found() -> (e: Error)
        ensures
            is_not_found(e),
    {
        Error::BadRequest("Not found".to_string())
    }
}

} // verus!
