pub mod auth;
pub mod author;
pub mod snippet;
pub mod term;
pub mod user;
