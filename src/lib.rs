pub mod auth;
pub mod authentication;
pub mod config;
pub mod db;
pub mod error;
pub mod i18n;
pub mod models;
pub mod order;
pub mod resources;
pub mod translation;
pub mod validation;
