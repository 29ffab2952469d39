//! A self-hosted secrets service: request authentication and the state
//! machine of secrets, versions, stage labels and tags.
pub mod auth;
pub mod config;
pub mod date;
pub mod error;
pub mod handlers;
pub mod laws;
pub mod listing;
pub mod pagination;
pub mod password;
pub mod search;
pub mod secrets;
pub mod sigv4;
pub mod store;
pub mod text;
