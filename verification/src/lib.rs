pub mod text;
pub mod json;
pub mod routes;
pub mod error;
pub mod client;
pub mod auth;
pub mod config;
pub mod assets;
pub mod templates;
