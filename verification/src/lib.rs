//! Core logic of a bridge between chat forum topics and command-line assistant sessions.
pub mod text;
pub mod numeric;
pub mod store;
pub mod formatter;
pub mod config;
pub mod config_file;
pub mod json;
pub mod session;
pub mod bot;
pub mod iframe_inject;
pub mod mail;
