//! Verified data-access layer for a small task/note tracker backed by a
//! document store.  The service logic — identifier validation, record
//! construction with defaults, sparse partial updates, boolean toggles,
//! filtered newest-first listings and keyword search — is verified here
//! against an in-memory model of the two collections; an embedding binary
//! drives the same logic against the real store.

pub mod config;
pub mod errors;
pub mod counter;
pub mod ident;
pub mod dates;
pub mod text;
pub mod models;
pub mod todo_service;
pub mod idea_service;
