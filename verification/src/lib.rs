//! Core rules of an anonymous article board: articles with attached media,
//! comments that bump their article, and a password-gated edit/delete
//! protocol, all specified and verified over an in-memory model of the
//! record store.

pub mod errors;
pub mod laws;
pub mod media;
pub mod store;
pub mod workflow;
