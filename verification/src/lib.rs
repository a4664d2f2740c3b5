//! A verified recipe catalog: an in-memory relational store of recipes,
//! ingredients, and their quantified associations, with exact-set query
//! semantics, an idempotent transactional upsert, and session-token parsing.

pub mod errors;
pub mod model;
pub mod repository;
pub mod session;
pub mod api;
pub mod laws;
