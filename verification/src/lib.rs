//! An in-memory store of users, locations and visits that keeps two
//! denormalized indices — per-user visit lists ordered by time and per-location
//! mark lists — consistent under creates and partial updates, and answers the
//! two aggregation queries (a user's enriched visit list, a location's average
//! mark) from those indices.

pub mod domain;
pub mod store;
pub mod render;
pub mod numbers;
pub mod response;
pub mod ext;
pub mod query;
pub mod json;
pub mod routes;
pub mod laws;
