//! Verified core of an administrative backend over accounts, countries and
//! states: a reference-data cache with explicit invalidation, a safe
//! paginated listing query builder, and a session authority with CSRF
//! defense for two independent principal kinds.

pub mod api;
pub mod cache;
pub mod controllers;
pub mod errors;
pub mod listing;
pub mod models;
pub mod repository;
pub mod session;
pub mod outside;
pub mod text;

pub use errors::AppError;
