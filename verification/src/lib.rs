//! Synchronisation engine for podcast subscriptions shared between a user's
//! devices: a subscription change log with timestamp-windowed diffs, and the
//! partition of a user's devices into synchronisation groups.

pub mod config;
pub mod error;
pub mod handlers;
pub mod middleware;
pub mod models;
pub mod ordered;
pub mod repository;
pub mod services;
pub mod table;
pub mod text;
pub mod utils;
