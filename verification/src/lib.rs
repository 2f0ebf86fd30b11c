//! Pending issues and change requests of the repositories a user watches.
pub mod batch;
mod clock;
pub mod commands;
pub mod config;
pub mod github;
pub mod gitlab;
pub mod gitlab_client;
pub mod graphql;
pub mod http_status;
pub mod laws;
pub mod model;
pub mod name_map;
pub mod order;
pub mod schedule;
pub mod sort;
pub mod text;
