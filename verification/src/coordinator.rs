//! Coordination of distributed crawler instances: registry, health, API
//! answers, client settings and server configuration.
pub mod api;
pub mod client;
pub mod config;
pub mod health;
pub mod registry;
pub mod server;
