pub mod analytics;
pub mod cache;
pub mod clock;
pub mod clustering;
pub mod commands;
pub mod config;
pub mod coordinator;
pub mod crawler;
pub mod embedding;
pub mod error;
pub mod i18n;
pub mod llm;
pub mod models;
pub mod scheduler;
pub mod text;
