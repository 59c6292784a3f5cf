//! Event clustering of news articles: what is decided about a cluster once
//! its articles are known, and reading the model's summary of it.
pub mod engine;
pub mod summary;
