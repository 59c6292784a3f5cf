//! Crawling logic: URLs, list pages, comments, pipeline, status and triggers.
pub mod comment;
pub mod distributed;
pub mod fetcher;
pub mod headers;
pub mod instance;
pub mod list;
pub mod pipeline;
pub mod status;
pub mod trigger;
pub mod url;
