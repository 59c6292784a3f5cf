//! Analytics over crawled news: entity kinds and trend directions.
pub mod entity_trends;
pub mod keyword_trends;
