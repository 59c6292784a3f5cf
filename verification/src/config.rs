//! Application settings shared by the commands.
use vstd::prelude::*;

verus! {

/// Database configuration.
#[derive(Debug)]
pub struct DatabaseConfig {
    /// SQLite database path (for metadata)
    pub sqlite_path: String,
    /// PostgreSQL connection URL
    pub postgres_url: String,
    /// Connection pool size
    pub pool_size: usize,
}

/// OpenSearch configuration.
#[derive(Debug)]
pub struct OpenSearchConfig {
    /// OpenSearch URL
    pub url: String,
    /// Index name
    pub index_name: String,
    /// Username (optional)
    pub username: Option<String>,
    /// Password (optional)
    pub password: Option<String>,
}

/// Logging configuration.
#[derive(Debug)]
pub struct LoggingConfig {
    /// Log level (trace, debug, info, warn, error)
    pub level: String,
    /// Log format (json, text)
    pub format: String,
}

impl Default for DatabaseConfig {
    fn default() -> (r: Self)
        ensures
            r.sqlite_path@ == "data/metadata.db"@,
            r.postgres_url@ == "postgresql://localhost/baram"@,
            r.pool_size == 10,
    {
        DatabaseConfig {
            sqlite_path: "data/metadata.db".to_owned(),
            postgres_url: "postgresql://localhost/baram".to_owned(),
            pool_size: 10,
        }
    }
}

impl Default for OpenSearchConfig {
    fn default() -> (r: Self)
        ensures
            r.url@ == "http://localhost:9200"@,
            r.index_name@ == "baram-articles"@,
            r.username is None,
            r.password is None,
    {
        OpenSearchConfig {
            url: "http://localhost:9200".to_owned(),
            index_name: "baram-articles".to_owned(),
            username: None,
            password: None,
        }
    }
}

impl Default for LoggingConfig {
    fn default() -> (r: Self)
        ensures
            r.level@ == "info"@,
            r.format@ == "text"@,
    {
        LoggingConfig { level: "info".to_owned(), format: "text".to_owned() }
    }
}

/// The problem that validation reports first: no concurrent requests
/// allowed, a rate limit that is not positive, or an empty connection pool.
pub open spec fn settings_error(max_concurrent_requests: usize, rate_limit_positive: bool, pool_size: usize) -> Option<Seq<char>> {
    if max_concurrent_requests == 0 {
        Some("max_concurrent_requests must be greater than 0"@)
    } else if !rate_limit_positive {
        Some("rate_limit must be positive"@)
    } else if pool_size == 0 {
        Some("pool_size must be greater than 0"@)
    } else {
        None
    }
}

/// Validate the crawler and database settings; `rate_limit_positive` says
/// whether the crawler's rate limit exceeds zero.
pub fn validate_settings(max_concurrent_requests: usize, rate_limit_positive: bool, pool_size: usize) -> (r: Result<(), String>)
    ensures
        match settings_error(max_concurrent_requests, rate_limit_positive, pool_size) {
            None => r is Ok,
            Some(m) => r matches Err(e) && e@ == m,
        },
{
    if max_concurrent_requests == 0 {
        return Err("max_concurrent_requests must be greater than 0".to_owned());
    }
    if !rate_limit_positive {
        return Err("rate_limit must be positive".to_owned());
    }
    if pool_size == 0 {
        return Err("pool_size must be greater than 0".to_owned());
    }
    Ok(())
}

} // verus!
