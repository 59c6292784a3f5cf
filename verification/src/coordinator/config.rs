//! Coordinator server configuration and its validation.
//!
//! The bind address is kept in its text form (`ip:port`); reading it as a
//! socket address is left to the server that binds it.
use vstd::prelude::*;
use crate::text::{push_str, string_of};

verus! {

/// Coordinator server configuration.
#[derive(Debug)]
pub struct CoordinatorConfig {
    /// Server bind address, `ip:port`
    pub bind_address: String,
    /// Heartbeat timeout in seconds
    pub heartbeat_timeout_secs: u64,
    /// Expected heartbeat interval from instances
    pub heartbeat_interval_secs: u64,
    /// Enable CORS for all origins
    pub enable_cors: bool,
    /// Maximum number of instances allowed
    pub max_instances: usize,
    /// Schedule cache file path
    pub schedule_cache_path: Option<String>,
    /// Enable request logging
    pub enable_request_logging: bool,
    /// API key for authentication (optional)
    pub api_key: Option<String>,
}

/// The address the coordinator binds to by default.
pub open spec fn default_bind_address() -> Seq<char> {
    "0.0.0.0:8080"@
}

/// Configuration validity: the timeout exceeds the heartbeat interval and
/// at least one instance is allowed.
pub open spec fn config_is_valid(timeout: u64, interval: u64, max_instances: usize) -> bool {
    timeout > interval && max_instances > 0
}

/// The error `validate` reports for given settings, if any.
pub open spec fn validation_error(timeout: u64, interval: u64, max_instances: usize) -> Option<(Seq<char>, Seq<char>)> {
    if timeout <= interval {
        Some(("heartbeat_timeout_secs"@, "Timeout must be greater than interval"@))
    } else if max_instances == 0 {
        Some(("max_instances"@, "Must allow at least 1 instance"@))
    } else {
        None
    }
}

impl Default for CoordinatorConfig {
    fn default() -> (r: Self)
        ensures
            r.bind_address@ == default_bind_address(),
            r.heartbeat_timeout_secs == 90,
            r.heartbeat_interval_secs == 30,
            r.enable_cors,
            r.max_instances == 10,
            r.schedule_cache_path is None,
            r.enable_request_logging,
            r.api_key is None,
    {
        CoordinatorConfig {
            bind_address: "0.0.0.0:8080".to_owned(),
            heartbeat_timeout_secs: 90,
            heartbeat_interval_secs: 30,
            enable_cors: true,
            max_instances: 10,
            schedule_cache_path: None,
            enable_request_logging: true,
            api_key: None,
        }
    }
}

impl CoordinatorConfig {
    /// Create a new config builder.
    pub fn builder() -> (r: CoordinatorConfigBuilder)
        ensures
            r.spec_is_empty(),
    {
        CoordinatorConfigBuilder::new()
    }

    /// Validate the configuration.
    pub fn validate(&self) -> (r: Result<(), ConfigError>)
        ensures
            match validation_error(self.heartbeat_timeout_secs, self.heartbeat_interval_secs, self.max_instances) {
                None => r is Ok,
                Some((field, reason)) => r matches Err(ConfigError::InvalidValue { field: f, reason: m })
                    && f@ == field && m@ == reason,
            },
            r is Ok <==> config_is_valid(self.heartbeat_timeout_secs, self.heartbeat_interval_secs, self.max_instances),
    {
        if self.heartbeat_timeout_secs <= self.heartbeat_interval_secs {
            return Err(ConfigError::InvalidValue {
                field: "heartbeat_timeout_secs".to_owned(),
                reason: "Timeout must be greater than interval".to_owned(),
            });
        }
        if self.max_instances == 0 {
            return Err(ConfigError::InvalidValue {
                field: "max_instances".to_owned(),
                reason: "Must allow at least 1 instance".to_owned(),
            });
        }
        Ok(())
    }
}

/// Builder for `CoordinatorConfig`: every setting left out takes its default.
#[derive(Debug)]
pub struct CoordinatorConfigBuilder {
    pub bind_address: Option<String>,
    pub heartbeat_timeout_secs: Option<u64>,
    pub heartbeat_interval_secs: Option<u64>,
    pub enable_cors: Option<bool>,
    pub max_instances: Option<usize>,
    pub schedule_cache_path: Option<String>,
    pub enable_request_logging: Option<bool>,
    pub api_key: Option<String>,
}

impl Default for CoordinatorConfigBuilder {
    fn default() -> (r: Self)
        ensures
            r.spec_is_empty(),
    {
        CoordinatorConfigBuilder::new()
    }
}

impl CoordinatorConfigBuilder {
    /// Nothing set yet.
    pub open spec fn spec_is_empty(&self) -> bool {
        &&& self.bind_address is None
        &&& self.heartbeat_timeout_secs is None
        &&& self.heartbeat_interval_secs is None
        &&& self.enable_cors is None
        &&& self.max_instances is None
        &&& self.schedule_cache_path is None
        &&& self.enable_request_logging is None
        &&& self.api_key is None
    }

    /// A builder with nothing set.
    pub fn new() -> (r: Self)
        ensures
            r.spec_is_empty(),
    {
        CoordinatorConfigBuilder {
            bind_address: None,
            heartbeat_timeout_secs: None,
            heartbeat_interval_secs: None,
            enable_cors: None,
            max_instances: None,
            schedule_cache_path: None,
            enable_request_logging: None,
            api_key: None,
        }
    }

    /// Set the bind address (`ip:port`).
    pub fn bind_address(self, addr: String) -> (r: Self)
        ensures
            r == (CoordinatorConfigBuilder { bind_address: Some(addr), ..self }),
    {
        CoordinatorConfigBuilder { bind_address: Some(addr), ..self }
    }

    /// Set the heartbeat timeout.
    pub fn heartbeat_timeout_secs(self, secs: u64) -> (r: Self)
        ensures
            r == (CoordinatorConfigBuilder { heartbeat_timeout_secs: Some(secs), ..self }),
    {
        CoordinatorConfigBuilder { heartbeat_timeout_secs: Some(secs), ..self }
    }

    /// Set the heartbeat interval.
    pub fn heartbeat_interval_secs(self, secs: u64) -> (r: Self)
        ensures
            r == (CoordinatorConfigBuilder { heartbeat_interval_secs: Some(secs), ..self }),
    {
        CoordinatorConfigBuilder { heartbeat_interval_secs: Some(secs), ..self }
    }

    /// Enable or disable CORS.
    pub fn enable_cors(self, enable: bool) -> (r: Self)
        ensures
            r == (CoordinatorConfigBuilder { enable_cors: Some(enable), ..self }),
    {
        CoordinatorConfigBuilder { enable_cors: Some(enable), ..self }
    }

    /// Set the maximum number of instances.
    pub fn max_instances(self, max: usize) -> (r: Self)
        ensures
            r == (CoordinatorConfigBuilder { max_instances: Some(max), ..self }),
    {
        CoordinatorConfigBuilder { max_instances: Some(max), ..self }
    }

    /// Set the schedule cache path.
    pub fn schedule_cache_path(self, path: &str) -> (r: Self)
        ensures
            r.schedule_cache_path matches Some(p) && p@ == path@,
            r == (CoordinatorConfigBuilder { schedule_cache_path: r.schedule_cache_path, ..self }),
    {
        CoordinatorConfigBuilder { schedule_cache_path: Some(path.to_owned()), ..self }
    }

    /// Enable or disable request logging.
    pub fn enable_request_logging(self, enable: bool) -> (r: Self)
        ensures
            r == (CoordinatorConfigBuilder { enable_request_logging: Some(enable), ..self }),
    {
        CoordinatorConfigBuilder { enable_request_logging: Some(enable), ..self }
    }

    /// Set the API key.
    pub fn api_key(self, key: &str) -> (r: Self)
        ensures
            r.api_key matches Some(k) && k@ == key@,
            r == (CoordinatorConfigBuilder { api_key: r.api_key, ..self }),
    {
        CoordinatorConfigBuilder { api_key: Some(key.to_owned()), ..self }
    }

    /// Build the configuration, with defaults for what was not set, and
    /// validate it.
    pub fn build(self) -> (r: Result<CoordinatorConfig, ConfigError>)
        ensures
            ({
                let timeout = match self.heartbeat_timeout_secs { Some(t) => t, None => 90u64 };
                let interval = match self.heartbeat_interval_secs { Some(t) => t, None => 30u64 };
                let max = match self.max_instances { Some(m) => m, None => 10usize };
                match r {
                    Ok(c) => {
                        &&& config_is_valid(timeout, interval, max)
                        &&& c.bind_address@ == match self.bind_address {
                            Some(a) => a@,
                            None => default_bind_address(),
                        }
                        &&& c.heartbeat_timeout_secs == timeout
                        &&& c.heartbeat_interval_secs == interval
                        &&& c.max_instances == max
                        &&& c.enable_cors == match self.enable_cors { Some(b) => b, None => true }
                        &&& c.enable_request_logging == match self.enable_request_logging {
                            Some(b) => b,
                            None => true,
                        }
                        &&& c.schedule_cache_path == self.schedule_cache_path
                        &&& c.api_key == self.api_key
                    },
                    Err(e) => !config_is_valid(timeout, interval, max) && match validation_error(timeout, interval, max) {
                        Some((field, reason)) => e matches ConfigError::InvalidValue { field: f, reason: m }
                            && f@ == field && m@ == reason,
                        None => false,
                    },
                }
            }),
    {
        let config = CoordinatorConfig {
            bind_address: match self.bind_address {
                Some(a) => a,
                None => "0.0.0.0:8080".to_owned(),
            },
            heartbeat_timeout_secs: match self.heartbeat_timeout_secs {
                Some(t) => t,
                None => 90,
            },
            heartbeat_interval_secs: match self.heartbeat_interval_secs {
                Some(t) => t,
                None => 30,
            },
            enable_cors: match self.enable_cors {
                Some(b) => b,
                None => true,
            },
            max_instances: match self.max_instances {
                Some(m) => m,
                None => 10,
            },
            schedule_cache_path: self.schedule_cache_path,
            enable_request_logging: match self.enable_request_logging {
                Some(b) => b,
                None => true,
            },
            api_key: self.api_key,
        };
        match config.validate() {
            Ok(()) => Ok(config),
            Err(e) => Err(e),
        }
    }
}

/// Configuration errors.
#[derive(Debug)]
pub enum ConfigError {
    /// Invalid configuration value
    InvalidValue { field: String, reason: String },
    /// Missing required field
    MissingField { field: String },
}

impl ConfigError {
    /// The error for a bind address that does not read as a socket address.
    pub fn invalid_address(addr: &str) -> (r: ConfigError)
        ensures
            r matches ConfigError::InvalidValue { field, reason } && field@ == "bind_address"@
                && reason@ == "Invalid address: "@ + addr@,
    {
        let mut m: Vec<char> = Vec::new();
        push_str(&mut m, "Invalid address: ");
        push_str(&mut m, addr);
        ConfigError::InvalidValue { field: "bind_address".to_owned(), reason: string_of(m.as_slice()) }
    }

    /// The message that displays the error.
    pub open spec fn spec_message(&self) -> Seq<char> {
        match self {
            ConfigError::InvalidValue { field, reason } => "Invalid value for '"@ + field@ + "': "@ + reason@,
            ConfigError::MissingField { field } => "Missing required field: "@ + field@,
        }
    }

    /// The message that displays the error.
    pub fn message(&self) -> (r: String)
        ensures
            r@ == self.spec_message(),
    {
        let mut m: Vec<char> = Vec::new();
        match self {
            ConfigError::InvalidValue { field, reason } => {
                push_str(&mut m, "Invalid value for '");
                push_str(&mut m, field.as_str());
                push_str(&mut m, "': ");
                push_str(&mut m, reason.as_str());
            },
            ConfigError::MissingField { field } => {
                push_str(&mut m, "Missing required field: ");
                push_str(&mut m, field.as_str());
            },
        }
        string_of(m.as_slice())
    }
}

} // verus!
