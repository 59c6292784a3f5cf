//! Coordinator server errors. Running the HTTP server is left to the
//! program that hosts the coordinator.
use vstd::prelude::*;
use crate::coordinator::config::{CoordinatorConfig, config_is_valid, validation_error};
use crate::coordinator::registry::InstanceRegistry;
use crate::scheduler::CrawlerInstance;
use crate::text::{decimal, push_decimal, push_str, string_of, chars_of, extend_chars};

verus! {

/// Server errors.
#[derive(Debug)]
pub enum ServerError {
    /// Configuration error
    ConfigError(String),
    /// Initialization error
    InitError(String),
    /// Failed to bind to address
    BindError(String),
    /// Server error
    ServeError(String),
}

impl ServerError {
    /// The message that displays the error.
    pub open spec fn spec_message(&self) -> Seq<char> {
        match self {
            ServerError::ConfigError(m) => "Configuration error: "@ + m@,
            ServerError::InitError(m) => "Initialization error: "@ + m@,
            ServerError::BindError(m) => "Failed to bind: "@ + m@,
            ServerError::ServeError(m) => "Server error: "@ + m@,
        }
    }

    /// The message that displays the error.
    pub fn message(&self) -> (r: String)
        ensures
            r@ == self.spec_message(),
    {
        let mut out: Vec<char> = Vec::new();
        match self {
            ServerError::ConfigError(m) => {
                push_str(&mut out, "Configuration error: ");
                push_str(&mut out, m.as_str());
            },
            ServerError::InitError(m) => {
                push_str(&mut out, "Initialization error: ");
                push_str(&mut out, m.as_str());
            },
            ServerError::BindError(m) => {
                push_str(&mut out, "Failed to bind: ");
                push_str(&mut out, m.as_str());
            },
            ServerError::ServeError(m) => {
                push_str(&mut out, "Server error: ");
                push_str(&mut out, m.as_str());
            },
        }
        string_of(out.as_slice())
    }
}

/// Server information.
#[derive(Debug)]
pub struct ServerInfo {
    /// `ip:port`
    pub bind_address: String,
    pub heartbeat_timeout_secs: u64,
    pub max_instances: usize,
    pub cors_enabled: bool,
    pub request_logging_enabled: bool,
}

/// `enabled` or `disabled`.
pub open spec fn switch_text(on: bool) -> Seq<char> {
    if on { "enabled"@ } else { "disabled"@ }
}

/// The display text of server information.
pub open spec fn server_info_text(i: ServerInfo) -> Seq<char> {
    "Coordinator Server\n"@ + Seq::new(40, |k: int| '-') + "\nBind Address: "@ + i.bind_address@
        + "\nHeartbeat Timeout: "@ + decimal(i.heartbeat_timeout_secs as nat) + "s\nMax Instances: "@ + decimal(
        i.max_instances as nat,
    ) + "\nCORS: "@ + switch_text(i.cors_enabled) + "\nRequest Logging: "@ + switch_text(
        i.request_logging_enabled,
    )
}

impl ServerInfo {
    /// The information of a server run with a configuration.
    pub fn from_config(config: &CoordinatorConfig) -> (r: Self)
        ensures
            r.bind_address@ == config.bind_address@,
            r.heartbeat_timeout_secs == config.heartbeat_timeout_secs,
            r.max_instances == config.max_instances,
            r.cors_enabled == config.enable_cors,
            r.request_logging_enabled == config.enable_request_logging,
    {
        let a = chars_of(config.bind_address.as_str());
        ServerInfo {
            bind_address: string_of(a.as_slice()),
            heartbeat_timeout_secs: config.heartbeat_timeout_secs,
            max_instances: config.max_instances,
            cors_enabled: config.enable_cors,
            request_logging_enabled: config.enable_request_logging,
        }
    }

    /// Format as display string.
    pub fn display(&self) -> (r: String)
        ensures
            r@ == server_info_text(*self),
    {
        let mut out: Vec<char> = Vec::new();
        push_str(&mut out, "Coordinator Server\n");
        let ghost start = out@;
        let mut k: usize = 0;
        while k < 40
            invariant
                k <= 40,
                out@ == start + Seq::new(k as nat, |j: int| '-'),
            decreases 40 - k,
        {
            out.push('-');
            proof {
                assert(start + Seq::new((k + 1) as nat, |j: int| '-') =~= start + Seq::new(k as nat, |j: int| '-')
                    + seq!['-']);
            }
            k = k + 1;
        }
        push_str(&mut out, "\nBind Address: ");
        let a = chars_of(self.bind_address.as_str());
        extend_chars(&mut out, a.as_slice());
        push_str(&mut out, "\nHeartbeat Timeout: ");
        push_decimal(&mut out, self.heartbeat_timeout_secs);
        push_str(&mut out, "s\nMax Instances: ");
        push_decimal(&mut out, self.max_instances as u64);
        push_str(&mut out, "\nCORS: ");
        push_str(&mut out, if self.cors_enabled { "enabled" } else { "disabled" });
        push_str(&mut out, "\nRequest Logging: ");
        push_str(&mut out, if self.request_logging_enabled { "enabled" } else { "disabled" });
        proof {
            assert(out@ =~= server_info_text(*self));
        }
        string_of(out.as_slice())
    }
}

/// The coordinator: its configuration and the registry of crawler
/// instances it keeps. Serving HTTP, and the schedule, are the hosting
/// program's.
pub struct CoordinatorServer {
    config: CoordinatorConfig,
    registry: InstanceRegistry,
}

impl CoordinatorServer {
    /// The configuration the server runs with.
    pub closed spec fn spec_config(&self) -> CoordinatorConfig {
        self.config
    }

    /// The registry of crawler instances.
    pub closed spec fn spec_registry(&self) -> InstanceRegistry {
        self.registry
    }

    /// A server for a valid configuration, with an empty registry whose
    /// timeout and capacity the configuration gives; a configuration error
    /// otherwise.
    pub fn new(config: CoordinatorConfig) -> (r: Result<Self, ServerError>)
        ensures
            match r {
                Ok(s) => {
                    &&& config_is_valid(config.heartbeat_timeout_secs, config.heartbeat_interval_secs, config.max_instances)
                    &&& s.spec_config() == config
                    &&& s.spec_registry().wf()
                    &&& forall|c: CrawlerInstance| s.spec_registry().entry(c) is None
                    &&& s.spec_registry().spec_timeout() == #[verifier::truncate] (config.heartbeat_timeout_secs as i64)
                    &&& s.spec_registry().spec_max_instances() == config.max_instances
                },
                Err(e) => !config_is_valid(config.heartbeat_timeout_secs, config.heartbeat_interval_secs, config.max_instances)
                    && match validation_error(config.heartbeat_timeout_secs, config.heartbeat_interval_secs, config.max_instances) {
                        Some((field, reason)) => e matches ServerError::ConfigError(m)
                            && m@ == "Invalid value for '"@ + field + "': "@ + reason,
                        None => false,
                    },
            },
    {
        match config.validate() {
            Ok(()) => {
                let registry = InstanceRegistry::new(config.heartbeat_timeout_secs, config.max_instances);
                Ok(CoordinatorServer { config, registry })
            },
            Err(e) => Err(ServerError::ConfigError(e.message())),
        }
    }

    /// The configuration the server runs with.
    pub fn config(&self) -> (r: &CoordinatorConfig)
        ensures
            *r == self.spec_config(),
    {
        &self.config
    }

    /// The registry of crawler instances.
    pub fn registry(&self) -> (r: &InstanceRegistry)
        ensures
            *r == self.spec_registry(),
    {
        &self.registry
    }

    /// The registry, handed to the program that serves it.
    pub fn into_registry(self) -> (r: InstanceRegistry)
        ensures
            r == self.spec_registry(),
    {
        self.registry
    }

    /// Get server info.
    pub fn info(&self) -> (r: ServerInfo)
        ensures
            r.bind_address@ == self.spec_config().bind_address@,
            r.heartbeat_timeout_secs == self.spec_config().heartbeat_timeout_secs,
            r.max_instances == self.spec_config().max_instances,
            r.cors_enabled == self.spec_config().enable_cors,
            r.request_logging_enabled == self.spec_config().enable_request_logging,
    {
        ServerInfo::from_config(&self.config)
    }
}

} // verus!
