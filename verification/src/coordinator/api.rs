//! Coordinator REST API: response bodies and what each endpoint answers.
//! Routing and the HTTP server are the caller's; each endpoint here returns
//! its status code and body.
use vstd::prelude::*;
use crate::scheduler::{CrawlerInstance, instance_ids_are_distinct};
use crate::coordinator::registry::{
    HeartbeatRequest, HeartbeatResponse, InstanceInfo, InstanceRegistry, RegisterRequest, RegisterResponse,
    RegistryError, same_info,
};
use crate::text::{push_str, string_of};

verus! {

/// Standard API response wrapper.
#[derive(Debug)]
pub struct ApiResponse<T> {
    pub success: bool,
    pub data: Option<T>,
    pub error: Option<String>,
}

impl<T> ApiResponse<T> {
    /// Create a success response.
    pub fn success(data: T) -> (r: Self)
        ensures
            r.success,
            r.data == Some(data),
            r.error is None,
    {
        ApiResponse { success: true, data: Some(data), error: None }
    }
}

impl<T: Default> ApiResponse<T> {
    /// Create an error response that still carries a default body.
    pub fn error_with_default(message: &str) -> (r: Self)
        ensures
            !r.success,
            r.data is Some,
            r.error matches Some(e) && e@ == message@,
    {
        ApiResponse { success: false, data: Some(T::default()), error: Some(message.to_owned()) }
    }
}

/// Error response.
#[derive(Debug)]
pub struct ErrorResponse {
    pub success: bool,
    pub error: String,
}

impl ErrorResponse {
    /// An error response with a message.
    pub fn new(message: &str) -> (r: Self)
        ensures
            !r.success,
            r.error@ == message@,
    {
        ErrorResponse { success: false, error: message.to_owned() }
    }
}

/// Health check response.
#[derive(Debug)]
pub struct HealthResponse {
    pub status: String,
    pub version: String,
    pub uptime_secs: u64,
}

/// Schedule response.
#[derive(Debug, Default)]
pub struct ScheduleResponse {
    pub date: String,
    pub slots: Vec<SlotResponse>,
}

/// Slot response.
#[derive(Debug, Default)]
pub struct SlotResponse {
    pub hour: u8,
    pub instance: String,
    pub categories: Vec<String>,
}

/// Schedule override request.
#[derive(Debug)]
pub struct OverrideRequest {
    pub hour: u8,
    pub instance: String,
}

/// Request to set maintenance mode.
#[derive(Debug)]
pub struct MaintenanceRequest {
    pub enabled: bool,
}

/// `GET /api/health`: the coordinator answers, so it is healthy.
pub fn health_reply(version: String, uptime_secs: u64) -> (r: ApiResponse<HealthResponse>)
    ensures
        r.success,
        r.error is None,
        r.data matches Some(h) && h.status@ == "healthy"@ && h.version == version && h.uptime_secs == uptime_secs,
{
    ApiResponse::success(HealthResponse { status: "healthy".to_owned(), version, uptime_secs })
}

/// An error answer with message `msg`.
pub open spec fn is_error_with<T>(r: Result<T, ErrorResponse>, msg: Seq<char>) -> bool {
    r matches Err(e) && e.error@ == msg
}

/// A successful answer carrying `data`.
pub open spec fn answers<T>(r: Result<ApiResponse<T>, ErrorResponse>, data: spec_fn(T) -> bool) -> bool {
    r matches Ok(resp) && resp.success && (resp.data matches Some(d) && data(d))
}

fn error_text(prefix: &str, id: &str) -> (r: ErrorResponse)
    ensures
        !r.success,
        r.error@ == prefix@ + id@,
{
    let mut m: Vec<char> = Vec::new();
    push_str(&mut m, prefix);
    push_str(&mut m, id);
    ErrorResponse { success: false, error: string_of(m.as_slice()) }
}

/// `GET /api/instances/:id`: 400 for an unknown id, 404 for an instance that
/// is not registered, else 200 with its entry.
pub fn get_instance_reply(registry: &InstanceRegistry, id: &str) -> (r: (u16, Result<ApiResponse<InstanceInfo>, ErrorResponse>))
    requires
        registry.wf(),
    ensures
        (forall|c: CrawlerInstance| c.spec_id() != id@) ==> r.0 == 400 && is_error_with(
            r.1,
            "Invalid instance ID: "@ + id@,
        ),
        forall|c: CrawlerInstance| c.spec_id() == id@ ==> match registry.entry(c) {
            None => r.0 == 404 && is_error_with(r.1, "Instance not found: "@ + id@),
            Some(info) => r.0 == 200 && answers(r.1, |d: InstanceInfo| same_info(d, info)),
        },
{
    let instance = match CrawlerInstance::from_id(id) {
        Ok(c) => c,
        Err(()) => {
            return (400, Err(error_text("Invalid instance ID: ", id)));
        },
    };
    proof {
        assert forall|c: CrawlerInstance| c.spec_id() == id@ implies c == instance by {
            instance_ids_are_distinct(c, instance);
        }
    }
    match registry.get_instance(instance) {
        Some(info) => (200, Ok(ApiResponse::success(info))),
        None => (404, Err(error_text("Instance not found: ", id))),
    }
}

/// `POST /api/instances/register`: 200 with the registration, else 400 with
/// the registry's error message.
pub fn register_reply(registry: &mut InstanceRegistry, request: RegisterRequest) -> (r: (
    u16,
    Result<ApiResponse<RegisterResponse>, ErrorResponse>,
))
    requires
        old(registry).wf(),
    ensures
        final(registry).wf(),
        r.0 == 200 || r.0 == 400,
        r.0 == 200 <==> r.1 is Ok,
        r.1 is Ok ==> answers(r.1, |d: RegisterResponse| final(registry).entry(d.instance) is Some),
        r.1 is Err ==> final(registry).slots() == old(registry).slots(),
{
    match registry.register(request) {
        Ok(resp) => (200, Ok(ApiResponse::success(resp))),
        Err(e) => {
            let m = e.message();
            (400, Err(ErrorResponse { success: false, error: m }))
        },
    }
}

/// `POST /api/instances/heartbeat`: 200 with the heartbeat answer, else 400
/// with the registry's error message.
pub fn heartbeat_reply(registry: &mut InstanceRegistry, request: HeartbeatRequest) -> (r: (
    u16,
    Result<ApiResponse<HeartbeatResponse>, ErrorResponse>,
))
    requires
        old(registry).wf(),
    ensures
        final(registry).wf(),
        r.0 == 200 || r.0 == 400,
        r.0 == 200 <==> r.1 is Ok,
        r.1 is Err ==> final(registry).slots() == old(registry).slots(),
{
    match registry.heartbeat(request) {
        Ok(resp) => (200, Ok(ApiResponse::success(resp))),
        Err(e) => {
            let m = e.message();
            (400, Err(ErrorResponse { success: false, error: m }))
        },
    }
}

/// `POST /api/instances/:id/maintenance`: 400 for an unknown id, 404 for an
/// instance that is not registered, else 200 with
/// `Maintenance mode enabled|disabled for {id}`.
pub fn maintenance_reply(registry: &mut InstanceRegistry, id: &str, request: MaintenanceRequest) -> (r: (
    u16,
    Result<ApiResponse<String>, ErrorResponse>,
))
    requires
        old(registry).wf(),
    ensures
        final(registry).wf(),
        (forall|c: CrawlerInstance| c.spec_id() != id@) ==> r.0 == 400 && is_error_with(
            r.1,
            "Invalid instance ID: "@ + id@,
        ) && final(registry).slots() == old(registry).slots(),
        forall|c: CrawlerInstance| c.spec_id() == id@ ==> match old(registry).entry(c) {
            None => r.0 == 404 && is_error_with(r.1, "Instance not found: "@ + c.spec_id())
                && final(registry).slots() == old(registry).slots(),
            Some(info) => r.0 == 200 && answers(
                r.1,
                |m: String| m@ == "Maintenance mode "@ + (if request.enabled { "enabled"@ } else { "disabled"@ })
                    + " for "@ + id@,
            ) && final(registry).entry(c) is Some,
        },
{
    let instance = match CrawlerInstance::from_id(id) {
        Ok(c) => c,
        Err(()) => {
            return (400, Err(error_text("Invalid instance ID: ", id)));
        },
    };
    proof {
        assert forall|c: CrawlerInstance| c.spec_id() == id@ implies c == instance by {
            instance_ids_are_distinct(c, instance);
        }
    }
    match registry.set_maintenance(instance, request.enabled) {
        Ok(()) => {
            let mut m: Vec<char> = Vec::new();
            push_str(&mut m, "Maintenance mode ");
            push_str(&mut m, if request.enabled { "enabled" } else { "disabled" });
            push_str(&mut m, " for ");
            push_str(&mut m, id);
            (200, Ok(ApiResponse::success(string_of(m.as_slice()))))
        },
        Err(e) => {
            let m = e.message();
            (404, Err(ErrorResponse { success: false, error: m }))
        },
    }
}

} // verus!
