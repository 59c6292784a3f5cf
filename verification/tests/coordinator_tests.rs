use baram::coordinator::api::{
    get_instance_reply, health_reply, heartbeat_reply, maintenance_reply, register_reply, ApiResponse,
    ErrorResponse, MaintenanceRequest,
};
use baram::coordinator::client::{
    categories_at, health_from_response, my_slots, ClientConfig, ClientError, RetryLoop, RetryStep,
    ScheduleResponse, SlotResponse,
};
use baram::coordinator::config::{ConfigError, CoordinatorConfig};
use baram::coordinator::health::{
    liveness_report, readiness_report, startup_report, HealthChecker, HealthStatus,
};
use baram::coordinator::registry::{
    saturating_diff, HeartbeatRequest, InstanceInfo, InstanceRegistry, InstanceStatus, RegisterRequest,
    RegistryError,
};
use baram::coordinator::server::{CoordinatorServer, ServerError, ServerInfo};
use baram::scheduler::CrawlerInstance;
use std::time::Duration;

fn create_register_request(id: &str) -> RegisterRequest {
    RegisterRequest {
        instance_id: id.to_string(),
        ip_address: "127.0.0.1".to_string(),
        port: 8080,
        version: Some("1.0.0".to_string()),
        metadata: Vec::new(),
    }
}

// ---------------------------------------------------------------- api

#[test]
fn test_api_response_success() {
    let response = ApiResponse::success("test data");
    assert!(response.success);
    assert!(response.data.is_some());
    assert!(response.error.is_none());
}

#[test]
fn test_error_response() {
    let response = ErrorResponse::new("test error");
    assert!(!response.success);
    assert_eq!(response.error, "test error");
}

#[test]
fn health_reply_is_healthy() {
    let r = health_reply("1.2.3".to_string(), 42);
    assert!(r.success);
    let h = r.data.unwrap();
    assert_eq!(h.status, "healthy");
    assert_eq!(h.version, "1.2.3");
    assert_eq!(h.uptime_secs, 42);
}

#[test]
fn instance_replies_give_status_codes() {
    let mut registry = InstanceRegistry::new(90, 10);
    let (code, r) = get_instance_reply(&registry, "nope");
    assert_eq!(code, 400);
    assert_eq!(r.unwrap_err().error, "Invalid instance ID: nope");
    let (code, r) = get_instance_reply(&registry, "main");
    assert_eq!(code, 404);
    assert_eq!(r.unwrap_err().error, "Instance not found: main");

    let (code, r) = register_reply(&mut registry, create_register_request("main"));
    assert_eq!(code, 200);
    assert!(r.is_ok());
    let (code, r) = get_instance_reply(&registry, "main");
    assert_eq!(code, 200);
    assert_eq!(r.unwrap().data.unwrap().instance, CrawlerInstance::Main);

    let (code, r) = maintenance_reply(&mut registry, "main", MaintenanceRequest { enabled: true });
    assert_eq!(code, 200);
    assert_eq!(r.unwrap().data.unwrap(), "Maintenance mode enabled for main");
    let (code, _) = maintenance_reply(&mut registry, "sub1", MaintenanceRequest { enabled: true });
    assert_eq!(code, 404);

    let hb = HeartbeatRequest {
        instance_id: "sub2".to_string(),
        articles_crawled: 1,
        error_count: 0,
        current_category: None,
    };
    let (code, r) = heartbeat_reply(&mut registry, hb);
    assert_eq!(code, 400);
    assert_eq!(r.unwrap_err().error, "Instance not found: sub2");
}

// ---------------------------------------------------------------- client

#[test]
fn test_client_config_creation() {
    let config = ClientConfig::new("http://localhost:8080", CrawlerInstance::Main);
    assert_eq!(config.coordinator_url, "http://localhost:8080");
    assert_eq!(config.instance_id, CrawlerInstance::Main);
    assert_eq!(config.retry_count, 3);
}

#[test]
fn test_client_config_with_timeout() {
    let config = ClientConfig::new("http://localhost:8080", CrawlerInstance::Main)
        .with_timeout(Duration::from_secs(30))
        .with_retry_count(5);
    assert_eq!(config.timeout, Duration::from_secs(30));
    assert_eq!(config.retry_count, 5);
}

#[test]
fn client_config_defaults_and_urls() {
    let config = ClientConfig::new("http://c:1", CrawlerInstance::Sub1);
    assert_eq!(config.timeout, Duration::from_secs(10));
    assert_eq!(config.retry_delay, Duration::from_secs(1));
    assert_eq!(config.endpoint("/api/health"), "http://c:1/api/health");
    assert_eq!(config.schedule_url("2024-01-15"), "http://c:1/api/schedule/2024-01-15");
    let reg = config.register_request("10.0.0.1", 9000, "0.1.0");
    assert_eq!(reg.instance_id, "sub1");
    assert_eq!(reg.port, 9000);
}

#[test]
fn retry_loop_sends_retry_count_plus_one_times() {
    let mut l = RetryLoop::new(2);
    assert_eq!(l.next_step(), RetryStep::Send { wait_first: false });
    l.record_failure(ClientError::NetworkError("a".to_string()));
    assert_eq!(l.next_step(), RetryStep::Send { wait_first: true });
    l.record_failure(ClientError::NetworkError("b".to_string()));
    l.record_failure(ClientError::CoordinatorUnavailable);
    assert_eq!(l.next_step(), RetryStep::GiveUp);
    assert_eq!(l.into_error().message(), "Coordinator unavailable");
}

#[test]
fn client_error_messages() {
    let e = ClientError::HttpError { status: 503, message: "down".to_string() };
    assert_eq!(e.message(), "HTTP error (503): down");
    assert_eq!(RetryLoop::new(0).into_error().message(), "Network error: Unknown error");
}

#[test]
fn slots_are_read_from_the_schedule() {
    let slot = |hour: u8, inst: &str, cats: &[&str]| SlotResponse {
        hour,
        instance: inst.to_string(),
        categories: cats.iter().map(|c| c.to_string()).collect(),
    };
    let schedule = || ScheduleResponse {
        date: "2024-01-15".to_string(),
        slots: vec![slot(0, "main", &["politics"]), slot(1, "sub1", &["economy"]), slot(2, "main", &["it"])],
    };
    let mine = my_slots(schedule(), CrawlerInstance::Main);
    assert_eq!(mine.iter().map(|s| s.hour).collect::<Vec<_>>(), vec![0, 2]);
    assert_eq!(categories_at(schedule(), CrawlerInstance::Sub1, 1), Some(vec!["economy".to_string()]));
    assert_eq!(categories_at(schedule(), CrawlerInstance::Sub1, 2), None);
}

#[test]
fn health_answer_reading() {
    let h = health_from_response(Some(("healthy".to_string(), "1".to_string(), 5))).unwrap();
    assert!(h.healthy);
    let h = health_from_response(Some(("degraded".to_string(), "1".to_string(), 5))).unwrap();
    assert!(!h.healthy);
    assert!(matches!(health_from_response(None), Err(ClientError::InvalidResponse(_))));
}

// ---------------------------------------------------------------- config

#[test]
fn test_default_config() {
    let config = CoordinatorConfig::default();
    assert!(config.validate().is_ok());
    assert_eq!(config.heartbeat_timeout_secs, 90);
    assert_eq!(config.heartbeat_interval_secs, 30);
}

#[test]
fn test_config_builder() {
    let config = CoordinatorConfig::builder()
        .heartbeat_timeout_secs(120)
        .heartbeat_interval_secs(60)
        .max_instances(5)
        .build()
        .unwrap();
    assert_eq!(config.heartbeat_timeout_secs, 120);
    assert_eq!(config.heartbeat_interval_secs, 60);
    assert_eq!(config.max_instances, 5);
}

#[test]
fn test_config_validation_fails() {
    let result = CoordinatorConfig::builder().heartbeat_timeout_secs(30).heartbeat_interval_secs(60).build();
    assert!(result.is_err());
}

#[test]
fn test_config_builder_with_address() {
    let config = CoordinatorConfig::builder().bind_address("127.0.0.1:9000".to_string()).build().unwrap();
    assert_eq!(config.bind_address, "127.0.0.1:9000");
}

#[test]
fn config_errors_and_messages() {
    let e = CoordinatorConfig::builder().max_instances(0).build().unwrap_err();
    assert_eq!(e.message(), "Invalid value for 'max_instances': Must allow at least 1 instance");
    let e = ConfigError::invalid_address("x");
    assert_eq!(e.message(), "Invalid value for 'bind_address': Invalid address: x");
    assert_eq!(ConfigError::MissingField { field: "f".to_string() }.message(), "Missing required field: f");
}

#[test]
fn server_error_message() {
    let e = ServerError::BindError("in use".to_string());
    assert!(e.message().contains("in use"));
}

// ---------------------------------------------------------------- health

#[test]
fn test_health_status_as_str() {
    assert_eq!(HealthStatus::Healthy.as_str(), "healthy");
    assert_eq!(HealthStatus::Degraded.as_str(), "degraded");
    assert_eq!(HealthStatus::Unhealthy.as_str(), "unhealthy");
}

#[test]
fn test_health_status_code() {
    assert_eq!(HealthStatus::Healthy.status_code(), 200);
    assert_eq!(HealthStatus::Degraded.status_code(), 200);
    assert_eq!(HealthStatus::Unhealthy.status_code(), 503);
}

#[test]
fn test_health_checker() {
    let mut checker = HealthChecker::new();
    assert!(!checker.is_startup_complete());
    assert!(!checker.is_ready());

    checker.mark_startup_complete();
    assert!(checker.is_startup_complete());

    checker.mark_ready();
    assert!(checker.is_ready());

    checker.mark_not_ready();
    assert!(!checker.is_ready());
}

#[test]
fn probe_reports() {
    let l = liveness_report("t".to_string());
    assert_eq!(l.status, HealthStatus::Healthy);
    let r = readiness_report(2, 1, true, true, 1, 5, "t".to_string());
    assert_eq!(r.status, HealthStatus::Degraded);
    assert_eq!(r.checks.len(), 3);
    assert_eq!(r.checks[0].message.as_deref(), Some("2 instances registered"));
    let r = readiness_report(0, 1, true, false, 1, 60, "t".to_string());
    assert_eq!(r.status, HealthStatus::Healthy);
    assert_eq!(r.checks.len(), 2);
    assert_eq!(r.checks[1].message.as_deref(), Some("no schedule cached"));
    let s = startup_report(3, "t".to_string());
    assert!(!s.ready);
    assert_eq!(s.status, HealthStatus::Unhealthy);
    assert_eq!(s.message.as_deref(), Some("starting up... (3s elapsed)"));
    let s = startup_report(5, "t".to_string());
    assert!(s.ready);
    assert_eq!(s.message, None);
}

// ---------------------------------------------------------------- registry

#[test]
fn test_instance_status() {
    assert!(InstanceStatus::Online.is_available());
    assert!(InstanceStatus::Degraded.is_available());
    assert!(!InstanceStatus::Offline.is_available());
    assert!(!InstanceStatus::Maintenance.is_available());
}

#[test]
fn test_instance_info_creation() {
    let info = InstanceInfo::new(CrawlerInstance::Main, "192.168.1.1".to_string(), 9000);
    assert_eq!(info.instance, CrawlerInstance::Main);
    assert_eq!(info.status, InstanceStatus::Online);
    assert_eq!(info.address(), "192.168.1.1:9000");
}

#[test]
fn test_instance_info_heartbeat() {
    let mut info = InstanceInfo::new(CrawlerInstance::Main, "127.0.0.1".to_string(), 8080);
    info.status = InstanceStatus::Degraded;
    info.update_heartbeat();
    assert_eq!(info.status, InstanceStatus::Online);
    assert!(info.seconds_since_heartbeat_at(info.last_heartbeat + 1) < 2);
}

#[test]
fn heartbeat_staleness_counts_whole_seconds() {
    let mut info = InstanceInfo::new_at(CrawlerInstance::Sub1, "h".to_string(), 1, 1000);
    assert_eq!(info.seconds_since_heartbeat_at(1090), 90);
    assert!(!info.is_heartbeat_stale_at(90, 1090));
    assert!(info.is_heartbeat_stale_at(90, 1091));
    info.update_heartbeat_at(1100);
    assert_eq!(info.last_heartbeat, 1100);
}

#[test]
fn test_registry_register() {
    let mut registry = InstanceRegistry::new(90, 10);
    let response = registry.register(create_register_request("main")).unwrap();
    assert!(response.success);
    assert_eq!(response.instance, CrawlerInstance::Main);
}

#[test]
fn test_registry_heartbeat() {
    let mut registry = InstanceRegistry::new(90, 10);
    registry.register(create_register_request("main")).unwrap();
    let hb_request = HeartbeatRequest {
        instance_id: "main".to_string(),
        articles_crawled: 50,
        error_count: 2,
        current_category: Some("politics".to_string()),
    };
    let response = registry.heartbeat(hb_request).unwrap();
    assert!(response.success);
    let info = registry.get_instance(CrawlerInstance::Main).unwrap();
    assert_eq!(info.articles_crawled, 50);
    assert_eq!(info.error_count, 2);
}

#[test]
fn test_registry_capacity() {
    let mut registry = InstanceRegistry::new(90, 2);
    registry.register(create_register_request("main")).unwrap();
    registry.register(create_register_request("sub1")).unwrap();
    let result = registry.register(create_register_request("sub2"));
    assert!(result.is_err());
    assert!(matches!(result, Err(RegistryError::CapacityExceeded { current: 2, max: 2 })));
}

#[test]
fn test_registry_unregister() {
    let mut registry = InstanceRegistry::new(90, 10);
    registry.register(create_register_request("main")).unwrap();
    let removed = registry.unregister(CrawlerInstance::Main);
    assert!(removed.is_some());
    assert!(registry.get_instance(CrawlerInstance::Main).is_none());
}

#[test]
fn test_registry_stats() {
    let mut registry = InstanceRegistry::new(90, 10);
    registry.register(create_register_request("main")).unwrap();
    registry.register(create_register_request("sub1")).unwrap();
    let stats = registry.stats();
    assert_eq!(stats.total_instances, 2);
    assert_eq!(stats.online, 2);
}

#[test]
fn test_registry_maintenance() {
    let mut registry = InstanceRegistry::new(90, 10);
    registry.register(create_register_request("main")).unwrap();
    registry.set_maintenance(CrawlerInstance::Main, true).unwrap();
    let info = registry.get_instance(CrawlerInstance::Main).unwrap();
    assert_eq!(info.status, InstanceStatus::Maintenance);
    assert!(!info.status.is_available());
}

#[test]
fn registry_rejects_bad_ids_and_reregistration_keeps_count() {
    let mut registry = InstanceRegistry::new(90, 1);
    assert!(matches!(
        registry.register(create_register_request("bogus")),
        Err(RegistryError::InvalidInstanceId(_))
    ));
    registry.register(create_register_request("main")).unwrap();
    // the same instance registering again replaces its entry
    assert!(registry.register(create_register_request("main")).is_ok());
    assert_eq!(registry.get_all_instances().len(), 1);
    let e = registry.register(create_register_request("sub1")).unwrap_err();
    assert_eq!(e.message(), "Registry at capacity: 1/1");
}

#[test]
fn statuses_age_with_missed_heartbeats() {
    let mut registry = InstanceRegistry::new(90, 10);
    registry.register_at(create_register_request("main"), 1000).unwrap();
    registry.update_statuses_at(1050);
    assert_eq!(registry.get_instance(CrawlerInstance::Main).unwrap().status, InstanceStatus::Degraded);
    registry.update_statuses_at(1200);
    assert_eq!(registry.get_instance(CrawlerInstance::Main).unwrap().status, InstanceStatus::Offline);
    assert!(registry.get_online_instances().is_empty());
    let stats = registry.stats();
    assert_eq!(stats.offline, 1);
}

#[test]
fn test_server_creation() {
    let config = CoordinatorConfig::default();
    let server = CoordinatorServer::new(config);
    assert!(server.is_ok());
}

#[test]
fn test_server_info() {
    let config = CoordinatorConfig::default();
    let server = CoordinatorServer::new(config).unwrap();
    let info = server.info();
    assert_eq!(info.max_instances, 10);
    assert!(info.cors_enabled);
}

#[test]
fn test_server_with_custom_config() {
    let config = CoordinatorConfig::builder()
        .heartbeat_timeout_secs(120)
        .max_instances(5)
        .enable_cors(false)
        .build()
        .unwrap();
    let server = CoordinatorServer::new(config).unwrap();
    let info = server.info();
    assert_eq!(info.heartbeat_timeout_secs, 120);
    assert_eq!(info.max_instances, 5);
    assert!(!info.cors_enabled);
}

#[test]
fn test_server_rejects_invalid_config() {
    let mut config = CoordinatorConfig::default();
    config.heartbeat_timeout_secs = 30;
    match CoordinatorServer::new(config) {
        Err(e) => assert_eq!(
            e.message(),
            "Configuration error: Invalid value for 'heartbeat_timeout_secs': Timeout must be greater than interval"
        ),
        Ok(_) => panic!("accepted a timeout equal to the interval"),
    }
}

#[test]
fn test_server_starts_with_empty_registry() {
    let server = CoordinatorServer::new(CoordinatorConfig::default()).unwrap();
    assert!(server.registry().get_all_instances().is_empty());
    assert_eq!(server.config().bind_address, "0.0.0.0:8080");
    let registry = server.into_registry();
    assert!(registry.get_all_instances().is_empty());
}

#[test]
fn test_server_info_display() {
    let info = ServerInfo::from_config(&CoordinatorConfig::default());
    let expected = format!(
        "Coordinator Server\n{}\nBind Address: 0.0.0.0:8080\nHeartbeat Timeout: 90s\nMax Instances: 10\nCORS: enabled\nRequest Logging: enabled",
        "-".repeat(40)
    );
    assert_eq!(info.display(), expected);
}

#[test]
fn test_heartbeat_age_now() {
    let info = InstanceInfo::new(CrawlerInstance::Main, "10.0.0.1".to_string(), 8080);
    let age = info.seconds_since_heartbeat();
    assert!((0..5).contains(&age));
    assert!(!info.is_heartbeat_stale(90));
    assert!(info.is_heartbeat_stale(-1));
}

#[test]
fn test_saturating_diff_bounds() {
    assert_eq!(saturating_diff(10, 3), 7);
    assert_eq!(saturating_diff(i64::MAX, -1), i64::MAX);
    assert_eq!(saturating_diff(i64::MIN, 1), i64::MIN);
}
