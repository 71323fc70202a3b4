use agent_graph_mcp::provider_health::{parse_host_port, ProviderHealth};

#[test]
fn parse_host_port_variants() {
    assert_eq!(
        parse_host_port("http://127.0.0.1:1780/v1").unwrap(),
        ("127.0.0.1".into(), 1780)
    );
    assert_eq!(
        parse_host_port("http://localhost:11434").unwrap(),
        ("localhost".into(), 11434)
    );
    assert_eq!(
        parse_host_port("http://example.com").unwrap(),
        ("example.com".into(), 80)
    );
}

fn field_bool(h: &ProviderHealth, key: &str) -> bool {
    h.as_json().get(key).unwrap().as_bool().unwrap()
}

#[test]
fn health_transitions() {
    let mut h = ProviderHealth::new();
    assert!(field_bool(&h, "healthy"));
    h.record_failure("tcp connect failed");
    h.record_failure("tcp connect failed");
    h.record_failure("tcp connect failed");
    let j = h.as_json();
    assert!(!j.get("healthy").unwrap().as_bool().unwrap());
    assert_eq!(j.get("consecutive_failures").unwrap().as_u64().unwrap(), 3);
    assert_eq!(
        j.get("last_error").unwrap().as_str().map(|s| s.as_str()),
        Some("tcp connect failed")
    );
    h.record_success();
    let j2 = h.as_json();
    assert!(j2.get("healthy").unwrap().as_bool().unwrap());
    assert_eq!(j2.get("consecutive_failures").unwrap().as_u64().unwrap(), 0);
    assert!(j2.get("last_error").unwrap().is_null());
}

#[test]
fn parse_host_port_rejects_bad_ports_and_strips_schemes() {
    assert_eq!(
        parse_host_port("https://api.example.com:8443/v1/models").unwrap(),
        ("api.example.com".into(), 8443)
    );
    assert_eq!(
        parse_host_port("http://host:99999").unwrap_err(),
        "invalid port in host:99999"
    );
    assert_eq!(
        parse_host_port("http://host:").unwrap_err(),
        "invalid port in host:"
    );
    assert_eq!(parse_host_port("localhost:9").unwrap(), ("localhost".into(), 9));
}

#[test]
fn health_json_surface_is_exact() {
    let mut h = ProviderHealth::new();
    h.record_failure_at("refused", 1234);
    assert_eq!(
        h.as_json().to_json_string(),
        r#"{"consecutive_failures":1,"failover":"not_configured_v1","healthy":false,"last_check_ms":1234,"last_error":"refused","probe":"tcp_connect_plus_http_get"}"#
    );
    h.record_success_at(99);
    assert_eq!(
        h.as_json().to_json_string(),
        r#"{"consecutive_failures":0,"failover":"not_configured_v1","healthy":true,"last_check_ms":99,"last_error":null,"probe":"tcp_connect_plus_http_get"}"#
    );
}
