use base64::{engine::general_purpose::STANDARD, Engine};
use metrics_bridge::config::{AuthConfig, AuthType, Config, IpAddress, IpNetwork, ServerConfig};
use metrics_bridge::server::{
    authorize, check_basic_auth, check_bearer_auth, ready_report, serve_cached, AuthDecision,
    CachedMetrics,
};

fn config(auth: AuthConfig) -> Config {
    let mut server = ServerConfig::default();
    server.port = 9090;
    server.auth = auth;
    Config { server, sources: vec![], allowed_networks: vec![] }
}

fn basic() -> Config {
    config(AuthConfig {
        auth_type: AuthType::Basic,
        username: Some("admin".to_string()),
        password: Some("secret".to_string()),
        token: None,
    })
}

fn bearer() -> Config {
    config(AuthConfig {
        auth_type: AuthType::Bearer,
        username: None,
        password: None,
        token: Some("my-secret-token".to_string()),
    })
}

#[test]
fn test_check_basic_auth_valid() {
    let credentials = STANDARD.encode("admin:secret");
    let header = format!("Basic {}", credentials);
    assert!(check_basic_auth(Some(&header), &basic()));
}

#[test]
fn test_check_basic_auth_invalid() {
    let credentials = STANDARD.encode("admin:wrong");
    let header = format!("Basic {}", credentials);
    assert!(!check_basic_auth(Some(&header), &basic()));
}

#[test]
fn test_check_basic_auth_no_header() {
    let config = config(AuthConfig::default());
    assert!(!check_basic_auth(None, &config));
}

#[test]
fn test_check_basic_auth_edge_cases() {
    let c = basic();
    assert!(!check_basic_auth(Some("Bearer YWRtaW46c2VjcmV0"), &c));
    assert!(!check_basic_auth(Some("Basic !!!"), &c));
    assert!(!check_basic_auth(Some(&format!("Basic {}", STANDARD.encode("adminsecret"))), &c));
    // the password may hold colons
    let mut c2 = basic();
    c2.server.auth.password = Some("se:cret".to_string());
    assert!(check_basic_auth(Some(&format!("Basic {}", STANDARD.encode("admin:se:cret"))), &c2));
    // missing credentials count as empty
    let empty = config(AuthConfig { auth_type: AuthType::Basic, ..AuthConfig::default() });
    assert!(check_basic_auth(Some(&format!("Basic {}", STANDARD.encode(":"))), &empty));
}

#[test]
fn test_check_bearer_auth_valid() {
    assert!(check_bearer_auth(Some("Bearer my-secret-token"), &bearer()));
}

#[test]
fn test_check_bearer_auth_invalid() {
    assert!(!check_bearer_auth(Some("Bearer wrong-token"), &bearer()));
}

#[test]
fn test_check_bearer_auth_no_header() {
    let config = config(AuthConfig::default());
    assert!(!check_bearer_auth(None, &config));
}

#[test]
fn test_check_bearer_auth_prefix_is_case_sensitive() {
    assert!(!check_bearer_auth(Some("bearer my-secret-token"), &bearer()));
    assert!(!check_bearer_auth(Some("Bearer my-secret-token "), &bearer()));
}

#[test]
fn test_cached_metrics() {
    let cached = CachedMetrics { data: "test data".to_string(), timestamp: std::time::Instant::now() };

    assert_eq!(cached.data, "test data");
}

#[test]
fn test_authorize_order() {
    let mut c = bearer();
    c.allowed_networks = vec![IpNetwork::parse("10.0.0.0/8").unwrap()];
    assert_eq!(authorize(&c, IpAddress::v4([192, 168, 0, 1]), Some("Bearer my-secret-token")), AuthDecision::Forbidden);
    assert_eq!(authorize(&c, IpAddress::v4([10, 0, 0, 1]), Some("Bearer nope")), AuthDecision::Unauthorized);
    assert_eq!(authorize(&c, IpAddress::v4([10, 0, 0, 1]), Some("Bearer my-secret-token")), AuthDecision::Allow);
    let open = config(AuthConfig::default());
    assert_eq!(authorize(&open, IpAddress::v6(1), None), AuthDecision::Allow);
}

#[test]
fn test_serve_cached() {
    assert!(!serve_cached(0, Some(0)));
    assert!(serve_cached(5, Some(4)));
    assert!(!serve_cached(5, Some(5)));
    assert!(!serve_cached(5, None));
}

#[test]
fn test_ready_report() {
    let results = vec![("web".to_string(), true), ("worker".to_string(), false)];
    let report = ready_report(&results);
    assert!(!report.all_healthy);
    assert_eq!(report.body, "web: ok\nworker: error");
    let report = ready_report(&[]);
    assert!(report.all_healthy);
    assert_eq!(report.body, "");
}

#[test]
fn test_bearer_token_accepted_and_open_access() {
    assert!(check_bearer_auth(Some("Bearer my-secret-token"), &bearer()));
    let open = config(AuthConfig::default());
    for header in [None, Some("Bearer x"), Some("Basic !!")] {
        assert_eq!(authorize(&open, IpAddress::v4([203, 0, 113, 9]), header), AuthDecision::Allow);
        assert_eq!(authorize(&open, IpAddress::v6(1), header), AuthDecision::Allow);
    }
}

#[test]
fn test_store_page_only_when_caching() {
    let now = std::time::Instant::now();
    let mut slot = None;
    metrics_bridge::server::store_page(&mut slot, 0, "page".to_string(), now);
    assert!(slot.is_none());
    metrics_bridge::server::store_page(&mut slot, 5, "page".to_string(), now);
    assert_eq!(slot.as_ref().map(|c| c.data.as_str()), Some("page"));
    assert_eq!(slot.as_ref().map(|c| c.timestamp), Some(now));
}
