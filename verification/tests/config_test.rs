use metrics_bridge::config::{
    decode_config_base64, expand_env_vars, AuthConfig, AuthType, Config, ConfigError, IpAddress,
    IpNetwork, ServerConfig, SourceConfig, SourceType, TlsConfig, LabelFormat,
};
use metrics_bridge::metrics::labels::Labels;

fn env(pairs: &[(&str, &str)]) -> Vec<(String, String)> {
    pairs.iter().map(|(k, v)| (k.to_string(), v.to_string())).collect()
}

fn net(s: &str) -> IpNetwork {
    IpNetwork::parse(s).unwrap()
}

#[test]
fn test_expand_env_vars() {
    let e = env(&[("TEST_VAR", "test_value")]);
    let result = expand_env_vars("prefix_${TEST_VAR}_suffix", &e).unwrap();
    assert_eq!(result, "prefix_test_value_suffix");
}

#[test]
fn test_expand_env_vars_missing() {
    let result = expand_env_vars("${DEFINITELY_NOT_SET_VAR_12345}", &env(&[]));
    assert!(result.is_err());
}

#[test]
fn test_expand_env_vars_no_vars() {
    let result = expand_env_vars("no variables here", &env(&[])).unwrap();
    assert_eq!(result, "no variables here");
}

#[test]
fn test_expand_env_vars_multiple() {
    let e = env(&[("VAR_A", "first"), ("VAR_B", "second")]);
    let result = expand_env_vars("${VAR_A} and ${VAR_B}", &e).unwrap();
    assert_eq!(result, "first and second");
}

#[test]
fn test_expand_env_vars_empty_value() {
    let e = env(&[("EMPTY_VAR", "")]);
    let result = expand_env_vars("prefix${EMPTY_VAR}suffix", &e).unwrap();
    assert_eq!(result, "prefixsuffix");
}

#[test]
fn test_expand_env_vars_dollar_without_brace() {
    let result = expand_env_vars("$not_a_var", &env(&[])).unwrap();
    assert_eq!(result, "$not_a_var");
}

#[test]
fn test_expand_env_vars_lists_every_missing_name() {
    let e = env(&[("SET", "x")]);
    match expand_env_vars("${A}-${SET}-${B}", &e) {
        Err(ConfigError::EnvVarNotFound(names)) => assert_eq!(names, "A, B"),
        other => panic!("unexpected {:?}", other),
    }
}

#[test]
fn test_expand_env_vars_unclosed_reference_runs_to_end() {
    let e = env(&[("ABC", "value")]);
    assert_eq!(expand_env_vars("x${ABC", &e).unwrap(), "xvalue");
    assert_eq!(expand_env_vars("$", &e).unwrap(), "$");
    assert_eq!(expand_env_vars("$${ABC}$", &e).unwrap(), "$value$");
}

#[test]
fn test_parse_allowed_ips_single_ip() {
    let ips = vec!["192.168.1.1".to_string()];
    let networks = Config::parse_allowed_ips(&ips).unwrap();
    assert_eq!(networks.len(), 1);
    assert!(networks[0].contains(IpAddress::v4([192, 168, 1, 1])));
    assert!(!networks[0].contains(IpAddress::v4([192, 168, 1, 2])));
    assert_eq!(networks[0].prefix_len(), 32);
}

#[test]
fn test_parse_allowed_ips_cidr() {
    let ips = vec!["10.0.0.0/8".to_string()];
    let networks = Config::parse_allowed_ips(&ips).unwrap();
    assert_eq!(networks.len(), 1);
    assert!(networks[0].contains(IpAddress::v4([10, 255, 255, 255])));
    assert!(!networks[0].contains(IpAddress::v4([11, 0, 0, 0])));
}

#[test]
fn test_parse_allowed_ips_ipv6() {
    let ips = vec!["::1".to_string()];
    let networks = Config::parse_allowed_ips(&ips).unwrap();
    assert_eq!(networks.len(), 1);
    assert!(networks[0].contains(IpAddress::v6(1)));
}

#[test]
fn test_parse_allowed_ips_invalid() {
    let ips = vec!["not-an-ip".to_string()];
    let result = Config::parse_allowed_ips(&ips);
    assert!(result.is_err());
}

#[test]
fn test_parse_allowed_ips_invalid_cidr() {
    let ips = vec!["192.168.1.0/99".to_string()];
    let result = Config::parse_allowed_ips(&ips);
    assert!(result.is_err());
}

#[test]
fn test_parse_allowed_ips_error_messages() {
    let ips = vec!["10.0.0.0/8".to_string(), "10.0.0.0/40".to_string(), "bad".to_string()];
    match Config::parse_allowed_ips(&ips) {
        Err(ConfigError::InvalidValue(m)) => {
            assert_eq!(m, "Invalid IP network: invalid IP address syntax")
        }
        other => panic!("unexpected {:?}", other),
    }
    let ips = vec!["bad".to_string()];
    match Config::parse_allowed_ips(&ips) {
        Err(ConfigError::InvalidValue(m)) => {
            assert_eq!(m, "Invalid IP address: invalid IP address syntax")
        }
        other => panic!("unexpected {:?}", other),
    }
}

#[test]
fn test_network_parse_keeps_host_bits() {
    let n = net("172.16.123.123/16");
    assert!(!n.is_v6());
    assert_eq!(n.addr(), 0xac10_7b7b);
    assert_eq!(n.prefix_len(), 16);
    assert!(n.contains(IpAddress::v4([172, 16, 0, 0])));
    assert!(n.contains(IpAddress::v4([172, 16, 255, 255])));
    assert!(!n.contains(IpAddress::v4([172, 17, 0, 0])));
    assert!(!n.contains(IpAddress::v6(0xac10_0001)));
    let all = net("0.0.0.0/0");
    assert!(all.contains(IpAddress::v4([255, 255, 255, 255])));
}

fn auth(t: AuthType, u: Option<&str>, p: Option<&str>, tok: Option<&str>) -> AuthConfig {
    AuthConfig {
        auth_type: t,
        username: u.map(|s| s.to_string()),
        password: p.map(|s| s.to_string()),
        token: tok.map(|s| s.to_string()),
    }
}

#[test]
fn test_validate_auth_none() {
    let a = auth(AuthType::NoAuth, None, None, None);
    assert!(Config::validate_auth(&a).is_ok());
}

#[test]
fn test_validate_auth_basic_valid() {
    let a = auth(AuthType::Basic, Some("user"), Some("pass"), None);
    assert!(Config::validate_auth(&a).is_ok());
}

#[test]
fn test_validate_auth_basic_missing_username() {
    let a = auth(AuthType::Basic, None, Some("pass"), None);
    assert!(Config::validate_auth(&a).is_err());
}

#[test]
fn test_validate_auth_basic_missing_password() {
    let a = auth(AuthType::Basic, Some("user"), None, None);
    assert!(Config::validate_auth(&a).is_err());
}

#[test]
fn test_validate_auth_bearer_valid() {
    let a = auth(AuthType::Bearer, None, None, Some("secret-token"));
    assert!(Config::validate_auth(&a).is_ok());
}

#[test]
fn test_validate_auth_bearer_missing_token() {
    let a = auth(AuthType::Bearer, None, None, None);
    assert!(Config::validate_auth(&a).is_err());
}

fn config_with(networks: Vec<IpNetwork>) -> Config {
    Config { server: ServerConfig::default(), sources: vec![], allowed_networks: networks }
}

#[test]
fn test_is_ip_allowed_ipv6() {
    let config = config_with(vec![net("::1/128")]);
    assert!(config.is_ip_allowed(IpAddress::v6(1)));
    assert!(!config.is_ip_allowed(IpAddress::v6(2)));
}

#[test]
fn test_is_ip_allowed_multiple_networks() {
    let config = config_with(vec![net("10.0.0.0/8"), net("192.168.0.0/16")]);
    assert!(config.is_ip_allowed(IpAddress::v4([10, 1, 2, 3])));
    assert!(config.is_ip_allowed(IpAddress::v4([192, 168, 1, 1])));
    assert!(!config.is_ip_allowed(IpAddress::v4([172, 16, 0, 1])));
}

#[test]
fn test_server_config_default() {
    let config = ServerConfig::default();
    assert_eq!(config.port, 9090);
    assert_eq!(config.cache_ttl_seconds, 0);
    assert!(config.gzip_level.is_none());
    assert!(config.allowed_ips.is_empty());
}

#[test]
fn test_auth_config_default() {
    let auth = AuthConfig::default();
    assert_eq!(auth.auth_type, AuthType::NoAuth);
    assert!(auth.username.is_none());
    assert!(auth.password.is_none());
    assert!(auth.token.is_none());
}

#[test]
fn test_config_error_display() {
    let e = ConfigError::MissingValue("test".to_string());
    assert!(e.to_string().contains("test"));

    let e = ConfigError::FileError("file error".to_string());
    assert!(e.to_string().contains("file error"));

    let e = ConfigError::YamlError("yaml error".to_string());
    assert!(e.to_string().contains("yaml error"));

    let e = ConfigError::Base64Error("base64 error".to_string());
    assert!(e.to_string().contains("base64 error"));

    let e = ConfigError::InvalidValue("invalid".to_string());
    assert!(e.to_string().contains("invalid"));

    let e = ConfigError::EnvVarNotFound("VAR".to_string());
    assert!(e.to_string().contains("VAR"));
}

#[test]
fn test_config_error_messages_exact() {
    assert_eq!(ConfigError::MissingValue("sources".to_string()).to_string(), "Missing required config: sources");
    assert_eq!(ConfigError::EnvVarNotFound("A, B".to_string()).to_string(), "Environment variable not found: A, B");
}

#[test]
fn test_auth_type_display() {
    assert_eq!(AuthType::NoAuth.to_string(), "none");
    assert_eq!(AuthType::Basic.to_string(), "basic");
    assert_eq!(AuthType::Bearer.to_string(), "bearer");
}

#[test]
fn test_source_type_display() {
    assert_eq!(SourceType::PromphpRedis.to_string(), "promphp-redis");
}

#[test]
fn test_is_ip_allowed_empty() {
    let config = config_with(vec![]);
    assert!(config.is_ip_allowed(IpAddress::v4([192, 168, 1, 1])));
}

#[test]
fn test_is_ip_allowed_match() {
    let config = config_with(vec![net("10.0.0.0/8")]);
    assert!(config.is_ip_allowed(IpAddress::v4([10, 1, 2, 3])));
    assert!(!config.is_ip_allowed(IpAddress::v4([192, 168, 1, 1])));
}

#[test]
fn test_tls_config_is_enabled() {
    let disabled = TlsConfig::default();
    assert!(!disabled.is_enabled());

    let enabled = TlsConfig {
        cert: Some("/path/to/cert".to_string()),
        key: Some("/path/to/key".to_string()),
    };
    assert!(enabled.is_enabled());

    let partial = TlsConfig { cert: Some("/path/to/cert".to_string()), key: None };
    assert!(!partial.is_enabled());
}

fn source(name: &str) -> SourceConfig {
    SourceConfig {
        name: name.to_string(),
        source_type: SourceType::PromphpRedis,
        redis_url: "redis://localhost:6379".to_string(),
        prefix: metrics_bridge::config::default_prefix(),
        labels: Labels::new(),
        cache_ttl_seconds: 0,
        label_format: LabelFormat::default(),
    }
}

#[test]
fn test_from_parts_checks_auth_sources_and_ips() {
    let mut server = ServerConfig::default();
    server.allowed_ips = vec!["10.0.0.0/8".to_string(), "127.0.0.1".to_string()];
    let config = Config::from_parts(server.clone(), vec![source("web")]).unwrap();
    assert_eq!(config.allowed_networks.len(), 2);
    assert!(config.is_ip_allowed(IpAddress::v4([127, 0, 0, 1])));
    assert!(!config.is_ip_allowed(IpAddress::v4([127, 0, 0, 2])));

    match Config::from_parts(server.clone(), vec![]) {
        Err(ConfigError::MissingValue(m)) => assert_eq!(m, "sources"),
        other => panic!("unexpected {:?}", other.map(|_| ())),
    }

    let mut bad_auth = server.clone();
    bad_auth.auth.auth_type = AuthType::Bearer;
    match Config::from_parts(bad_auth, vec![source("web")]) {
        Err(ConfigError::InvalidValue(m)) => assert_eq!(m, "Bearer auth requires token"),
        other => panic!("unexpected {:?}", other.map(|_| ())),
    }
}

#[test]
fn test_decode_config_base64() {
    // "server: {}" in base64
    assert_eq!(decode_config_base64("c2VydmVyOiB7fQ==").unwrap(), "server: {}");
    assert!(matches!(decode_config_base64("!!!"), Err(ConfigError::Base64Error(_))));
    // 0xff is not UTF-8
    assert!(matches!(decode_config_base64("/w=="), Err(ConfigError::Base64Error(_))));
}

#[test]
fn test_default_port_and_prefix() {
    assert_eq!(metrics_bridge::config::default_port(), 9090);
    assert_eq!(metrics_bridge::config::default_prefix(), "PROMETHEUS_");
}

#[test]
fn test_ip_address_parse() {
    assert_eq!(IpAddress::parse("10.1.2.3").unwrap(), IpAddress::v4([10, 1, 2, 3]));
    assert_eq!(IpAddress::parse("::1").unwrap(), IpAddress::v6(1));
    assert_eq!(IpAddress::parse("not-an-ip").unwrap_err(), "invalid IP address syntax");
    let networks = Config::parse_allowed_ips(&["2001:db8::1".to_string()]).unwrap();
    assert!(networks[0].is_v6());
    assert_eq!(networks[0].prefix_len(), 128);
    assert!(networks[0].contains(IpAddress::v6(0x2001_0db8_0000_0000_0000_0000_0000_0001)));
    assert!(!networks[0].contains(IpAddress::v6(0x2001_0db8_0000_0000_0000_0000_0000_0002)));
}
