use consul_cluster::backend::refusal_message;
use consul_cluster::config::{default_kv_prefix, default_renew_pct, default_subscribe_wait_sec};
use consul_cluster::{ConfigError, ConsulConfig};

fn config(address: &str, service_name: &str) -> ConsulConfig {
    ConsulConfig::minimal(address.to_owned(), service_name.to_owned())
}

#[test]
fn parses_minimal_config() {
    let parsed = ConsulConfig::parse(Ok(config("http://consul.svc:8500", "mcpg"))).unwrap();
    assert_eq!(parsed.address, "http://consul.svc:8500");
    assert_eq!(parsed.service_name, "mcpg");
    assert_eq!(parsed.subscribe_wait_sec, 30);
}

#[test]
fn rejects_invalid_scheme() {
    let err = ConsulConfig::parse(Ok(config("consul.svc:8500", "mcpg"))).unwrap_err();
    assert!(matches!(err, ConfigError::InvalidAddressScheme));
}

#[test]
fn rejects_empty_service_name() {
    let err = ConsulConfig::parse(Ok(config("http://x:8500", ""))).unwrap_err();
    assert!(matches!(err, ConfigError::EmptyServiceName));
}

#[test]
fn rejects_oversize_wait() {
    let mut cfg = config("http://x:8500", "mcpg");
    cfg.subscribe_wait_sec = 700;
    let err = ConsulConfig::parse(Ok(cfg)).unwrap_err();
    assert!(matches!(err, ConfigError::InvalidSubscribeWait));
}

#[test]
fn resolved_node_id_uses_explicit_when_set() {
    let mut cfg = config("http://x:8500", "mcpg");
    cfg.node_id = Some("node-a".to_owned());
    let cfg = ConsulConfig::parse(Ok(cfg)).unwrap();
    assert_eq!(cfg.resolved_node_id(None), "node-a");
    assert_eq!(cfg.resolved_node_id(Some("host-1".to_owned())), "node-a");
}

#[test]
fn resolved_node_id_falls_back_to_service_name_hostname() {
    let cfg = ConsulConfig::parse(Ok(config("http://x:8500", "mcpg"))).unwrap();
    assert!(cfg.resolved_node_id(None).starts_with("mcpg-"));
    assert_eq!(cfg.resolved_node_id(None), "mcpg-unknown-host");
    assert_eq!(cfg.resolved_node_id(Some("host-1".to_owned())), "mcpg-host-1");
}

#[test]
fn a_configuration_that_could_not_be_read_is_refused() {
    let err = ConsulConfig::parse(Err("missing field `address`".to_owned())).unwrap_err();
    assert_eq!(err.message(), "invalid cluster.consul config JSON: missing field `address`");
    assert_eq!(
        refusal_message(&err),
        "consul cluster config parse failed: invalid cluster.consul config JSON: missing field \
         `address`. A misconfigured cluster_backend is a security hole; refusing to load."
    );
}

#[test]
fn the_first_objection_is_reported() {
    let objection = |cfg: ConsulConfig| cfg.validate().unwrap_err();
    assert!(matches!(objection(config("", "")), ConfigError::EmptyAddress));
    assert!(matches!(objection(config(" \t\u{3000}\u{85}", "x")), ConfigError::EmptyAddress));
    assert!(matches!(objection(config("ftp://x", "")), ConfigError::InvalidAddressScheme));
    assert!(matches!(objection(config(" http://x", "y")), ConfigError::InvalidAddressScheme));
    assert!(matches!(objection(config("https://x", "\u{2003}")), ConfigError::EmptyServiceName));
    let mut cfg = config("https://x", "y");
    cfg.subscribe_wait_sec = 0;
    assert!(matches!(objection(cfg.clone()), ConfigError::InvalidSubscribeWait));
    cfg.subscribe_wait_sec = 601;
    assert!(matches!(objection(cfg.clone()), ConfigError::InvalidSubscribeWait));
    cfg.subscribe_wait_sec = 600;
    assert!(cfg.validate().is_ok());
    cfg.subscribe_wait_sec = 1;
    assert!(cfg.validate().is_ok());
}

#[test]
fn errors_are_shown() {
    assert_eq!(ConfigError::EmptyAddress.message(), "cluster.consul: address is empty");
    assert_eq!(
        ConfigError::InvalidAddressScheme.message(),
        "cluster.consul: address must start with http:// or https://"
    );
    assert_eq!(ConfigError::EmptyServiceName.message(), "cluster.consul: service_name is empty");
    assert_eq!(
        ConfigError::InvalidSubscribeWait.message(),
        "cluster.consul: subscribe_wait_sec must be in 1..=600 (Consul max 10 minutes)"
    );
}

#[test]
fn defaults_are_as_documented() {
    assert_eq!(default_subscribe_wait_sec(), 30);
    assert_eq!(default_kv_prefix(), "mcpg/");
    assert_eq!(default_renew_pct(), 30);
    let cfg = config("http://x", "y");
    assert_eq!(cfg.kv_prefix, "mcpg/");
    assert_eq!(cfg.lease_renew_before_expiry_percent, 30);
    assert!(cfg.token.is_none() && cfg.datacenter.is_none() && cfg.node_id.is_none());
}
