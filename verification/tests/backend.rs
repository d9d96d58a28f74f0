use consul_cluster::backend::{first_segment, LoadError, PluginClass, Surroundings};
use consul_cluster::bus::Parcel;
use consul_cluster::client::ConsulClient;
use consul_cluster::error::ClusterError;
use consul_cluster::http::{Body, Method, Sent};
use consul_cluster::lease::{AcquireAction, AcquireEvent};
use consul_cluster::time::Duration;
use consul_cluster::{ConfigError, ConsulBackend, ConsulConfig};

fn surroundings() -> Surroundings {
    Surroundings {
        hostname: Some("host-1".to_owned()),
        started_at: "2030-01-01T00:00:00Z".to_owned(),
        version: "0.1.0".to_owned(),
        module: "mcpg_plugin_cluster_consul::inner".to_owned(),
        transport: Ok(()),
    }
}

fn build_config() -> ConsulConfig {
    let mut cfg =
        ConsulConfig::minimal("http://consul.test:8500".to_owned(), "mcpg".to_owned());
    cfg.node_id = Some("node-test".to_owned());
    ConsulConfig::parse(Ok(cfg)).unwrap()
}

fn unreachable_plugin() -> ConsulBackend {
    let cfg = ConsulConfig::minimal("http://127.0.0.1:1".to_owned(), "mcpg".to_owned());
    let cfg = ConsulConfig::parse(Ok(cfg)).unwrap();
    ConsulBackend::from_validated_config(cfg, surroundings()).unwrap()
}

fn refused<T>() -> Sent<T> {
    Err("error sending request for url (http://127.0.0.1:1/)".to_owned())
}

fn load(cfg: ConsulConfig) -> ConsulBackend {
    ConsulBackend::from_validated_config(cfg, surroundings()).unwrap()
}

#[test]
fn config_validation_works() {
    let cfg = build_config();
    assert_eq!(cfg.service_name, "mcpg");
    assert_eq!(cfg.resolved_node_id(None), "node-test");
}

#[test]
fn node_info_reports_configured_identity() {
    let plugin = ConsulBackend::from_validated_config(build_config(), surroundings()).unwrap();
    let info = plugin.node_info();
    assert_eq!(info.node_id, "node-test");
    assert_eq!(info.address, "http://consul.test:8500");
}

#[test]
fn acquire_leadership_surfaces_unreachable_as_backend_unavailable() {
    let plugin = unreachable_plugin();
    let (bid, _) = plugin.acquire_leadership("test-role", Duration::from_secs(60)).unwrap();
    let (state, request) = bid.open(plugin.client());
    assert_eq!(request.url, "http://127.0.0.1:1/v1/session/create");
    let created = ConsulClient::session_create_reply(refused());
    let end = bid.advance(plugin.client(), state, AcquireEvent::SessionCreated(created));
    assert!(matches!(end, AcquireAction::Failed(ClusterError::BackendUnavailable { .. })));
}

#[test]
fn acquire_lock_surfaces_unreachable_as_backend_unavailable() {
    let plugin = unreachable_plugin();
    let (bid, _) = plugin.acquire_lock("test-key", Duration::from_secs(60)).unwrap();
    let (state, request) = bid.open(plugin.client());
    assert_eq!(request.url, "http://127.0.0.1:1/v1/session/create");
    let created = ConsulClient::session_create_reply(refused());
    let end = bid.advance(plugin.client(), state, AcquireEvent::SessionCreated(created));
    assert!(matches!(end, AcquireAction::Failed(ClusterError::BackendUnavailable { .. })));
}

#[test]
fn list_peers_handles_unreachable_consul_gracefully() {
    let plugin = unreachable_plugin();
    assert_eq!(plugin.list_peers().url, "http://127.0.0.1:1/v1/catalog/service/mcpg");
    let peers = ConsulBackend::list_peers_reply(refused(), "2030-01-01T00:00:00Z");
    assert!(peers.is_empty());
}

#[test]
fn the_manifest_names_the_roles() {
    let plugin = load(build_config());
    let manifest = plugin.manifest();
    assert_eq!(manifest.id, "dev.mcpg.cluster.consul");
    assert_eq!(manifest.version, "0.1.0");
    assert_eq!(manifest.name, "Consul Cluster Coordinator");
    assert_eq!(manifest.plugin_class, PluginClass::Cluster);
    assert_eq!(manifest.protocol_version, "1.0");
    assert_eq!(manifest.provides, ["bus", "kv"]);
    assert_eq!(manifest.module_path_prefix, "mcpg_plugin_cluster_consul");
    assert!(manifest.license.is_none() && manifest.backend_profile.is_none());
    assert!(manifest.required_capabilities.is_empty() && manifest.tags.is_empty());
    assert!(manifest.provides_schemes.is_empty());
}

#[test]
fn module_paths_are_cut_at_the_first_separator() {
    for path in ["", "a", "a::b", "a::b::c", "a:b", "::a", "a::", "a:::b", ":", "::"] {
        assert_eq!(first_segment(path), path.split("::").next().unwrap(), "{path:?}");
    }
}

#[test]
fn node_info_reports_where_it_runs() {
    let mut cfg = build_config();
    cfg.node_id = None;
    let info = load(cfg).node_info();
    assert_eq!(info.node_id, "mcpg-host-1");
    assert_eq!(info.version, "0.1.0");
    assert_eq!(info.started_at, "2030-01-01T00:00:00Z");
    assert!(info.roles.is_empty());
}

#[test]
fn a_probe_loads_with_a_placeholder() {
    let unread = Err("missing field `address`".to_owned());
    let plugin = ConsulBackend::from_config_json(true, unread, surroundings()).unwrap();
    let info = plugin.node_info();
    assert_eq!(info.address, "http://127.0.0.1:8500");
    assert_eq!(info.node_id, "manifest-probe-host-1");
    assert_eq!(plugin.manifest().provides, ["bus", "kv"]);
}

#[test]
fn a_bad_configuration_is_not_loaded() {
    let unread = Err("missing field `address`".to_owned());
    let r = ConsulBackend::from_config_json(false, unread, surroundings());
    assert!(matches!(r, Err(LoadError::Config(ConfigError::InvalidJson(_)))));
    let mut cfg = build_config();
    cfg.address = "consul".to_owned();
    let r = ConsulBackend::from_config_json(false, Ok(cfg), surroundings());
    assert!(matches!(r, Err(LoadError::Config(ConfigError::InvalidAddressScheme))));
    let mut place = surroundings();
    place.transport = Err("no TLS".to_owned());
    let r = ConsulBackend::from_config_json(false, Ok(build_config()), place);
    assert!(matches!(
        r,
        Err(LoadError::Client(ClusterError::Internal { reason }))
            if reason == "reqwest client init: no TLS"
    ));
    let r = ConsulBackend::from_config_json(false, Ok(build_config()), surroundings());
    assert_eq!(r.ok().unwrap().node_info().node_id, "node-test");
}

#[test]
fn the_keyspaces_have_keys_and_urls_of_their_own() {
    let plugin = load(build_config());
    for name in ["", "x", "/x", "kv/x", "locks/x", "../kv/x"] {
        let leadership = plugin.leadership_key(name);
        let lock = plugin.lock_key(name);
        let value = plugin.key_value_store().full_key(name);
        assert_eq!(leadership, format!("mcpg/leadership/{name}"));
        assert_eq!(lock, format!("mcpg/locks/{name}"));
        assert_eq!(value, format!("mcpg/kv/{name}"));
        // As they are built: an HTTP client may resolve the dots of a name.
        let url = |key: &str| plugin.client().kv_read(key).url;
        assert_ne!(url(&leadership), url(&lock));
        assert_ne!(url(&leadership), url(&value));
        assert_ne!(url(&lock), url(&value));
    }
}

#[test]
fn leases_are_asked_for_by_role_and_by_key() {
    let plugin = load(build_config());
    let ttl = Duration::from_secs(20);
    let session_name = |bid: &consul_cluster::lease::LeaseBid| match bid.open(plugin.client()).1.body {
        Body::Session(body) => body.name,
        _ => panic!("a session is described"),
    };
    let bid = plugin.try_acquire_leadership("role", ttl).unwrap();
    assert_eq!(bid.key(), "mcpg/leadership/role");
    assert_eq!(session_name(&bid), "mcpg-leadership-role");
    assert_eq!(bid.ttl(), ttl);
    assert_eq!(plugin.renewal_pause(&bid), Duration::from_secs(14));
    let bid = plugin.try_acquire_lock("key", ttl).unwrap();
    assert_eq!(bid.key(), "mcpg/locks/key");
    assert_eq!(session_name(&bid), "mcpg-lock-key");
    let (bid, mut pause) = plugin.acquire_lock("", Duration::from_secs(1)).unwrap();
    assert_eq!(bid.ttl(), Duration::from_secs(10));
    assert_eq!(pause.take_by(40), Duration::from_millis(200));
    let (bid, mut pause) = plugin.acquire_leadership("r", ttl).unwrap();
    assert_eq!(bid.key(), "mcpg/leadership/r");
    assert_eq!(pause.take_by(40), Duration::from_millis(200));
}

#[test]
fn the_coordinator_publishes_and_subscribes() {
    let plugin = load(build_config());
    let seal = |parcel: &Parcel| -> Result<Vec<u8>, String> {
        let mut wire = parcel.publisher.clone().unwrap().into_bytes();
        wire.extend_from_slice(parcel.routing_key.as_deref().unwrap_or("-").as_bytes());
        wire.extend_from_slice(&parcel.payload);
        Ok(wire)
    };
    let request = plugin.publish("t", Some("k".to_owned()), vec![1], seal).unwrap();
    assert!(matches!(&request.body, Body::Bytes(b) if b == b"node-testk\x01"));
    assert_eq!(request.method, Method::Put);
    assert_eq!(request.url, "http://consul.test:8500/v1/event/fire/t");
    let refuse = |_: &Parcel| -> Result<Vec<u8>, String> { Err("too long".to_owned()) };
    assert!(matches!(
        plugin.publish("t", None, vec![], refuse),
        Err(ClusterError::Internal { reason }) if reason == "publish envelope: too long"
    ));
    let sub = plugin.subscribe("t".to_owned(), Some("group".to_owned()), None);
    assert_eq!(
        sub.poll(plugin.client()).url,
        "http://consul.test:8500/v1/event/list?name=t&index=0&wait=30s"
    );
    // What this node publishes is not delivered to it, but to others.
    let parcel = plugin.parcel(Some("k".to_owned()), vec![1]);
    assert_eq!(parcel.publisher.as_deref(), Some("node-test"));
    assert_eq!(parcel.routing_key.as_deref(), Some("k"));
    assert_eq!(parcel.payload, [1]);
    assert!(sub.deliver(Some(parcel.clone())).is_none());
    let mut cfg = build_config();
    cfg.node_id = Some("node-other".to_owned());
    let other = load(cfg).subscribe("t".to_owned(), None, None);
    let message = other.deliver(Some(parcel)).unwrap();
    assert_eq!(message.topic, "t");
    assert_eq!(message.routing_key.as_deref(), Some("k"));
    assert_eq!(message.payload, [1]);
    assert_eq!(message.from_node, "node-other");
}

#[test]
fn the_coordinator_watches_its_service() {
    let plugin = load(build_config());
    assert_eq!(
        plugin.watch_peers().poll(plugin.client()).url,
        "http://consul.test:8500/v1/catalog/service/mcpg?index=0&wait=30s"
    );
}
