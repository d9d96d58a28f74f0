//! The coordinator as a whole: its configuration, its identity, and the operations that it offers.

use vstd::prelude::*;
use vstd::string::*;

use crate::bus::{
    polls_add_up, publish, FreshModel, MessageModel, Parcel, ParcelModel, Subscription,
    SubscriptionModel,
};
use crate::client::{copy_text, CatalogServiceEntry, ClientModel, ConsulClient, UserEvent};
use crate::config::{ConfigError, ConsulConfig, MAX_WAIT_SECS};
use crate::error::{ClusterError, Fault};
use crate::http::{text_of, HttpRequest, Sent};
use crate::kv::{ConsulKv, KvModel};
use crate::lease::{
    a_session_lives_for_whole_seconds, renewal_pause, renewal_sleep, session_secs, BidModel, LeaseBid,
    RetryPause, FIRST_RETRY_MS,
};
use crate::peers::{peer_models, peers_from_listing, peers_shown, ClusterPeer, PeerWatch};
use crate::text::{is_space, texts, to_chars, without_leading_slashes, without_trailing_slashes};
use crate::time::{Duration, NANOS_PER_MILLI, NANOS_PER_SEC};

verus! {

/// The id of the plugin.
pub const PLUGIN_ID: &'static str = "dev.mcpg.cluster.consul";

/// The class of a plugin.
#[derive(Clone, Copy, Debug, PartialEq, Eq, Structural)]
pub enum PluginClass {
    Cluster,
}

/// What the plugin says of itself.
#[derive(Debug)]
pub struct PluginManifest {
    pub id: String,
    pub version: String,
    pub name: String,
    pub plugin_class: PluginClass,
    pub protocol_version: String,
    pub license: Option<String>,
    pub required_capabilities: Vec<String>,
    pub tags: Vec<String>,
    /// The roles that the coordinator fills: events for `bus`, the key/value store for `kv`. It has
    /// no cache of its own.
    pub provides: Vec<String>,
    pub provides_schemes: Vec<String>,
    pub module_path_prefix: String,
    pub backend_profile: Option<String>,
}

/// A [`PluginManifest`] in the model.
pub struct ManifestModel {
    pub id: Seq<char>,
    pub version: Seq<char>,
    pub name: Seq<char>,
    pub plugin_class: PluginClass,
    pub protocol_version: Seq<char>,
    pub license: Option<Seq<char>>,
    pub required_capabilities: Seq<Seq<char>>,
    pub tags: Seq<Seq<char>>,
    pub provides: Seq<Seq<char>>,
    pub provides_schemes: Seq<Seq<char>>,
    pub module_path_prefix: Seq<char>,
    pub backend_profile: Option<Seq<char>>,
}

impl View for PluginManifest {
    type V = ManifestModel;

    open spec fn view(&self) -> ManifestModel {
        ManifestModel {
            id: self.id@,
            version: self.version@,
            name: self.name@,
            plugin_class: self.plugin_class,
            protocol_version: self.protocol_version@,
            license: text_of(self.license),
            required_capabilities: texts(self.required_capabilities@),
            tags: texts(self.tags@),
            provides: texts(self.provides@),
            provides_schemes: texts(self.provides_schemes@),
            module_path_prefix: self.module_path_prefix@,
            backend_profile: text_of(self.backend_profile),
        }
    }
}

/// Whether the separator of a module path begins at `i`.
pub open spec fn separator_at(path: Seq<char>, i: int) -> bool {
    0 <= i && i + 1 < path.len() && path[i] == ':' && path[i + 1] == ':'
}

/// Whether `segment` is the first segment of a module path: all that stands before the first
/// separator.
pub open spec fn is_first_segment(path: Seq<char>, segment: Seq<char>) -> bool {
    &&& segment.is_prefix_of(path)
    &&& segment.len() == path.len() || separator_at(path, segment.len() as int)
    &&& forall|i: int| 0 <= i < segment.len() ==> !#[trigger] separator_at(path, i)
}

/// The first segment of a module path.
pub fn first_segment(path: &str) -> (r: String)
    ensures
        is_first_segment(path@, r@),
{
    let chars = to_chars(path);
    let n: usize = chars.len();
    let mut i: usize = 0;
    while i < n && !(i + 1 < n && chars[i] == ':' && chars[i + 1] == ':')
        invariant
            chars@ == path@,
            n == chars.len(),
            i <= n,
            forall|j: int| 0 <= j < i ==> !#[trigger] separator_at(path@, j),
        decreases n - i,
    {
        i += 1;
    }
    let segment = path.substring_char(0, i);
    assert(segment@ =~= path@.subrange(0, i as int));
    segment.to_owned()
}

/// The manifest of the plugin in the model.
pub open spec fn manifest_model(version: Seq<char>, module_path_prefix: Seq<char>) -> ManifestModel {
    ManifestModel {
        id: PLUGIN_ID@,
        version,
        name: "Consul Cluster Coordinator"@,
        plugin_class: PluginClass::Cluster,
        protocol_version: "1.0"@,
        license: None,
        required_capabilities: Seq::empty(),
        tags: Seq::empty(),
        provides: seq!["bus"@, "kv"@],
        provides_schemes: Seq::empty(),
        module_path_prefix,
        backend_profile: None,
    }
}

fn no_texts() -> (r: Vec<String>)
    ensures
        texts(r@) == Seq::<Seq<char>>::empty(),
{
    let none: Vec<String> = Vec::new();
    assert(texts(none@) =~= Seq::<Seq<char>>::empty());
    none
}

/// The manifest of the plugin.
pub fn plugin_manifest(version: String, module: &str) -> (r: PluginManifest)
    ensures
        r@ == manifest_model(version@, r@.module_path_prefix),
        is_first_segment(module@, r@.module_path_prefix),
{
    let mut provides: Vec<String> = Vec::new();
    provides.push("bus".to_owned());
    provides.push("kv".to_owned());
    assert(texts(provides@) =~= seq!["bus"@, "kv"@]);
    PluginManifest {
        id: PLUGIN_ID.to_owned(),
        version,
        name: "Consul Cluster Coordinator".to_owned(),
        plugin_class: PluginClass::Cluster,
        protocol_version: "1.0".to_owned(),
        license: None,
        required_capabilities: no_texts(),
        tags: no_texts(),
        provides,
        provides_schemes: no_texts(),
        module_path_prefix: first_segment(module),
        backend_profile: None,
    }
}

/// What this node says of itself.
#[derive(Debug)]
pub struct ClusterNodeInfo {
    pub node_id: String,
    pub address: String,
    pub version: String,
    pub started_at: String,
    pub roles: Vec<String>,
}

/// What the coordinator learns from where it runs.
pub struct Surroundings {
    /// The name of the host, where it is known.
    pub hostname: Option<String>,
    /// The present instant.
    pub started_at: String,
    /// The version of the plugin.
    pub version: String,
    /// The path of the module that the plugin is loaded from.
    pub module: String,
    /// Whether the HTTP transport could be set up and, if not, why.
    pub transport: Result<(), String>,
}

/// Why the coordinator is not loaded.
#[derive(Debug)]
pub enum LoadError {
    /// The configuration is refused.
    Config(ConfigError),
    /// There is no HTTP transport.
    Client(ClusterError),
}

/// How the refusal of a configuration is shown.
pub open spec fn refusal_text(e: ConfigError) -> Seq<char> {
    "consul cluster config parse failed: "@ + e.text()
        + ". A misconfigured cluster_backend is a security hole; refusing to load."@
}

/// How the refusal of a configuration is shown.
pub fn refusal_message(e: &ConfigError) -> (r: String)
    ensures
        r@ == refusal_text(*e),
{
    let mut text = "consul cluster config parse failed: ".to_owned();
    text.append(e.message().as_str());
    text.append(". A misconfigured cluster_backend is a security hole; refusing to load.");
    text
}

/// The coordinator.
pub struct ConsulBackend {
    manifest: PluginManifest,
    config: ConsulConfig,
    node_id: String,
    started_at: String,
    client: ConsulClient,
    kv: ConsulKv,
}

/// A [`ConsulBackend`] in the model.
pub struct BackendModel {
    pub manifest: ManifestModel,
    pub config: ConsulConfig,
    pub node_id: Seq<char>,
    pub started_at: Seq<char>,
    pub client: ClientModel,
    pub kv: KvModel,
}

impl View for ConsulBackend {
    type V = BackendModel;

    closed spec fn view(&self) -> BackendModel {
        BackendModel {
            manifest: self.manifest@,
            config: self.config,
            node_id: self.node_id@,
            started_at: self.started_at@,
            client: self.client@,
            kv: self.kv@,
        }
    }
}

/// The key of the leadership of a role.
pub open spec fn leadership_key(kv_prefix: Seq<char>, role: Seq<char>) -> Seq<char> {
    kv_prefix + "leadership/"@ + role
}

/// The key of a named lock.
pub open spec fn lock_key(kv_prefix: Seq<char>, key: Seq<char>) -> Seq<char> {
    kv_prefix + "locks/"@ + key
}

/// The key of a value.
pub open spec fn value_key(kv_prefix: Seq<char>, key: Seq<char>) -> Seq<char> {
    kv_prefix + "kv/"@ + key
}

impl BackendModel {
    /// What a coordinator with that configuration is in those surroundings.
    pub open spec fn is_made_of(self, config: ConsulConfig, place: Surroundings) -> bool {
        &&& self.config == config
        &&& self.node_id == config.node_identity(text_of(place.hostname))
        &&& self.started_at == place.started_at@
        &&& self.client == ClientModel {
            address: without_trailing_slashes(config.address@),
            token: text_of(config.token),
            datacenter: text_of(config.datacenter),
        }
        &&& self.kv == KvModel { client: self.client, key_prefix: config.kv_prefix@ + "kv/"@ }
        &&& self.manifest == manifest_model(place.version@, self.manifest.module_path_prefix)
        &&& is_first_segment(place.module@, self.manifest.module_path_prefix)
    }

    /// What the leadership of a role is asked for with.
    pub open spec fn leadership_bid(self, role: Seq<char>, ttl: nat) -> BidModel {
        BidModel {
            name: "mcpg-leadership-"@ + role,
            key: leadership_key(self.config.kv_prefix@, role),
            node_id: self.node_id,
            ttl_secs: session_secs(ttl) as u64,
        }
    }

    /// What goes into the envelope of a payload that this node publishes.
    pub open spec fn parcel(self, routing_key: Option<Seq<char>>, payload: Seq<u8>) -> ParcelModel {
        ParcelModel { publisher: Some(self.node_id), routing_key, payload }
    }

    /// A subscription of this node that has not polled yet.
    pub open spec fn subscription(self, topic: Seq<char>, routing_key: Option<Seq<char>>) -> SubscriptionModel {
        SubscriptionModel {
            topic,
            routing_key,
            node_id: self.node_id,
            wait_seconds: self.config.subscribe_wait_sec,
            index: 0,
            seen: Seq::empty(),
        }
    }

    /// What a named lock is asked for with.
    pub open spec fn lock_bid(self, key: Seq<char>, ttl: nat) -> BidModel {
        BidModel {
            name: "mcpg-lock-"@ + key,
            key: lock_key(self.config.kv_prefix@, key),
            node_id: self.node_id,
            ttl_secs: session_secs(ttl) as u64,
        }
    }
}

/// The configuration that stands in where the plugin is loaded for nothing but its manifest.
pub open spec fn is_placeholder(cfg: ConsulConfig) -> bool {
    &&& cfg.address@ == "http://127.0.0.1:8500"@
    &&& cfg.service_name@ == "manifest-probe"@
    &&& cfg.token is None
    &&& cfg.datacenter is None
    &&& cfg.node_id is None
    &&& cfg.subscribe_wait_sec == 30
    &&& cfg.kv_prefix@ == "mcpg/"@
    &&& cfg.lease_renew_before_expiry_percent == 30
}

fn placeholder() -> (r: ConsulConfig)
    ensures
        is_placeholder(r),
        r.is_valid(),
{
    let cfg = ConsulConfig::minimal(
        "http://127.0.0.1:8500".to_owned(),
        "manifest-probe".to_owned(),
    );
    proof {
        reveal_strlit("http://127.0.0.1:8500");
        reveal_strlit("http://");
        reveal_strlit("manifest-probe");
        assert("http://"@ =~= cfg.address@.subrange(0, 7));
        assert(!is_space(cfg.address@[0]));
        assert(!is_space(cfg.service_name@[0]));
    }
    cfg
}

impl ConsulBackend {
    #[verifier::type_invariant]
    spec fn runnable(self) -> bool {
        self.config.is_valid()
    }

    /// Loads the coordinator with a configuration that was read from JSON, or with the reason why it
    /// could not be read. Where the host loads the plugin for nothing but its manifest it has no
    /// configuration, and a placeholder stands in.
    pub fn from_config_json(
        is_manifest_probe: bool,
        decoded: Result<ConsulConfig, String>,
        place: Surroundings,
    ) -> (r: Result<ConsulBackend, LoadError>)
        ensures
            match r {
                Ok(backend) => place.transport is Ok && if is_manifest_probe {
                    is_placeholder(backend@.config) && backend@.is_made_of(backend@.config, place)
                } else {
                    decoded matches Ok(cfg) && cfg.is_valid() && backend@.is_made_of(cfg, place)
                },
                Err(LoadError::Config(e)) => !is_manifest_probe && match decoded {
                    Err(text) => e == ConfigError::InvalidJson(text),
                    Ok(cfg) => cfg.objection() == Some(e),
                },
                Err(LoadError::Client(e)) => (is_manifest_probe || (decoded matches Ok(cfg)
                    && cfg.is_valid())) && (place.transport matches Err(text) && e@
                    == Fault::Internal("reqwest client init: "@ + text@)),
            },
    {
        if is_manifest_probe {
            return match Self::from_validated_config(placeholder(), place) {
                Ok(backend) => Ok(backend),
                Err(e) => Err(LoadError::Client(e)),
            };
        }
        match ConsulConfig::parse(decoded) {
            Ok(cfg) => match Self::from_validated_config(cfg, place) {
                Ok(backend) => Ok(backend),
                Err(e) => Err(LoadError::Client(e)),
            },
            Err(e) => Err(LoadError::Config(e)),
        }
    }

    /// Loads the coordinator with a configuration that is valid.
    pub fn from_validated_config(cfg: ConsulConfig, place: Surroundings) -> (r: Result<
        ConsulBackend,
        ClusterError,
    >)
        requires
            cfg.is_valid(),
        ensures
            match place.transport {
                Ok(_) => r matches Ok(backend) && backend@.is_made_of(cfg, place),
                Err(e) => r matches Err(x) && x@ == Fault::Internal("reqwest client init: "@ + e@),
            },
    {
        let client = match ConsulClient::new(
            cfg.address.clone(),
            copy_text(&cfg.token),
            copy_text(&cfg.datacenter),
            place.transport,
        ) {
            Ok(client) => client,
            Err(e) => {
                return Err(e);
            },
        };
        let node_id = cfg.resolved_node_id(place.hostname);
        let kv = ConsulKv::new(client.clone(), cfg.kv_prefix.as_str());
        let manifest = plugin_manifest(place.version, place.module.as_str());
        Ok(
            ConsulBackend {
                manifest,
                config: cfg,
                node_id,
                started_at: place.started_at,
                client,
                kv,
            },
        )
    }

    /// What the plugin says of itself.
    pub fn manifest(&self) -> (r: &PluginManifest)
        ensures
            r@ == self@.manifest,
    {
        &self.manifest
    }

    /// The key/value store.
    pub fn key_value_store(&self) -> (r: &ConsulKv)
        ensures
            r@ == self@.kv,
    {
        &self.kv
    }

    /// The client that the requests of the coordinator are built with.
    pub fn client(&self) -> (r: &ConsulClient)
        ensures
            r@ == self@.client,
    {
        &self.client
    }

    /// What this node says of itself.
    pub fn node_info(&self) -> (r: ClusterNodeInfo)
        ensures
            r.node_id@ == self@.node_id,
            r.address@ == self@.config.address@,
            r.version@ == self@.manifest.version,
            r.started_at@ == self@.started_at,
            r.roles@.len() == 0,
    {
        ClusterNodeInfo {
            node_id: self.node_id.clone(),
            address: self.config.address.clone(),
            version: self.manifest.version.clone(),
            started_at: self.started_at.clone(),
            roles: Vec::new(),
        }
    }

    /// Asks for the peers.
    pub fn list_peers(&self) -> (r: HttpRequest)
        ensures
            r@ == self@.client.catalog_service(self@.config.service_name@),
    {
        self.client.catalog_service(self.config.service_name.as_str())
    }

    /// Reads the reply to [`Self::list_peers`]: the peers as they were seen at the instant
    /// `last_seen`. There are none where the catalog could not be read.
    pub fn list_peers_reply(sent: Sent<Vec<CatalogServiceEntry>>, last_seen: &str) -> (r: Vec<
        ClusterPeer,
    >)
        ensures
            peer_models(r@) == peers_shown(sent, last_seen@),
    {
        peers_from_listing(sent, last_seen)
    }

    /// A watch on the peers.
    pub fn watch_peers(&self) -> (r: PeerWatch)
        ensures
            r@.service_name == self@.config.service_name@,
            r@.wait_seconds == self@.config.subscribe_wait_sec,
            r@.wait_seconds <= MAX_WAIT_SECS,
            r@.index == 0,
            r@.known == Seq::<Seq<char>>::empty(),
    {
        proof {
            use_type_invariant(self);
        }
        PeerWatch::new(self.config.service_name.clone(), self.config.subscribe_wait_sec)
    }

    /// The key of the leadership of a role.
    pub fn leadership_key(&self, role: &str) -> (r: String)
        ensures
            r@ == leadership_key(self@.config.kv_prefix@, role@),
    {
        let mut key = self.config.kv_prefix.clone();
        key.append("leadership/");
        key.append(role);
        key
    }

    /// The key of a named lock.
    pub fn lock_key(&self, key: &str) -> (r: String)
        ensures
            r@ == lock_key(self@.config.kv_prefix@, key@),
    {
        let mut full_key = self.config.kv_prefix.clone();
        full_key.append("locks/");
        full_key.append(key);
        full_key
    }

    /// Asks for the leadership of a role once.
    pub fn try_acquire_leadership(&self, role: &str, lease_ttl: Duration) -> (r: Result<
        LeaseBid,
        ClusterError,
    >)
        ensures
            r matches Ok(bid) && bid@ == self@.leadership_bid(role@, lease_ttl@),
    {
        let mut name = "mcpg-leadership-".to_owned();
        name.append(role);
        proof {
            reveal_strlit("mcpg-leadership-");
            assert(!is_space(name@[0]));
        }
        LeaseBid::new(name, self.leadership_key(role), self.node_id.clone(), lease_ttl)
    }

    /// Asks for a named lock once.
    pub fn try_acquire_lock(&self, key: &str, lease_ttl: Duration) -> (r: Result<
        LeaseBid,
        ClusterError,
    >)
        ensures
            r matches Ok(bid) && bid@ == self@.lock_bid(key@, lease_ttl@),
    {
        let mut name = "mcpg-lock-".to_owned();
        name.append(key);
        proof {
            reveal_strlit("mcpg-lock-");
            assert(!is_space(name@[0]));
        }
        LeaseBid::new(name, self.lock_key(key), self.node_id.clone(), lease_ttl)
    }

    /// Asks for the leadership of a role until it is granted, with a pause after each time that it is
    /// declined.
    pub fn acquire_leadership(&self, role: &str, lease_ttl: Duration) -> (r: Result<
        (LeaseBid, RetryPause),
        ClusterError,
    >)
        ensures
            r matches Ok((bid, pause)) && bid@ == self@.leadership_bid(role@, lease_ttl@) && pause@
                == FIRST_RETRY_MS * NANOS_PER_MILLI,
    {
        match self.try_acquire_leadership(role, lease_ttl) {
            Ok(bid) => Ok((bid, RetryPause::new())),
            Err(e) => Err(e),
        }
    }

    /// Asks for a named lock until it is granted, with a pause after each time that it is declined.
    pub fn acquire_lock(&self, key: &str, lease_ttl: Duration) -> (r: Result<
        (LeaseBid, RetryPause),
        ClusterError,
    >)
        ensures
            r matches Ok((bid, pause)) && bid@ == self@.lock_bid(key@, lease_ttl@) && pause@
                == FIRST_RETRY_MS * NANOS_PER_MILLI,
    {
        match self.try_acquire_lock(key, lease_ttl) {
            Ok(bid) => Ok((bid, RetryPause::new())),
            Err(e) => Err(e),
        }
    }

    /// The pause before each renewal of a lease that was asked for so.
    pub fn renewal_pause(&self, bid: &LeaseBid) -> (r: Duration)
        ensures
            r@ == renewal_pause(
                (bid@.ttl_secs * NANOS_PER_SEC) as nat,
                self@.config.lease_renew_before_expiry_percent,
            ),
    {
        renewal_sleep(bid.ttl(), self.config.lease_renew_before_expiry_percent)
    }

    /// What goes into the envelope of a payload that this node publishes: it names this node.
    pub fn parcel(&self, routing_key: Option<String>, payload: Vec<u8>) -> (r: Parcel)
        ensures
            r@ == self@.parcel(text_of(routing_key), payload@),
    {
        Parcel { publisher: Some(self.node_id.clone()), routing_key, payload }
    }

    /// Publishes a payload on a topic, in the envelope that `encode` writes: what goes into it names
    /// this node. Where `encode` writes none, the payload is not published.
    pub fn publish<F: Fn(&Parcel) -> Result<Vec<u8>, String>>(
        &self,
        topic: &str,
        routing_key: Option<String>,
        payload: Vec<u8>,
        encode: F,
    ) -> (r: Result<HttpRequest, ClusterError>)
        requires
            forall|parcel: &Parcel| call_requires(encode, (parcel,)),
        ensures
            exists|parcel: &Parcel, envelope: Result<Vec<u8>, String>|
                {
                    &&& #[trigger] call_ensures(encode, (parcel,), envelope)
                    &&& parcel@ == self@.parcel(text_of(routing_key), payload@)
                    &&& match envelope {
                        Ok(wire) => r matches Ok(request) && request@ == self@.client.fire_event(
                            topic@,
                            wire@,
                        ),
                        Err(e) => r matches Err(x) && x@ == Fault::Internal(
                            "publish envelope: "@ + e@,
                        ),
                    }
                },
    {
        let parcel = self.parcel(routing_key, payload);
        let envelope = encode(&parcel);
        publish(&self.client, topic, envelope)
    }

    /// Subscribes to a topic. Groups are not told apart.
    pub fn subscribe(&self, topic: String, _group: Option<String>, routing_key: Option<String>) -> (r:
        Subscription)
        ensures
            r@ == self@.subscription(topic@, text_of(routing_key)),
            r@.wait_seconds <= MAX_WAIT_SECS,
    {
        proof {
            use_type_invariant(self);
        }
        Subscription::new(topic, routing_key, self.node_id.clone(), self.config.subscribe_wait_sec)
    }
}

/// A node does not hear itself: however many polls a subscription of its own has made, nothing that
/// the node publishes is delivered to it. Of an event whose envelope opens to what the node
/// published, a subscriber gets nothing.
pub proof fn own_messages_are_skipped(
    backend: BackendModel,
    topic: Seq<char>,
    wanted: Option<Seq<char>>,
    sent: Seq<Sent<Vec<UserEvent>>>,
    routing_key: Option<Seq<char>>,
    payload: Seq<u8>,
    fresh: Seq<FreshModel>,
    event: FreshModel,
    open: spec_fn(Seq<u8>) -> Option<ParcelModel>,
)
    ensures
        ({
            let subscription = backend.subscription(topic, wanted).received(sent).0;
            let parcel = backend.parcel(routing_key, payload);
            &&& subscription.delivery(Some(parcel)) is None
            &&& open(event.envelope) == Some(parcel) ==> subscription.deliveries(
                fresh.push(event),
                open,
            ) == subscription.deliveries(fresh, open)
        }),
{
    polls_add_up(backend.subscription(topic, wanted), sent);
    assert(fresh.push(event).drop_last() =~= fresh);
}

/// A node hears the others: however many polls a subscription of one node has made, what another
/// node publishes is delivered to it if its routing key matches, with that routing key and payload,
/// under the topic of the subscription. Of an event whose envelope opens to what the other node
/// published, a subscriber gets just that message.
pub proof fn messages_reach_other_nodes(
    publisher: BackendModel,
    subscriber: BackendModel,
    topic: Seq<char>,
    wanted: Option<Seq<char>>,
    sent: Seq<Sent<Vec<UserEvent>>>,
    routing_key: Option<Seq<char>>,
    payload: Seq<u8>,
    fresh: Seq<FreshModel>,
    event: FreshModel,
    open: spec_fn(Seq<u8>) -> Option<ParcelModel>,
)
    requires
        publisher.node_id != subscriber.node_id,
        wanted is None || wanted == routing_key,
    ensures
        ({
            let subscription = subscriber.subscription(topic, wanted).received(sent).0;
            let parcel = publisher.parcel(routing_key, payload);
            let message = MessageModel {
                topic,
                routing_key,
                payload,
                from_node: subscriber.node_id,
            };
            &&& subscription.delivery(Some(parcel)) == Some(message)
            &&& open(event.envelope) == Some(parcel) ==> subscription.deliveries(
                fresh.push(event),
                open,
            ) == subscription.deliveries(fresh, open).push(message)
        }),
{
    polls_add_up(subscriber.subscription(topic, wanted), sent);
    assert(fresh.push(event).drop_last() =~= fresh);
}

/// Every key of a deployment begins with its prefix.
pub proof fn keys_live_under_the_prefix(kv_prefix: Seq<char>, name: Seq<char>)
    ensures
        kv_prefix.is_prefix_of(leadership_key(kv_prefix, name)),
        kv_prefix.is_prefix_of(lock_key(kv_prefix, name)),
        kv_prefix.is_prefix_of(value_key(kv_prefix, name)),
{
    let n = kv_prefix.len() as int;
    assert(leadership_key(kv_prefix, name).subrange(0, n) =~= kv_prefix);
    assert(lock_key(kv_prefix, name).subrange(0, n) =~= kv_prefix);
    assert(value_key(kv_prefix, name).subrange(0, n) =~= kv_prefix);
}

proof fn lemma_slashes_before(prefix: Seq<char>, rest: Seq<char>)
    requires
        rest.len() > 0,
        rest[0] != '/',
    ensures
        without_leading_slashes(prefix + rest) == without_leading_slashes(prefix) + rest,
    decreases prefix.len(),
{
    let whole = prefix + rest;
    if prefix.len() > 0 {
        assert(whole.first() == prefix.first());
        assert(whole.drop_first() =~= prefix.drop_first() + rest);
        if prefix.first() == '/' {
            lemma_slashes_before(prefix.drop_first(), rest);
        }
    } else {
        assert(whole =~= rest);
        assert(without_leading_slashes(prefix) =~= Seq::<char>::empty());
        assert(without_leading_slashes(prefix) + rest =~= rest);
    }
}

proof fn lemma_path(client: ClientModel, prefix: Seq<char>, space: Seq<char>, name: Seq<char>)
    requires
        space.len() > 0,
        space[0] != '/',
    ensures
        client.kv_url(prefix + space + name) == client.kv_url(prefix) + space + name,
{
    assert(prefix + space + name =~= prefix + (space + name));
    lemma_slashes_before(prefix, space + name);
    assert(client.kv_url(prefix) + space + name =~= client.kv_url(prefix) + (space + name));
    let stem = client.address + "/v1/kv/"@;
    assert(stem + (without_leading_slashes(prefix) + (space + name)) =~= (stem
        + without_leading_slashes(prefix)) + (space + name));
}

proof fn lemma_spaces()
    ensures
        "leadership/"@.len() == 11,
        "leadership/"@[0] == 'l',
        "leadership/"@[1] == 'e',
        "locks/"@.len() == 6,
        "locks/"@[0] == 'l',
        "locks/"@[1] == 'o',
        "kv/"@.len() == 3,
        "kv/"@[0] == 'k',
{
    reveal_strlit("leadership/");
    reveal_strlit("locks/");
    reveal_strlit("kv/");
}

/// The three keyspaces of a deployment do not overlap: no role, lock and value ever share a key,
/// whatever they are called, and no two of their URLs are the same as they are built. An HTTP client
/// may still read two URLs alike: it resolves a segment `.` or `..` of a name, and takes a `?` or a
/// `#` in a name for the end of the path.
pub proof fn keyspaces_do_not_overlap(
    client: ClientModel,
    kv_prefix: Seq<char>,
    role: Seq<char>,
    lock: Seq<char>,
    key: Seq<char>,
)
    ensures
        leadership_key(kv_prefix, role) != lock_key(kv_prefix, lock),
        leadership_key(kv_prefix, role) != value_key(kv_prefix, key),
        lock_key(kv_prefix, lock) != value_key(kv_prefix, key),
        client.kv_url(leadership_key(kv_prefix, role)) != client.kv_url(lock_key(kv_prefix, lock)),
        client.kv_url(leadership_key(kv_prefix, role)) != client.kv_url(value_key(kv_prefix, key)),
        client.kv_url(lock_key(kv_prefix, lock)) != client.kv_url(value_key(kv_prefix, key)),
{
    lemma_spaces();
    lemma_path(client, kv_prefix, "leadership/"@, role);
    lemma_path(client, kv_prefix, "locks/"@, lock);
    lemma_path(client, kv_prefix, "kv/"@, key);
    let n = client.kv_url(kv_prefix).len() as int;
    let a = client.kv_url(leadership_key(kv_prefix, role));
    let b = client.kv_url(lock_key(kv_prefix, lock));
    let c = client.kv_url(value_key(kv_prefix, key));
    assert(a[n] == 'l' && a[n + 1] == 'e');
    assert(b[n] == 'l' && b[n + 1] == 'o');
    assert(c[n] == 'k');
}

proof fn lemma_same_end(stem: Seq<char>, a: Seq<char>, b: Seq<char>)
    requires
        stem + a == stem + b,
    ensures
        a == b,
{
    let n = stem.len() as int;
    assert((stem + a).len() == stem.len() + a.len());
    assert((stem + b).len() == stem.len() + b.len());
    assert forall|i: int| 0 <= i < a.len() implies a[i] == b[i] by {
        assert((stem + a)[n + i] == a[i]);
        assert((stem + b)[n + i] == b[i]);
    }
    assert(a =~= b);
}

/// Within a keyspace, different names have different URLs as they are built. As for
/// [`keyspaces_do_not_overlap`], an HTTP client may still read two of them alike.
pub proof fn names_have_urls_of_their_own(
    client: ClientModel,
    kv_prefix: Seq<char>,
    a: Seq<char>,
    b: Seq<char>,
)
    requires
        a != b,
    ensures
        client.kv_url(leadership_key(kv_prefix, a)) != client.kv_url(leadership_key(kv_prefix, b)),
        client.kv_url(lock_key(kv_prefix, a)) != client.kv_url(lock_key(kv_prefix, b)),
        client.kv_url(value_key(kv_prefix, a)) != client.kv_url(value_key(kv_prefix, b)),
{
    lemma_spaces();
    let stem = client.kv_url(kv_prefix);
    lemma_path(client, kv_prefix, "leadership/"@, a);
    lemma_path(client, kv_prefix, "leadership/"@, b);
    lemma_path(client, kv_prefix, "locks/"@, a);
    lemma_path(client, kv_prefix, "locks/"@, b);
    lemma_path(client, kv_prefix, "kv/"@, a);
    lemma_path(client, kv_prefix, "kv/"@, b);
    if stem + "leadership/"@ + a == stem + "leadership/"@ + b {
        lemma_same_end(stem + "leadership/"@, a, b);
    }
    if stem + "locks/"@ + a == stem + "locks/"@ + b {
        lemma_same_end(stem + "locks/"@, a, b);
    }
    if stem + "kv/"@ + a == stem + "kv/"@ + b {
        lemma_same_end(stem + "kv/"@, a, b);
    }
}

/// The keys that the store of a coordinator uses lie in the keyspace of values.
pub proof fn the_store_keeps_to_its_keyspace(
    backend: BackendModel,
    config: ConsulConfig,
    place: Surroundings,
    key: Seq<char>,
)
    requires
        backend.is_made_of(config, place),
    ensures
        backend.kv.full_key(key) == value_key(config.kv_prefix@, key),
        backend.kv.client == backend.client,
{
}

/// There is one first segment of a module path, and no separator stands in it.
pub proof fn the_first_segment_is_unique(path: Seq<char>, a: Seq<char>, b: Seq<char>)
    requires
        is_first_segment(path, a),
        is_first_segment(path, b),
    ensures
        a == b,
        a.len() <= path.len() && a == path.take(a.len() as int),
        forall|i: int| 0 <= i && i + 1 < a.len() ==> !(#[trigger] a[i] == ':' && a[i + 1] == ':'),
        a.len() < path.len() ==> path[a.len() as int] == ':' && path[a.len() as int + 1] == ':',
{
    if a.len() < b.len() {
        assert(separator_at(path, a.len() as int));
    }
    if b.len() < a.len() {
        assert(separator_at(path, b.len() as int));
    }
    assert(a =~= b);
    assert(a =~= path.take(a.len() as int));
    assert forall|i: int| 0 <= i && i + 1 < a.len() implies !(#[trigger] a[i] == ':' && a[i + 1]
        == ':') by {
        assert(!separator_at(path, i));
        assert(a[i] == path[i] && a[i + 1] == path[i + 1]);
    }
}

/// A coordinator is what it was configured to be: it speaks to the configured address with the
/// configured token and datacenter, keeps its values under the configured prefix, and is known by the
/// configured node. It offers the bus and the store.
pub proof fn a_coordinator_is_as_configured(
    backend: BackendModel,
    config: ConsulConfig,
    place: Surroundings,
)
    requires
        backend.is_made_of(config, place),
    ensures
        backend.config == config,
        backend.client.address == without_trailing_slashes(config.address@),
        config.token matches Some(token) ==> backend.client.token == Some(token@),
        config.token is None ==> backend.client.token is None,
        config.datacenter matches Some(dc) ==> backend.client.datacenter == Some(dc@),
        config.datacenter is None ==> backend.client.datacenter is None,
        backend.kv.client == backend.client,
        backend.kv.key_prefix == config.kv_prefix@ + "kv/"@,
        config.node_id matches Some(id) ==> backend.node_id == id@,
        backend.node_id == config.node_identity(text_of(place.hostname)),
        backend.started_at == place.started_at@,
        backend.manifest.id == "dev.mcpg.cluster.consul"@,
        backend.manifest.version == place.version@,
        backend.manifest.name == "Consul Cluster Coordinator"@,
        backend.manifest.protocol_version == "1.0"@,
        backend.manifest.provides == seq!["bus"@, "kv"@],
        backend.manifest.required_capabilities.len() == 0,
        backend.manifest.tags.len() == 0,
        backend.manifest.provides_schemes.len() == 0,
        backend.manifest.license is None,
        backend.manifest.backend_profile is None,
        is_first_segment(place.module@, backend.manifest.module_path_prefix),
{
}

/// A lease is asked for under a name and a key that tell what it is for, whole, by this node, and for
/// the whole seconds of its TTL or for ten.
pub proof fn leases_are_asked_for_by_name_and_key(
    backend: BackendModel,
    name: Seq<char>,
    ttl: nat,
    secs: u64,
)
    requires
        secs * 1_000_000_000 <= ttl < (secs + 1) * 1_000_000_000,
    ensures
        backend.leadership_bid(name, ttl).name == "mcpg-leadership-"@ + name,
        backend.leadership_bid(name, ttl).key == backend.config.kv_prefix@ + "leadership/"@ + name,
        backend.leadership_bid(name, ttl).node_id == backend.node_id,
        backend.lock_bid(name, ttl).name == "mcpg-lock-"@ + name,
        backend.lock_bid(name, ttl).key == backend.config.kv_prefix@ + "locks/"@ + name,
        backend.lock_bid(name, ttl).node_id == backend.node_id,
        secs >= 10 ==> backend.leadership_bid(name, ttl).ttl_secs == secs && backend.lock_bid(
            name,
            ttl,
        ).ttl_secs == secs,
        secs < 10 ==> backend.leadership_bid(name, ttl).ttl_secs == 10 && backend.lock_bid(
            name,
            ttl,
        ).ttl_secs == 10,
{
    a_session_lives_for_whole_seconds(ttl, secs as nat);
}

/// The keys of the three keyspaces are the prefix, the word of the keyspace and the name, whole.
pub proof fn keys_are_prefix_word_and_name(kv_prefix: Seq<char>, name: Seq<char>)
    ensures
        leadership_key(kv_prefix, name) == kv_prefix + "leadership/"@ + name,
        lock_key(kv_prefix, name) == kv_prefix + "locks/"@ + name,
        value_key(kv_prefix, name) == kv_prefix + "kv/"@ + name,
{
}

/// A subscription starts with nothing seen, for the topic and the routing key that were asked for, and
/// polls for as long as configured; what is published names this node and is carried whole.
pub proof fn subscriptions_and_parcels_are_as_asked_for(
    backend: BackendModel,
    topic: Seq<char>,
    routing_key: Option<Seq<char>>,
    payload: Seq<u8>,
)
    ensures
        ({
            let subscription = backend.subscription(topic, routing_key);
            &&& subscription.topic == topic
            &&& subscription.routing_key == routing_key
            &&& subscription.node_id == backend.node_id
            &&& subscription.wait_seconds == backend.config.subscribe_wait_sec
            &&& subscription.index == 0
            &&& subscription.seen.len() == 0
        }),
        backend.parcel(routing_key, payload).publisher == Some(backend.node_id),
        backend.parcel(routing_key, payload).routing_key == routing_key,
        backend.parcel(routing_key, payload).payload == payload,
{
}

/// The refusal of a configuration says why, whole.
pub proof fn a_refusal_says_why(e: ConfigError)
    ensures
        refusal_text(e) == "consul cluster config parse failed: "@ + e.text()
            + ". A misconfigured cluster_backend is a security hole; refusing to load."@,
{
}

/// The placeholder of a load for the manifest alone is a minimal configuration for a local agent.
pub proof fn the_placeholder_is_minimal(cfg: ConsulConfig)
    requires
        is_placeholder(cfg),
    ensures
        cfg.address@ == "http://127.0.0.1:8500"@,
        cfg.service_name@ == "manifest-probe"@,
        cfg.token is None && cfg.datacenter is None && cfg.node_id is None,
        cfg.subscribe_wait_sec == 30 && cfg.kv_prefix@ == "mcpg/"@
            && cfg.lease_renew_before_expiry_percent == 30,
{
}

/// A manifest in the model keeps what it says.
pub proof fn a_manifest_keeps_what_it_says(manifest: PluginManifest)
    ensures
        manifest@.id == manifest.id@,
        manifest@.version == manifest.version@,
        manifest@.name == manifest.name@,
        manifest@.plugin_class == manifest.plugin_class,
        manifest@.protocol_version == manifest.protocol_version@,
        manifest@.license == text_of(manifest.license),
        manifest@.required_capabilities == texts(manifest.required_capabilities@),
        manifest@.tags == texts(manifest.tags@),
        manifest@.provides == texts(manifest.provides@),
        manifest@.provides_schemes == texts(manifest.provides_schemes@),
        manifest@.module_path_prefix == manifest.module_path_prefix@,
        manifest@.backend_profile == text_of(manifest.backend_profile),
{
}

} // verus!
