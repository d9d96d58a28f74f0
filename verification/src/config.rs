//! What an operator configures.

use vstd::prelude::*;
use vstd::string::*;

use crate::http::text_of;
use crate::text::{blank, has_prefix, is_blank, is_space};

verus! {

/// The longest long-poll wait that Consul honors, in seconds.
pub const MAX_WAIT_SECS: u64 = 600;

/// The configuration of the coordinator.
#[derive(Clone, Debug)]
pub struct ConsulConfig {
    /// Base URL of the Consul HTTP API, such as `http://consul.svc:8500`.
    pub address: String,
    /// ACL token, sent as the `X-Consul-Token` header on every request.
    pub token: Option<String>,
    /// Datacenter of the requests. Without it, Consul uses that of the agent.
    pub datacenter: Option<String>,
    /// Service name under which the gateway instances are registered with their agents, and by
    /// which peers are looked up.
    pub service_name: String,
    /// Stable identity of this node, by which it skips the events that it published itself. Without
    /// it, the service name and the host name make one.
    pub node_id: Option<String>,
    /// Long-poll wait in seconds.
    pub subscribe_wait_sec: u64,
    /// What every key that the coordinator owns begins with. Deployments that share a Consul
    /// cluster need different ones.
    pub kv_prefix: String,
    /// How much of a lease, in percent of its TTL, is left when it is renewed.
    pub lease_renew_before_expiry_percent: u32,
}

/// Why a configuration is refused.
#[derive(Clone, Debug)]
pub enum ConfigError {
    /// It is not the JSON of a configuration; the text says why.
    InvalidJson(String),
    EmptyAddress,
    InvalidAddressScheme,
    EmptyServiceName,
    InvalidSubscribeWait,
}

impl ConfigError {
    /// How the error is shown.
    pub open spec fn text(self) -> Seq<char> {
        match self {
            ConfigError::InvalidJson(e) => "invalid cluster.consul config JSON: "@ + e@,
            ConfigError::EmptyAddress => "cluster.consul: address is empty"@,
            ConfigError::InvalidAddressScheme =>
                "cluster.consul: address must start with http:// or https://"@,
            ConfigError::EmptyServiceName => "cluster.consul: service_name is empty"@,
            ConfigError::InvalidSubscribeWait =>
                "cluster.consul: subscribe_wait_sec must be in 1..=600 (Consul max 10 minutes)"@,
        }
    }

    /// How the error is shown.
    pub fn message(&self) -> (r: String)
        ensures
            r@ == self.text(),
    {
        match self {
            ConfigError::InvalidJson(e) => {
                let mut text = "invalid cluster.consul config JSON: ".to_owned();
                text.append(e.as_str());
                text
            },
            ConfigError::EmptyAddress => "cluster.consul: address is empty".to_owned(),
            ConfigError::InvalidAddressScheme =>
                "cluster.consul: address must start with http:// or https://".to_owned(),
            ConfigError::EmptyServiceName => "cluster.consul: service_name is empty".to_owned(),
            ConfigError::InvalidSubscribeWait =>
                "cluster.consul: subscribe_wait_sec must be in 1..=600 (Consul max 10 minutes)".to_owned(),
        }
    }
}

/// The long-poll wait where none is configured.
pub fn default_subscribe_wait_sec() -> (r: u64)
    ensures
        r == 30,
{
    30
}

/// The key prefix where none is configured.
pub fn default_kv_prefix() -> (r: String)
    ensures
        r@ == "mcpg/"@,
{
    "mcpg/".to_owned()
}

/// The renewal percentage where none is configured.
pub fn default_renew_pct() -> (r: u32)
    ensures
        r == 30,
{
    30
}

/// Whether a string begins like the address of an HTTP server.
pub open spec fn has_http_scheme(address: Seq<char>) -> bool {
    "http://"@.is_prefix_of(address) || "https://"@.is_prefix_of(address)
}

impl ConsulConfig {
    /// The first thing that is wrong with the configuration.
    pub open spec fn objection(self) -> Option<ConfigError> {
        if is_blank(self.address@) {
            Some(ConfigError::EmptyAddress)
        } else if !has_http_scheme(self.address@) {
            Some(ConfigError::InvalidAddressScheme)
        } else if is_blank(self.service_name@) {
            Some(ConfigError::EmptyServiceName)
        } else if !(1 <= self.subscribe_wait_sec <= MAX_WAIT_SECS) {
            Some(ConfigError::InvalidSubscribeWait)
        } else {
            None
        }
    }

    /// Whether the coordinator runs with the configuration.
    pub open spec fn is_valid(self) -> bool {
        &&& !is_blank(self.address@)
        &&& has_http_scheme(self.address@)
        &&& !is_blank(self.service_name@)
        &&& 1 <= self.subscribe_wait_sec <= MAX_WAIT_SECS
    }

    /// A configuration that says no more than what it must.
    pub fn minimal(address: String, service_name: String) -> (r: ConsulConfig)
        ensures
            r.address == address,
            r.service_name == service_name,
            r.token is None,
            r.datacenter is None,
            r.node_id is None,
            r.subscribe_wait_sec == 30,
            r.kv_prefix@ == "mcpg/"@,
            r.lease_renew_before_expiry_percent == 30,
    {
        ConsulConfig {
            address,
            token: None,
            datacenter: None,
            service_name,
            node_id: None,
            subscribe_wait_sec: default_subscribe_wait_sec(),
            kv_prefix: default_kv_prefix(),
            lease_renew_before_expiry_percent: default_renew_pct(),
        }
    }

    /// Takes a configuration that was read from JSON, or the reason why it could not be read, and
    /// lets it through if the coordinator can run with it.
    pub fn parse(decoded: Result<ConsulConfig, String>) -> (r: Result<ConsulConfig, ConfigError>)
        ensures
            r == match decoded {
                Err(e) => Err(ConfigError::InvalidJson(e)),
                Ok(cfg) => match cfg.objection() {
                    Some(e) => Err(e),
                    None => Ok(cfg),
                },
            },
    {
        match decoded {
            Err(e) => Err(ConfigError::InvalidJson(e)),
            Ok(cfg) => match cfg.validate() {
                Ok(_) => Ok(cfg),
                Err(e) => Err(e),
            },
        }
    }

    /// Whether the coordinator can run with the configuration and, if not, why.
    pub fn validate(&self) -> (r: Result<(), ConfigError>)
        ensures
            r == match self.objection() {
                Some(e) => Err(e),
                None => Ok(()),
            },
    {
        if blank(self.address.as_str()) {
            return Err(ConfigError::EmptyAddress);
        }
        if !has_prefix(self.address.as_str(), "http://") && !has_prefix(
            self.address.as_str(),
            "https://",
        ) {
            return Err(ConfigError::InvalidAddressScheme);
        }
        if blank(self.service_name.as_str()) {
            return Err(ConfigError::EmptyServiceName);
        }
        if self.subscribe_wait_sec == 0 || self.subscribe_wait_sec > MAX_WAIT_SECS {
            return Err(ConfigError::InvalidSubscribeWait);
        }
        Ok(())
    }

    /// The identity of this node on a host of that name.
    pub open spec fn node_identity(self, hostname: Option<Seq<char>>) -> Seq<char> {
        match self.node_id {
            Some(id) => id@,
            None => self.service_name@ + "-"@ + match hostname {
                Some(name) => name,
                None => "unknown-host"@,
            },
        }
    }

    /// The identity of this node: the configured one, else the service name and the name of the
    /// host, where that is known.
    pub fn resolved_node_id(&self, hostname: Option<String>) -> (r: String)
        ensures
            r@ == self.node_identity(text_of(hostname)),
    {
        match &self.node_id {
            Some(id) => id.clone(),
            None => {
                let mut id = self.service_name.clone();
                id.append("-");
                match hostname {
                    Some(name) => id.append(name.as_str()),
                    None => id.append("unknown-host"),
                }
                id
            },
        }
    }
}

/// A configuration is let through exactly if it is valid.
pub proof fn parse_accepts_exactly_valid_configurations(cfg: ConsulConfig)
    ensures
        cfg.objection() is None <==> cfg.is_valid(),
{
}

/// A configuration is refused exactly where its address or its service name is nothing but white
/// space, its address does not begin with `http://` or `https://`, or its wait is not from one to 600
/// seconds; the first of these decides how.
pub proof fn configurations_are_refused_for_four_reasons(cfg: ConsulConfig)
    ensures
        ({
            let blank_address = forall|i: int|
                0 <= i < cfg.address@.len() ==> is_space(#[trigger] cfg.address@[i]);
            let blank_name = forall|i: int|
                0 <= i < cfg.service_name@.len() ==> is_space(#[trigger] cfg.service_name@[i]);
            let http = cfg.address@.len() >= 7 && cfg.address@.take(7) == seq![
                'h', 't', 't', 'p', ':', '/', '/',
            ];
            let https = cfg.address@.len() >= 8 && cfg.address@.take(8) == seq![
                'h', 't', 't', 'p', 's', ':', '/', '/',
            ];
            let waits = 1 <= cfg.subscribe_wait_sec <= 600;
            &&& cfg.is_valid() <==> !blank_address && (http || https) && !blank_name && waits
            &&& cfg.objection() is None <==> cfg.is_valid()
            &&& blank_address ==> cfg.objection() == Some(ConfigError::EmptyAddress)
            &&& !blank_address && !http && !https ==> cfg.objection() == Some(
                ConfigError::InvalidAddressScheme,
            )
            &&& !blank_address && (http || https) && blank_name ==> cfg.objection() == Some(
                ConfigError::EmptyServiceName,
            )
            &&& !blank_address && (http || https) && !blank_name && !waits ==> cfg.objection() == Some(
                ConfigError::InvalidSubscribeWait,
            )
        }),
{
    reveal_strlit("http://");
    reveal_strlit("https://");
    assert("http://"@ =~= seq!['h', 't', 't', 'p', ':', '/', '/']);
    assert("https://"@ =~= seq!['h', 't', 't', 'p', 's', ':', '/', '/']);
    let address = cfg.address@;
    if address.len() >= 7 {
        assert(address.take(7) =~= address.subrange(0, 7));
    }
    if address.len() >= 8 {
        assert(address.take(8) =~= address.subrange(0, 8));
    }
}

/// A node is known by the id that is configured, whatever its host; without one, by its service and its
/// host, and hosts of different names make different ids.
pub proof fn a_node_is_known_by_id_or_by_host(cfg: ConsulConfig, a: Seq<char>, b: Seq<char>)
    ensures
        cfg.node_id matches Some(id) ==> cfg.node_identity(Some(a)) == id@ && cfg.node_identity(None)
            == id@,
        cfg.node_id is None ==> cfg.node_identity(Some(a)) == cfg.service_name@ + seq!['-'] + a,
        cfg.node_id is None ==> cfg.node_identity(None) == cfg.service_name@ + "-unknown-host"@,
        cfg.node_id is None && a != b ==> cfg.node_identity(Some(a)) != cfg.node_identity(Some(b)),
{
    reveal_strlit("-");
    reveal_strlit("unknown-host");
    reveal_strlit("-unknown-host");
    assert("-"@ =~= seq!['-']);
    let stem = cfg.service_name@ + "-"@;
    assert(stem + "unknown-host"@ =~= cfg.service_name@ + "-unknown-host"@);
    if stem + a == stem + b {
        assert((stem + a).len() == stem.len() + a.len());
        assert((stem + b).len() == stem.len() + b.len());
        assert forall|i: int| 0 <= i < a.len() implies a[i] == b[i] by {
            assert((stem + a)[stem.len() + i] == a[i]);
            assert((stem + b)[stem.len() + i] == b[i]);
        }
        assert(a =~= b);
    }
}

/// The error of a configuration that could not be read keeps the whole reason.
pub proof fn a_refusal_keeps_the_reason(reason: String)
    ensures
        ConfigError::InvalidJson(reason).text() == "invalid cluster.consul config JSON: "@ + reason@,
{
}

} // verus!
