//! The decisions of a cluster coordinator that runs on HashiCorp Consul.
//!
//! A fleet of gateways uses the coordinator to know its peers, to elect leaders and take locks, to
//! notify each other, and to keep state. All of it goes through the Consul HTTP API. This library
//! makes the requests, as plain values, and says what the replies mean; sending them, waiting and
//! running things side by side is left to the program around it.
//!
//! - [`backend`]: the coordinator as a whole, and the keyspaces that it owns.
//! - [`client`]: the requests and the replies of the Consul HTTP API.
//! - [`kv`] and [`envelope`]: the key/value store, with expiries that Consul does not know of.
//! - [`claims`]: what holds of a key that several replicas claim or read at once.
//! - [`lease`]: leadership and locks, with fencing tokens, renewal and release.
//! - [`peers`]: the peers, and the changes among them.
//! - [`bus`]: publish and subscribe.
//! - [`config`]: what an operator configures.
//! - [`http`], [`time`], [`text`] and [`error`]: what the others are made of.

pub mod backend;
pub mod bus;
pub mod claims;
pub mod client;
pub mod config;
pub mod envelope;
pub mod error;
pub mod http;
pub mod kv;
pub mod lease;
pub mod peers;
pub mod text;
pub mod time;

pub use backend::ConsulBackend;
pub use config::{ConfigError, ConsulConfig};
pub use kv::ConsulKv;
