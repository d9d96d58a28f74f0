//! The Consul HTTP API that the coordinator speaks.
//!
//! Each call is a pair: a method that builds the request, and a function, named after it with the
//! ending `_reply`, that says what the reply means.
//!
//! - `GET /v1/catalog/service/<name>`: list peers, at once or by long-poll.
//! - `PUT /v1/event/fire/<name>`: publish an event.
//! - `GET /v1/event/list?index=N&wait=Ns`: long-poll for events.
//! - `PUT /v1/session/create`, `renew/<id>`, `destroy/<id>`: sessions for leases.
//! - `PUT /v1/kv/<key>?acquire=<id>` and `?release=<id>`: locks.
//! - `GET`, `PUT` and `DELETE /v1/kv/<key>`: values, and the lock index that fences.

use vstd::prelude::*;
use vstd::string::*;

use crate::error::{internal, outcome, unavailable, ClusterError, Fault};
use crate::http::{
    is_success, readable, require_success, succeeded, status_text, successful, take_body, text_of, Body,
    BodyModel, HttpRequest, Method, Refusal, RequestModel, Sent, SessionCreateBody, NOT_FOUND,
};
use crate::text::{
    decimal, decimal_reads_back, drop_leading_slashes, drop_trailing_slashes, is_space, parse_u64,
    push_decimal, same_text, trim_spaces, trimmed, trimming_takes_white_space_from_the_ends, unsigned,
    unsigned_64, without_leading_slashes, without_trailing_slashes,
};

verus! {

/// What Consul does with the locks of a session that ends.
#[derive(Clone, Copy, Debug, PartialEq, Eq, Structural)]
pub enum SessionBehavior {
    /// Release them. The right choice for advisory locks.
    Release,
    /// Delete the keys. The right choice for entries that exist only while their holder lives.
    Delete,
}

impl SessionBehavior {
    /// What the API calls the behavior.
    pub open spec fn word(self) -> Seq<char> {
        match self {
            SessionBehavior::Release => "release"@,
            SessionBehavior::Delete => "delete"@,
        }
    }

    /// What the API calls the behavior.
    pub fn as_str(self) -> (r: &'static str)
        ensures
            r@ == self.word(),
    {
        match self {
            SessionBehavior::Release => "release",
            SessionBehavior::Delete => "delete",
        }
    }
}

/// The state of a lock.
#[derive(Clone, Debug)]
pub struct KvEntry {
    /// How often the key was acquired: the per-key counter that fences.
    pub lock_index: u64,
    pub key: String,
    pub session: Option<String>,
}

/// A key with its value and the version of it that compare-and-swap writes go by.
#[derive(Clone, Debug)]
pub struct KvValueEntry {
    pub key: String,
    pub modify_index: u64,
    /// The value in base64, as Consul sends it. None where it is empty.
    pub value_b64: Option<String>,
}

/// An instance of a service in the catalog.
#[derive(Clone, Debug)]
pub struct CatalogServiceEntry {
    pub node: String,
    pub address: String,
    pub service_id: String,
    pub service_name: String,
    pub service_port: u16,
    pub service_tags: Vec<String>,
}

/// An event that was fired.
#[derive(Clone, Debug)]
pub struct UserEvent {
    pub id: String,
    pub name: String,
    /// The payload in base64, as Consul sends it.
    pub payload_b64: Option<String>,
    pub node_filter: Option<String>,
    pub service_filter: Option<String>,
    pub tag_filter: Option<String>,
    pub version: u64,
    pub ltime: u64,
}

/// What the standard base64 alphabet with padding reads from a text, where the text is well formed.
pub uninterp spec fn base64_bytes(text: Seq<char>) -> Option<Seq<u8>>;

/// Decodes with `base64::engine::general_purpose::STANDARD.decode`. The bytes, and whether there are
/// any, depend on the text alone.
#[verifier::external_body]
fn base64_decode(text: &str) -> (r: Option<Vec<u8>>)
    ensures
        r is Some == base64_bytes(text@) is Some,
        r matches Some(bytes) ==> Some(bytes@) == base64_bytes(text@),
{
    match base64::Engine::decode(&base64::engine::general_purpose::STANDARD, text.as_bytes()) {
        Ok(bytes) => Some(bytes),
        Err(_) => None,
    }
}

/// The bytes that a base64 field carries: none where it is absent or malformed.
pub open spec fn carried(field: Option<Seq<char>>) -> Seq<u8> {
    match field {
        Some(text) => match base64_bytes(text) {
            Some(bytes) => bytes,
            None => Seq::empty(),
        },
        None => Seq::empty(),
    }
}

/// What a base64 field carries, given what its text decodes to.
pub fn carried_bytes(decoded: Option<Vec<u8>>) -> (r: Vec<u8>)
    ensures
        r@ == match decoded {
            Some(bytes) => bytes@,
            None => Seq::empty(),
        },
{
    match decoded {
        Some(bytes) => bytes,
        None => Vec::new(),
    }
}

fn decode_field(field: &Option<String>) -> (r: Vec<u8>)
    ensures
        r@ == carried(text_of(*field)),
{
    match field {
        Some(text) => carried_bytes(base64_decode(text.as_str())),
        None => Vec::new(),
    }
}

impl KvValueEntry {
    /// The value, decoded. Empty where there is none or it is malformed.
    pub fn decoded_value(&self) -> (r: Vec<u8>)
        ensures
            r@ == carried(text_of(self.value_b64)),
            self.value_b64 matches Some(text) && base64_bytes(text@) is Some ==> Some(r@)
                == base64_bytes(self.value_b64->0@),
    {
        decode_field(&self.value_b64)
    }
}

/// The payload of an event, decoded. Empty where there is none or it is malformed.
pub fn decode_event_payload(payload_b64: &Option<String>) -> (r: Vec<u8>)
    ensures
        r@ == carried(text_of(*payload_b64)),
        payload_b64 matches Some(text) && base64_bytes(text@) is Some ==> Some(r@) == base64_bytes(
            payload_b64->0@,
        ),
{
    decode_field(payload_b64)
}

/// Normalises a key for use in a path: Consul takes most characters as they are, only leading
/// slashes go.
pub fn url_escape(key: &str) -> (r: String)
    ensures
        r@ == without_leading_slashes(key@),
{
    drop_leading_slashes(key)
}

/// How to speak to one Consul agent.
pub struct ConsulClient {
    address: String,
    token: Option<String>,
    datacenter: Option<String>,
}

/// A [`ConsulClient`] in the model.
pub struct ClientModel {
    pub address: Seq<char>,
    pub token: Option<Seq<char>>,
    pub datacenter: Option<Seq<char>>,
}

impl View for ConsulClient {
    type V = ClientModel;

    closed spec fn view(&self) -> ClientModel {
        ClientModel {
            address: self.address@,
            token: text_of(self.token),
            datacenter: text_of(self.datacenter),
        }
    }
}

impl Clone for ConsulClient {
    fn clone(&self) -> (r: ConsulClient)
        ensures
            r@ == self@,
    {
        ConsulClient {
            address: self.address.clone(),
            token: copy_text(&self.token),
            datacenter: copy_text(&self.datacenter),
        }
    }
}

/// The seconds that a long-poll request may take beyond the wait that it asks for.
pub const POLL_GRACE_SECS: u64 = 30;

impl ClientModel {
    /// `url` with the datacenter in its query, where one is configured.
    pub open spec fn with_dc(self, url: Seq<char>, separator: Seq<char>) -> Seq<char> {
        match self.datacenter {
            Some(dc) => url + separator + "dc="@ + dc,
            None => url,
        }
    }

    /// A request with the token of this client and no time limit.
    pub open spec fn request(self, method: Method, url: Seq<char>, body: BodyModel) -> RequestModel {
        RequestModel { method, url, token: self.token, timeout_secs: None, body }
    }

    /// A long-poll: a `GET` that may take a while longer than the wait.
    pub open spec fn poll(self, url: Seq<char>, wait_seconds: u64) -> RequestModel {
        RequestModel {
            method: Method::Get,
            url,
            token: self.token,
            timeout_secs: Some((wait_seconds + POLL_GRACE_SECS) as u64),
            body: BodyModel::Empty,
        }
    }

    /// The path of a key, without a query.
    pub open spec fn kv_url(self, key: Seq<char>) -> Seq<char> {
        self.address + "/v1/kv/"@ + without_leading_slashes(key)
    }

    /// The URL of a request on a key that Consul heeds only if the key has that version.
    pub open spec fn cas_url(self, key: Seq<char>, index: u64) -> Seq<char> {
        self.with_dc(self.kv_url(key) + "?cas="@ + decimal(index as nat), "&"@)
    }

    pub open spec fn catalog_service(self, service_name: Seq<char>) -> RequestModel {
        self.request(
            Method::Get,
            self.with_dc(self.address + "/v1/catalog/service/"@ + service_name, "?"@),
            BodyModel::Empty,
        )
    }

    pub open spec fn fire_event(self, topic: Seq<char>, payload: Seq<u8>) -> RequestModel {
        self.request(
            Method::Put,
            self.with_dc(self.address + "/v1/event/fire/"@ + topic, "?"@),
            BodyModel::Bytes(payload),
        )
    }

    pub open spec fn catalog_service_blocking(
        self,
        service_name: Seq<char>,
        index: u64,
        wait_seconds: u64,
    ) -> RequestModel {
        let url = self.address + "/v1/catalog/service/"@ + service_name + "?index="@ + decimal(
            index as nat,
        ) + "&wait="@ + decimal(wait_seconds as nat) + "s"@;
        self.poll(self.with_dc(url, "&"@), wait_seconds)
    }

    pub open spec fn list_events(self, topic: Seq<char>, index: u64, wait_seconds: u64) -> RequestModel {
        let url = self.address + "/v1/event/list?name="@ + topic + "&index="@ + decimal(index as nat)
            + "&wait="@ + decimal(wait_seconds as nat) + "s"@;
        self.poll(self.with_dc(url, "&"@), wait_seconds)
    }

    pub open spec fn session_create(
        self,
        name: Seq<char>,
        ttl_seconds: u64,
        behavior: SessionBehavior,
    ) -> RequestModel {
        self.request(
            Method::Put,
            self.with_dc(self.address + "/v1/session/create"@, "?"@),
            BodyModel::Session {
                name,
                ttl: decimal(ttl_seconds as nat) + "s"@,
                behavior: behavior.word(),
                lock_delay: "0s"@,
            },
        )
    }

    pub open spec fn session_renew(self, session_id: Seq<char>) -> RequestModel {
        self.request(
            Method::Put,
            self.with_dc(self.address + "/v1/session/renew/"@ + session_id, "?"@),
            BodyModel::Empty,
        )
    }

    pub open spec fn session_destroy(self, session_id: Seq<char>) -> RequestModel {
        self.request(
            Method::Put,
            self.with_dc(self.address + "/v1/session/destroy/"@ + session_id, "?"@),
            BodyModel::Empty,
        )
    }

    pub open spec fn kv_acquire(self, key: Seq<char>, session_id: Seq<char>, value: Seq<u8>) -> RequestModel {
        self.request(
            Method::Put,
            self.with_dc(self.kv_url(key) + "?acquire="@ + session_id, "&"@),
            BodyModel::Bytes(value),
        )
    }

    pub open spec fn kv_release(self, key: Seq<char>, session_id: Seq<char>) -> RequestModel {
        self.request(
            Method::Put,
            self.with_dc(self.kv_url(key) + "?release="@ + session_id, "&"@),
            BodyModel::Empty,
        )
    }

    pub open spec fn kv_get_value(self, key: Seq<char>) -> RequestModel {
        self.request(Method::Get, self.with_dc(self.kv_url(key), "?"@), BodyModel::Empty)
    }

    pub open spec fn kv_put_value(self, key: Seq<char>, value: Seq<u8>, cas: Option<u64>) -> RequestModel {
        let url = match cas {
            Some(index) => self.cas_url(key, index),
            None => self.with_dc(self.kv_url(key), "?"@),
        };
        self.request(Method::Put, url, BodyModel::Bytes(value))
    }

    pub open spec fn kv_delete_value(self, key: Seq<char>) -> RequestModel {
        self.request(Method::Delete, self.with_dc(self.kv_url(key), "?"@), BodyModel::Empty)
    }

    pub open spec fn kv_delete_value_at(self, key: Seq<char>, index: u64) -> RequestModel {
        self.request(Method::Delete, self.cas_url(key, index), BodyModel::Empty)
    }

    pub open spec fn kv_list_recurse(self, prefix: Seq<char>) -> RequestModel {
        self.request(
            Method::Get,
            self.with_dc(self.kv_url(prefix) + "?recurse"@, "&"@),
            BodyModel::Empty,
        )
    }
}

impl ConsulClient {
    /// A client of the agent at `address`, given whether the HTTP transport could be set up and, if
    /// not, why.
    pub fn new(
        address: String,
        token: Option<String>,
        datacenter: Option<String>,
        transport: Result<(), String>,
    ) -> (r: Result<ConsulClient, ClusterError>)
        ensures
            match transport {
                Ok(_) => r matches Ok(client) && client@ == (ClientModel {
                    address: without_trailing_slashes(address@),
                    token: text_of(token),
                    datacenter: text_of(datacenter),
                }),
                Err(e) => r matches Err(x) && x@ == Fault::Internal("reqwest client init: "@ + e@),
            },
    {
        match transport {
            Ok(_) => Ok(
                ConsulClient { address: drop_trailing_slashes(address.as_str()), token, datacenter },
            ),
            Err(e) => Err(internal("reqwest client init: ", e.as_str())),
        }
    }

    fn add_headers(&self, method: Method, url: String, timeout_secs: Option<u64>, body: Body) -> (r:
        HttpRequest)
        ensures
            r@ == (RequestModel {
                method,
                url: url@,
                token: self@.token,
                timeout_secs,
                body: body@,
            }),
    {
        HttpRequest { method, url, token: copy_text(&self.token), timeout_secs, body }
    }

    fn push_dc(&self, url: &mut String, separator: &str)
        ensures
            final(url)@ == self@.with_dc(old(url)@, separator@),
    {
        match &self.datacenter {
            Some(dc) => {
                url.append(separator);
                url.append("dc=");
                url.append(dc.as_str());
            },
            None => {},
        }
    }

    fn path(&self, path: &str, name: &str) -> (r: String)
        ensures
            r@ == self@.address + path@ + name@,
    {
        let mut url = self.address.clone();
        url.append(path);
        url.append(name);
        url
    }

    fn kv_path(&self, key: &str) -> (r: String)
        ensures
            r@ == self@.kv_url(key@),
    {
        self.path("/v1/kv/", url_escape(key).as_str())
    }

    /// `GET /v1/catalog/service/<name>`: every instance of the service in the catalog.
    pub fn catalog_service(&self, service_name: &str) -> (r: HttpRequest)
        ensures
            r@ == self@.catalog_service(service_name@),
    {
        let mut url = self.path("/v1/catalog/service/", service_name);
        self.push_dc(&mut url, "?");
        self.add_headers(Method::Get, url, None, Body::Empty)
    }

    /// `PUT /v1/event/fire/<topic>`: publishes a payload. Delivery is best effort.
    pub fn fire_event(&self, topic: &str, payload: Vec<u8>) -> (r: HttpRequest)
        ensures
            r@ == self@.fire_event(topic@, payload@),
    {
        let mut url = self.path("/v1/event/fire/", topic);
        self.push_dc(&mut url, "?");
        self.add_headers(Method::Put, url, None, Body::Bytes(payload))
    }

    /// `GET /v1/catalog/service/<name>?index=N&wait=Ns`: the same listing as
    /// [`Self::catalog_service`], held back by Consul until the catalog has changed since `index`.
    pub fn catalog_service_blocking(&self, service_name: &str, index: u64, wait_seconds: u64) -> (r:
        HttpRequest)
        requires
            wait_seconds + POLL_GRACE_SECS <= u64::MAX,
        ensures
            r@ == self@.catalog_service_blocking(service_name@, index, wait_seconds),
    {
        let mut url = self.path("/v1/catalog/service/", service_name);
        url.append("?index=");
        push_decimal(&mut url, index);
        url.append("&wait=");
        push_decimal(&mut url, wait_seconds);
        url.append("s");
        self.push_dc(&mut url, "&");
        self.add_headers(Method::Get, url, Some(wait_seconds + POLL_GRACE_SECS), Body::Empty)
    }

    /// `GET /v1/event/list?name=<topic>&index=N&wait=Ns`: long-poll for events. Consul sends known
    /// events again; telling them apart is up to the subscriber.
    pub fn list_events(&self, topic: &str, index: u64, wait_seconds: u64) -> (r: HttpRequest)
        requires
            wait_seconds + POLL_GRACE_SECS <= u64::MAX,
        ensures
            r@ == self@.list_events(topic@, index, wait_seconds),
    {
        let mut url = self.path("/v1/event/list?name=", topic);
        url.append("&index=");
        push_decimal(&mut url, index);
        url.append("&wait=");
        push_decimal(&mut url, wait_seconds);
        url.append("s");
        self.push_dc(&mut url, "&");
        self.add_headers(Method::Get, url, Some(wait_seconds + POLL_GRACE_SECS), Body::Empty)
    }

    /// `PUT /v1/session/create`: a session that Consul ends after its TTL unless it is renewed.
    pub fn session_create(&self, name: &str, ttl_seconds: u64, behavior: SessionBehavior) -> (r:
        HttpRequest)
        ensures
            r@ == self@.session_create(name@, ttl_seconds, behavior),
    {
        let mut url = self.address.clone();
        url.append("/v1/session/create");
        self.push_dc(&mut url, "?");
        let mut ttl = String::new();
        push_decimal(&mut ttl, ttl_seconds);
        assert(ttl@ =~= decimal(ttl_seconds as nat));
        ttl.append("s");
        let body = SessionCreateBody {
            name: name.to_owned(),
            ttl,
            behavior: behavior.as_str().to_owned(),
            lock_delay: "0s".to_owned(),
        };
        self.add_headers(Method::Put, url, None, Body::Session(body))
    }

    /// `PUT /v1/session/renew/<id>`: extends a session by its TTL.
    pub fn session_renew(&self, session_id: &str) -> (r: HttpRequest)
        ensures
            r@ == self@.session_renew(session_id@),
    {
        let mut url = self.path("/v1/session/renew/", session_id);
        self.push_dc(&mut url, "?");
        self.add_headers(Method::Put, url, None, Body::Empty)
    }

    /// `PUT /v1/session/destroy/<id>`: ends a session.
    pub fn session_destroy(&self, session_id: &str) -> (r: HttpRequest)
        ensures
            r@ == self@.session_destroy(session_id@),
    {
        let mut url = self.path("/v1/session/destroy/", session_id);
        self.push_dc(&mut url, "?");
        self.add_headers(Method::Put, url, None, Body::Empty)
    }

    /// `PUT /v1/kv/<key>?acquire=<id>`: takes a lock for a session.
    pub fn kv_acquire(&self, key: &str, session_id: &str, value: Vec<u8>) -> (r: HttpRequest)
        ensures
            r@ == self@.kv_acquire(key@, session_id@, value@),
    {
        let mut url = self.kv_path(key);
        url.append("?acquire=");
        url.append(session_id);
        self.push_dc(&mut url, "&");
        self.add_headers(Method::Put, url, None, Body::Bytes(value))
    }

    /// `PUT /v1/kv/<key>?release=<id>`: gives a lock back.
    pub fn kv_release(&self, key: &str, session_id: &str) -> (r: HttpRequest)
        ensures
            r@ == self@.kv_release(key@, session_id@),
    {
        let mut url = self.kv_path(key);
        url.append("?release=");
        url.append(session_id);
        self.push_dc(&mut url, "&");
        self.add_headers(Method::Put, url, None, Body::Empty)
    }

    /// `GET /v1/kv/<key>`: a value and its version.
    pub fn kv_get_value(&self, key: &str) -> (r: HttpRequest)
        ensures
            r@ == self@.kv_get_value(key@),
    {
        let mut url = self.kv_path(key);
        self.push_dc(&mut url, "?");
        self.add_headers(Method::Get, url, None, Body::Empty)
    }

    /// `PUT /v1/kv/<key>`: writes a value. With `cas`, Consul writes only if the version of the key
    /// is that index, where zero stands for a key that does not exist. Without it, the last writer
    /// wins.
    pub fn kv_put_value(&self, key: &str, value: Vec<u8>, cas: Option<u64>) -> (r: HttpRequest)
        ensures
            r@ == self@.kv_put_value(key@, value@, cas),
    {
        let mut url = self.kv_path(key);
        match cas {
            Some(index) => {
                url.append("?cas=");
                push_decimal(&mut url, index);
                self.push_dc(&mut url, "&");
            },
            None => {
                self.push_dc(&mut url, "?");
            },
        }
        self.add_headers(Method::Put, url, None, Body::Bytes(value))
    }

    /// `DELETE /v1/kv/<key>`: removes a key. Consul does not say whether it existed.
    pub fn kv_delete_value(&self, key: &str) -> (r: HttpRequest)
        ensures
            r@ == self@.kv_delete_value(key@),
    {
        let mut url = self.kv_path(key);
        self.push_dc(&mut url, "?");
        self.add_headers(Method::Delete, url, None, Body::Empty)
    }

    /// `DELETE /v1/kv/<key>?cas=<index>`: removes a key if its version is that index.
    pub fn kv_delete_value_at(&self, key: &str, index: u64) -> (r: HttpRequest)
        ensures
            r@ == self@.kv_delete_value_at(key@, index),
    {
        let mut url = self.kv_path(key);
        url.append("?cas=");
        push_decimal(&mut url, index);
        self.push_dc(&mut url, "&");
        self.add_headers(Method::Delete, url, None, Body::Empty)
    }

    /// `GET /v1/kv/<prefix>?recurse`: every key that begins with the prefix.
    pub fn kv_list_recurse(&self, prefix: &str) -> (r: HttpRequest)
        ensures
            r@ == self@.kv_list_recurse(prefix@),
    {
        let mut url = self.kv_path(prefix);
        url.append("?recurse");
        self.push_dc(&mut url, "&");
        self.add_headers(Method::Get, url, None, Body::Empty)
    }

    /// `GET /v1/kv/<key>`: the state of a lock, read back after it was acquired.
    pub fn kv_read(&self, key: &str) -> (r: HttpRequest)
        ensures
            r@ == self@.kv_get_value(key@),
    {
        let mut url = self.kv_path(key);
        self.push_dc(&mut url, "?");
        self.add_headers(Method::Get, url, None, Body::Empty)
    }
}

/// The token goes with every request.
pub proof fn every_request_carries_the_token(
    client: ClientModel,
    name: Seq<char>,
    id: Seq<char>,
    bytes: Seq<u8>,
    index: u64,
    number: u64,
    behavior: SessionBehavior,
    cas: Option<u64>,
)
    ensures
        client.catalog_service(name).token == client.token,
        client.fire_event(name, bytes).token == client.token,
        client.catalog_service_blocking(name, index, number).token == client.token,
        client.list_events(name, index, number).token == client.token,
        client.session_create(name, number, behavior).token == client.token,
        client.session_renew(id).token == client.token,
        client.session_destroy(id).token == client.token,
        client.kv_acquire(name, id, bytes).token == client.token,
        client.kv_release(name, id).token == client.token,
        client.kv_get_value(name).token == client.token,
        client.kv_put_value(name, bytes, cas).token == client.token,
        client.kv_delete_value(name).token == client.token,
        client.kv_delete_value_at(name, index).token == client.token,
        client.kv_list_recurse(name).token == client.token,
{
}

/// Requests that go by different versions of a key have different URLs.
pub proof fn versions_have_urls_of_their_own(client: ClientModel, key: Seq<char>, a: u64, b: u64)
    ensures
        client.cas_url(key, a) == client.cas_url(key, b) <==> a == b,
{
    if client.cas_url(key, a) == client.cas_url(key, b) {
        let stem = client.kv_url(key) + "?cas="@;
        let x = decimal(a as nat);
        let y = decimal(b as nat);
        let n = stem.len() as int;
        let u = client.cas_url(key, a);
        let v = client.cas_url(key, b);
        assert((stem + x).len() == n + x.len());
        assert((stem + y).len() == n + y.len());
        assert(x.len() == y.len()) by {
            if let Some(dc) = client.datacenter {
                let rest = "&"@.len() + "dc="@.len() + dc.len();
                assert(u.len() == n + x.len() + rest);
                assert(v.len() == n + y.len() + rest);
            }
        }
        assert forall|i: int| 0 <= i < x.len() implies x[i] == y[i] by {
            assert(u[n + i] == x[i]);
            assert(v[n + i] == y[i]);
        }
        assert(x =~= y);
        decimal_reads_back(a);
        decimal_reads_back(b);
    }
}

/// A copy of an optional string.
pub(crate) fn copy_text(o: &Option<String>) -> (r: Option<String>)
    ensures
        text_of(r) == text_of(*o),
{
    match o {
        Some(s) => Some(s.clone()),
        None => None,
    }
}

/// How many elements a JSON text holds, where it is an array.
pub uninterp spec fn json_array_length(text: Seq<char>) -> Option<usize>;

/// Reads a text with `serde_json::from_str` and counts with `serde_json::Value::as_array`. The
/// count, and whether the text is a JSON array at all, depend on the text alone.
#[verifier::external_body]
fn json_array_len(text: &str) -> (r: Option<usize>)
    ensures
        r == json_array_length(text@),
{
    match serde_json::from_str::<serde_json::Value>(text) {
        Ok(value) => match value.as_array() {
            Some(items) => Some(items.len()),
            None => None,
        },
        Err(_) => None,
    }
}

/// The index to continue a long-poll from: the one in the header of the reply, else the old one.
pub open spec fn next_index(header: Option<Seq<char>>, index: u64) -> u64 {
    match header {
        Some(text) => match unsigned_64(text) {
            Some(n) => n,
            None => index,
        },
        None => index,
    }
}

fn index_after(header: &Option<String>, index: u64) -> (r: u64)
    ensures
        r == next_index(text_of(*header), index),
{
    match header {
        Some(text) => match parse_u64(text.as_str()) {
            Some(n) => n,
            None => index,
        },
        None => index,
    }
}

/// What a long-poll tells: the body of its reply, and the index to continue from.
pub open spec fn polled<T>(
    sent: Sent<T>,
    index: u64,
    unreachable: Seq<char>,
    refused: Seq<char>,
    unreadable: Seq<char>,
) -> Result<(T, u64), Fault> {
    match readable(successful(sent, unreachable, refused, Refusal::Internal), unreadable) {
        Ok(v) => Ok((v, next_index(text_of(sent->Ok_0.consul_index), index))),
        Err(e) => Err(e),
    }
}

fn take_poll<T>(sent: Sent<T>, index: u64, unreachable: &str, refused: &str, unreadable: &str) -> (r:
    Result<(T, u64), ClusterError>)
    ensures
        outcome(r) == polled(sent, index, unreachable@, refused@, unreadable@),
{
    let next: u64 = match &sent {
        Ok(reply) => index_after(&reply.consul_index, index),
        Err(_) => index,
    };
    match take_body(require_success(sent, unreachable, refused, Refusal::Internal), unreadable) {
        Ok(v) => Ok((v, next)),
        Err(e) => Err(e),
    }
}

/// What a write tells: whether the text of the reply is the word for yes, with or without white
/// space around it.
pub open spec fn answered(reply: Result<String, Fault>) -> Result<bool, Fault> {
    match reply {
        Ok(text) => Ok(trimmed(text@) == "true"@),
        Err(e) => Err(e),
    }
}

fn take_answer(reply: Result<String, ClusterError>) -> (r: Result<bool, ClusterError>)
    ensures
        outcome(r) == answered(outcome(reply)),
{
    match reply {
        Ok(text) => Ok(same_text(trim_spaces(text.as_str()), "true")),
        Err(e) => Err(e),
    }
}

/// The first of some entries.
pub open spec fn first<T>(entries: Seq<T>) -> Option<T> {
    if entries.len() > 0 {
        Some(entries[0])
    } else {
        None
    }
}

fn take_first<T>(entries: Vec<T>) -> (r: Option<T>)
    ensures
        r == first(entries@),
{
    let mut entries = entries;
    if entries.len() > 0 {
        Some(entries.remove(0))
    } else {
        None
    }
}

/// What looking up a key tells: its first entry; nothing where there is no such key.
pub open spec fn looked_up<T>(
    sent: Sent<Vec<T>>,
    unreachable: Seq<char>,
    refused: Seq<char>,
    unreadable: Seq<char>,
) -> Result<Option<T>, Fault> {
    if sent is Ok && sent->Ok_0.status == NOT_FOUND {
        Ok(None)
    } else {
        match readable(successful(sent, unreachable, refused, Refusal::Internal), unreadable) {
            Ok(entries) => Ok(first(entries@)),
            Err(e) => Err(e),
        }
    }
}

fn take_lookup<T>(sent: Sent<Vec<T>>, unreachable: &str, refused: &str, unreadable: &str) -> (r:
    Result<Option<T>, ClusterError>)
    ensures
        outcome(r) == looked_up(sent, unreachable@, refused@, unreadable@),
{
    if let Ok(reply) = &sent {
        if reply.status == NOT_FOUND {
            return Ok(None);
        }
    }
    match take_body(require_success(sent, unreachable, refused, Refusal::Internal), unreadable) {
        Ok(entries) => Ok(take_first(entries)),
        Err(e) => Err(e),
    }
}

/// What the catalog lists.
pub open spec fn catalog_listing(sent: Sent<Vec<CatalogServiceEntry>>) -> Result<
    Vec<CatalogServiceEntry>,
    Fault,
> {
    readable(
        successful(sent, "catalog request: "@, "catalog status "@, Refusal::Internal),
        "catalog json decode: "@,
    )
}

/// What became of an event that was to be fired.
pub open spec fn fired(sent: Sent<()>) -> Result<(), Fault> {
    match successful(sent, "event fire: "@, "event fire status "@, Refusal::Internal) {
        Ok(_) => Ok(()),
        Err(e) => Err(e),
    }
}

/// What a long-poll of the catalog tells.
pub open spec fn catalog_change(sent: Sent<Vec<CatalogServiceEntry>>, index: u64) -> Result<
    (Vec<CatalogServiceEntry>, u64),
    Fault,
> {
    polled(
        sent,
        index,
        "catalog blocking: "@,
        "catalog blocking status "@,
        "catalog blocking json: "@,
    )
}

/// What a long-poll for events tells.
pub open spec fn events_change(sent: Sent<Vec<UserEvent>>, index: u64) -> Result<
    (Vec<UserEvent>, u64),
    Fault,
> {
    polled(sent, index, "event list: "@, "event list status "@, "event list json: "@)
}

/// The id of a session that was to be created.
pub open spec fn session_created(sent: Sent<String>) -> Result<String, Fault> {
    readable(
        successful(sent, "session_create: "@, "session_create status "@, Refusal::Unavailable),
        "session_create json: "@,
    )
}

/// Whether the text of a renewal names a session: anything but a JSON array with something in it
/// does not.
pub open spec fn names_session(length: Option<usize>) -> bool {
    match length {
        Some(n) => n > 0,
        None => false,
    }
}

/// What became of a session that was to be renewed. It is gone where Consul does not find it, or
/// where the reply names none.
pub open spec fn session_renewed(sent: Sent<String>) -> Result<(), Fault> {
    if sent is Ok && sent->Ok_0.status == NOT_FOUND {
        Err(Fault::LeaseExpired)
    } else {
        match readable(
            successful(sent, "session_renew: "@, "session_renew status "@, Refusal::Unavailable),
            "session_renew read body: "@,
        ) {
            Ok(text) => if names_session(json_array_length(text@)) {
                Ok(())
            } else {
                Err(Fault::LeaseExpired)
            },
            Err(e) => Err(e),
        }
    }
}

/// What became of a session that was to be destroyed. Whatever Consul answers, the session is done
/// with.
pub open spec fn session_destroyed(sent: Sent<()>) -> Result<(), Fault> {
    match sent {
        Ok(_) => Ok(()),
        Err(e) => Err(Fault::BackendUnavailable("session_destroy: "@ + e@)),
    }
}

/// Whether a lock was acquired. It was not where another session holds it.
pub open spec fn key_acquired(sent: Sent<String>) -> Result<bool, Fault> {
    answered(
        readable(
            successful(sent, "kv_acquire: "@, "kv_acquire status "@, Refusal::Unavailable),
            "kv_acquire body: "@,
        ),
    )
}

/// Whether a lock was released. It was not where the session did not hold it any more.
pub open spec fn key_released(sent: Sent<String>) -> Result<bool, Fault> {
    match sent {
        Err(e) => Err(Fault::BackendUnavailable("kv_release: "@ + e@)),
        Ok(reply) => if is_success(reply.status) {
            answered(readable(Ok(reply), "kv_release body: "@))
        } else {
            Ok(false)
        },
    }
}

/// The entry of a key, where it exists.
pub open spec fn value_found(sent: Sent<Vec<KvValueEntry>>) -> Result<Option<KvValueEntry>, Fault> {
    looked_up(sent, "kv_get: "@, "kv_get status "@, "kv_get json: "@)
}

/// Whether a write took effect. It did not where the version of the key was another one.
pub open spec fn value_written(sent: Sent<String>) -> Result<bool, Fault> {
    answered(
        readable(
            successful(sent, "kv_put: "@, "kv_put status "@, Refusal::Unavailable),
            "kv_put body: "@,
        ),
    )
}

/// What became of a key that was to be deleted.
pub open spec fn value_deleted(sent: Sent<()>) -> Result<(), Fault> {
    match successful(sent, "kv_delete: "@, "kv_delete status "@, Refusal::Unavailable) {
        Ok(_) => Ok(()),
        Err(e) => Err(e),
    }
}

/// The entries under a prefix: none where Consul finds none.
pub open spec fn values_listed(sent: Sent<Vec<KvValueEntry>>) -> Result<Seq<KvValueEntry>, Fault> {
    if sent is Ok && sent->Ok_0.status == NOT_FOUND {
        Ok(Seq::empty())
    } else {
        match readable(
            successful(sent, "kv_list: "@, "kv_list status "@, Refusal::Internal),
            "kv_list json: "@,
        ) {
            Ok(entries) => Ok(entries@),
            Err(e) => Err(e),
        }
    }
}

/// The state of a lock that was read back.
pub open spec fn lock_read(sent: Sent<Vec<KvEntry>>) -> Result<Option<KvEntry>, Fault> {
    looked_up(sent, "kv_read: "@, "kv_read status "@, "kv_read json: "@)
}

impl ConsulClient {
    /// Reads the reply to [`Self::catalog_service`].
    pub fn catalog_service_reply(sent: Sent<Vec<CatalogServiceEntry>>) -> (r: Result<
        Vec<CatalogServiceEntry>,
        ClusterError,
    >)
        ensures
            outcome(r) == catalog_listing(sent),
    {
        take_body(
            require_success(sent, "catalog request: ", "catalog status ", Refusal::Internal),
            "catalog json decode: ",
        )
    }

    /// Reads the reply to [`Self::fire_event`].
    pub fn fire_event_reply(sent: Sent<()>) -> (r: Result<(), ClusterError>)
        ensures
            outcome(r) == fired(sent),
    {
        match require_success(sent, "event fire: ", "event fire status ", Refusal::Internal) {
            Ok(_) => Ok(()),
            Err(e) => Err(e),
        }
    }

    /// Reads the reply to [`Self::catalog_service_blocking`]: the listing, and the index to poll
    /// from next.
    pub fn catalog_service_blocking_reply(sent: Sent<Vec<CatalogServiceEntry>>, index: u64) -> (r:
        Result<(Vec<CatalogServiceEntry>, u64), ClusterError>)
        ensures
            outcome(r) == catalog_change(sent, index),
    {
        take_poll(
            sent,
            index,
            "catalog blocking: ",
            "catalog blocking status ",
            "catalog blocking json: ",
        )
    }

    /// Reads the reply to [`Self::list_events`]: the events, and the index to poll from next.
    pub fn list_events_reply(sent: Sent<Vec<UserEvent>>, index: u64) -> (r: Result<
        (Vec<UserEvent>, u64),
        ClusterError,
    >)
        ensures
            outcome(r) == events_change(sent, index),
    {
        take_poll(sent, index, "event list: ", "event list status ", "event list json: ")
    }

    /// Reads the reply to [`Self::session_create`]: the id of the session.
    pub fn session_create_reply(sent: Sent<String>) -> (r: Result<String, ClusterError>)
        ensures
            outcome(r) == session_created(sent),
    {
        take_body(
            require_success(
                sent,
                "session_create: ",
                "session_create status ",
                Refusal::Unavailable,
            ),
            "session_create json: ",
        )
    }

    /// Whether a renewal went through, given how many sessions its reply names, if it is a list of
    /// sessions at all.
    pub fn session_renew_verdict(length: Option<usize>) -> (r: Result<(), ClusterError>)
        ensures
            outcome(r) == if names_session(length) {
                Ok(())
            } else {
                Err(Fault::LeaseExpired)
            },
    {
        match length {
            Some(n) => if n > 0 {
                Ok(())
            } else {
                Err(ClusterError::LeaseExpired)
            },
            None => Err(ClusterError::LeaseExpired),
        }
    }

    /// Reads the reply to [`Self::session_renew`].
    pub fn session_renew_reply(sent: Sent<String>) -> (r: Result<(), ClusterError>)
        ensures
            outcome(r) == session_renewed(sent),
    {
        if let Ok(reply) = &sent {
            if reply.status == NOT_FOUND {
                return Err(ClusterError::LeaseExpired);
            }
        }
        match take_body(
            require_success(sent, "session_renew: ", "session_renew status ", Refusal::Unavailable),
            "session_renew read body: ",
        ) {
            Ok(text) => Self::session_renew_verdict(json_array_len(text.as_str())),
            Err(e) => Err(e),
        }
    }

    /// Reads the reply to [`Self::session_destroy`].
    pub fn session_destroy_reply(sent: Sent<()>) -> (r: Result<(), ClusterError>)
        ensures
            outcome(r) == session_destroyed(sent),
    {
        match sent {
            Ok(_) => Ok(()),
            Err(e) => Err(unavailable("session_destroy: ", e.as_str())),
        }
    }

    /// Reads the reply to [`Self::kv_acquire`].
    pub fn kv_acquire_reply(sent: Sent<String>) -> (r: Result<bool, ClusterError>)
        ensures
            outcome(r) == key_acquired(sent),
    {
        take_answer(
            take_body(
                require_success(sent, "kv_acquire: ", "kv_acquire status ", Refusal::Unavailable),
                "kv_acquire body: ",
            ),
        )
    }

    /// Reads the reply to [`Self::kv_release`].
    pub fn kv_release_reply(sent: Sent<String>) -> (r: Result<bool, ClusterError>)
        ensures
            outcome(r) == key_released(sent),
    {
        match sent {
            Err(e) => Err(unavailable("kv_release: ", e.as_str())),
            Ok(reply) => if succeeded(reply.status) {
                take_answer(take_body(Ok(reply), "kv_release body: "))
            } else {
                Ok(false)
            },
        }
    }

    /// Reads the reply to [`Self::kv_get_value`].
    pub fn kv_get_value_reply(sent: Sent<Vec<KvValueEntry>>) -> (r: Result<
        Option<KvValueEntry>,
        ClusterError,
    >)
        ensures
            outcome(r) == value_found(sent),
    {
        take_lookup(sent, "kv_get: ", "kv_get status ", "kv_get json: ")
    }

    /// Reads the reply to [`Self::kv_put_value`].
    pub fn kv_put_value_reply(sent: Sent<String>) -> (r: Result<bool, ClusterError>)
        ensures
            outcome(r) == value_written(sent),
    {
        take_answer(
            take_body(
                require_success(sent, "kv_put: ", "kv_put status ", Refusal::Unavailable),
                "kv_put body: ",
            ),
        )
    }

    /// Reads the reply to [`Self::kv_delete_value`].
    pub fn kv_delete_value_reply(sent: Sent<()>) -> (r: Result<(), ClusterError>)
        ensures
            outcome(r) == value_deleted(sent),
    {
        match require_success(sent, "kv_delete: ", "kv_delete status ", Refusal::Unavailable) {
            Ok(_) => Ok(()),
            Err(e) => Err(e),
        }
    }

    /// Reads the reply to [`Self::kv_list_recurse`].
    pub fn kv_list_recurse_reply(sent: Sent<Vec<KvValueEntry>>) -> (r: Result<
        Vec<KvValueEntry>,
        ClusterError,
    >)
        ensures
            match r {
                Ok(entries) => values_listed(sent) == Ok::<Seq<KvValueEntry>, Fault>(entries@),
                Err(e) => values_listed(sent) == Err::<Seq<KvValueEntry>, Fault>(e@),
            },
    {
        if let Ok(reply) = &sent {
            if reply.status == NOT_FOUND {
                return Ok(Vec::new());
            }
        }
        take_body(
            require_success(sent, "kv_list: ", "kv_list status ", Refusal::Internal),
            "kv_list json: ",
        )
    }

    /// Reads the reply to [`Self::kv_read`].
    pub fn kv_read_reply(sent: Sent<Vec<KvEntry>>) -> (r: Result<Option<KvEntry>, ClusterError>)
        ensures
            outcome(r) == lock_read(sent),
    {
        take_lookup(sent, "kv_read: ", "kv_read status ", "kv_read json: ")
    }
}

/// A base64 field carries all the bytes that its text stands for, however many they are; it carries
/// none where it is absent or its text stands for none.
pub proof fn a_field_carries_all_its_bytes(text: Seq<char>)
    ensures
        base64_bytes(text) matches Some(bytes) ==> carried(Some(text)) == bytes,
        base64_bytes(text) is None ==> carried(Some(text)).len() == 0,
        carried(None).len() == 0,
{
}

proof fn lemma_dc(client: ClientModel, url: Seq<char>)
    ensures
        client.with_dc(url, "?"@) == url + match client.datacenter {
            Some(dc) => "?dc="@ + dc,
            None => Seq::empty(),
        },
        client.with_dc(url, "&"@) == url + match client.datacenter {
            Some(dc) => "&dc="@ + dc,
            None => Seq::empty(),
        },
{
    reveal_strlit("?");
    reveal_strlit("&");
    reveal_strlit("dc=");
    reveal_strlit("?dc=");
    reveal_strlit("&dc=");
    match client.datacenter {
        Some(dc) => {
            assert(url + "?"@ + "dc="@ + dc =~= url + ("?dc="@ + dc));
            assert(url + "&"@ + "dc="@ + dc =~= url + ("&dc="@ + dc));
        },
        None => {
            assert(url + Seq::<char>::empty() =~= url);
        },
    }
}

/// The requests are those of the Consul HTTP API: method, path, query, body and, for a long-poll, half
/// a minute more than the wait. Each goes to the address of the client with its token, and names its
/// datacenter as the first or the next parameter of the query. Names and ids stand in the URL whole;
/// a key loses its leading slashes.
pub proof fn requests_follow_the_api(
    client: ClientModel,
    name: Seq<char>,
    id: Seq<char>,
    bytes: Seq<u8>,
    index: u64,
    wait: u64,
)
    ensures
        ({
            let first = match client.datacenter {
                Some(dc) => "?dc="@ + dc,
                None => Seq::empty(),
            };
            let next = match client.datacenter {
                Some(dc) => "&dc="@ + dc,
                None => Seq::empty(),
            };
            let kv = client.address + "/v1/kv/"@ + without_leading_slashes(name);
            &&& client.catalog_service(name) == (RequestModel {
                method: Method::Get,
                url: client.address + "/v1/catalog/service/"@ + name + first,
                token: client.token,
                timeout_secs: None,
                body: BodyModel::Empty,
            })
            &&& client.fire_event(name, bytes) == (RequestModel {
                method: Method::Put,
                url: client.address + "/v1/event/fire/"@ + name + first,
                token: client.token,
                timeout_secs: None,
                body: BodyModel::Bytes(bytes),
            })
            &&& client.catalog_service_blocking(name, index, wait) == (RequestModel {
                method: Method::Get,
                url: client.address + "/v1/catalog/service/"@ + name + "?index="@ + decimal(index as nat) + "&wait="@ + decimal(wait as nat) + "s"@ + next,
                token: client.token,
                timeout_secs: Some((wait + 30) as u64),
                body: BodyModel::Empty,
            })
            &&& client.list_events(name, index, wait) == (RequestModel {
                method: Method::Get,
                url: client.address + "/v1/event/list?name="@ + name + "&index="@ + decimal(index as nat) + "&wait="@ + decimal(wait as nat) + "s"@ + next,
                token: client.token,
                timeout_secs: Some((wait + 30) as u64),
                body: BodyModel::Empty,
            })
            &&& client.session_renew(id) == (RequestModel {
                method: Method::Put,
                url: client.address + "/v1/session/renew/"@ + id + first,
                token: client.token,
                timeout_secs: None,
                body: BodyModel::Empty,
            })
            &&& client.session_destroy(id) == (RequestModel {
                method: Method::Put,
                url: client.address + "/v1/session/destroy/"@ + id + first,
                token: client.token,
                timeout_secs: None,
                body: BodyModel::Empty,
            })
            &&& client.kv_acquire(name, id, bytes) == (RequestModel {
                method: Method::Put,
                url: kv + "?acquire="@ + id + next,
                token: client.token,
                timeout_secs: None,
                body: BodyModel::Bytes(bytes),
            })
            &&& client.kv_release(name, id) == (RequestModel {
                method: Method::Put,
                url: kv + "?release="@ + id + next,
                token: client.token,
                timeout_secs: None,
                body: BodyModel::Empty,
            })
            &&& client.kv_get_value(name) == (RequestModel {
                method: Method::Get,
                url: kv + first,
                token: client.token,
                timeout_secs: None,
                body: BodyModel::Empty,
            })
            &&& client.kv_put_value(name, bytes, None) == (RequestModel {
                method: Method::Put,
                url: kv + first,
                token: client.token,
                timeout_secs: None,
                body: BodyModel::Bytes(bytes),
            })
            &&& client.kv_put_value(name, bytes, Some(index)) == (RequestModel {
                method: Method::Put,
                url: kv + "?cas="@ + decimal(index as nat) + next,
                token: client.token,
                timeout_secs: None,
                body: BodyModel::Bytes(bytes),
            })
            &&& client.kv_delete_value(name) == (RequestModel {
                method: Method::Delete,
                url: kv + first,
                token: client.token,
                timeout_secs: None,
                body: BodyModel::Empty,
            })
            &&& client.kv_delete_value_at(name, index) == (RequestModel {
                method: Method::Delete,
                url: kv + "?cas="@ + decimal(index as nat) + next,
                token: client.token,
                timeout_secs: None,
                body: BodyModel::Empty,
            })
            &&& client.kv_list_recurse(name) == (RequestModel {
                method: Method::Get,
                url: kv + "?recurse"@ + next,
                token: client.token,
                timeout_secs: None,
                body: BodyModel::Empty,
            })
        }),
{
    let kv = client.address + "/v1/kv/"@ + without_leading_slashes(name);
    lemma_dc(client, client.address + "/v1/catalog/service/"@ + name);
    lemma_dc(client, client.address + "/v1/event/fire/"@ + name);
    lemma_dc(client, client.address + "/v1/catalog/service/"@ + name + "?index="@ + decimal(index as nat) + "&wait="@ + decimal(wait as nat) + "s"@);
    lemma_dc(client, client.address + "/v1/event/list?name="@ + name + "&index="@ + decimal(index as nat) + "&wait="@ + decimal(wait as nat) + "s"@);
    lemma_dc(client, client.address + "/v1/session/renew/"@ + id);
    lemma_dc(client, client.address + "/v1/session/destroy/"@ + id);
    lemma_dc(client, kv + "?acquire="@ + id);
    lemma_dc(client, kv + "?release="@ + id);
    lemma_dc(client, kv);
    lemma_dc(client, kv);
    lemma_dc(client, kv + "?cas="@ + decimal(index as nat));
    lemma_dc(client, kv);
    lemma_dc(client, kv + "?cas="@ + decimal(index as nat));
    lemma_dc(client, kv + "?recurse"@);
}

/// A session is asked for by its name, with its TTL in whole seconds, what becomes of its locks, and
/// no delay before they can be taken again.
pub proof fn sessions_are_asked_for_as_described(client: ClientModel, name: Seq<char>, secs: u64)
    ensures
        ({
            let first = match client.datacenter {
                Some(dc) => "?dc="@ + dc,
                None => Seq::empty(),
            };
            let asked = |behavior: SessionBehavior, word: Seq<char>| client.session_create(
                name,
                secs,
                behavior,
            ) == (RequestModel {
                method: Method::Put,
                url: client.address + "/v1/session/create"@ + first,
                token: client.token,
                timeout_secs: None,
                body: BodyModel::Session {
                    name,
                    ttl: decimal(secs as nat) + "s"@,
                    behavior: word,
                    lock_delay: "0s"@,
                },
            });
            &&& asked(SessionBehavior::Release, "release"@)
            &&& asked(SessionBehavior::Delete, "delete"@)
        }),
{
    lemma_dc(client, client.address + "/v1/session/create"@);
}

/// A long-poll goes on from the number that the index header of the reply writes, and from where it
/// was without such a number.
pub proof fn polls_go_on_from_the_header(n: u64, header: Seq<char>, index: u64)
    ensures
        next_index(Some(decimal(n as nat)), index) == n,
        unsigned(header) == Some(n as nat) ==> next_index(Some(header), index) == n,
        unsigned(header) is None ==> next_index(Some(header), index) == index,
        unsigned(header) matches Some(m) && m > 0xffff_ffff_ffff_ffff ==> next_index(Some(header), index)
            == index,
        next_index(None, index) == index,
{
    decimal_reads_back(n);
}

/// A write is answered with yes exactly where the text of the reply is `true` with nothing but white
/// space around it.
pub proof fn yes_is_true_between_white_space(text: String) -> (ends: (int, int))
    ensures
        0 <= ends.0 <= ends.1 <= text@.len(),
        forall|i: int| 0 <= i < ends.0 || ends.1 <= i < text@.len() ==> is_space(#[trigger] text@[i]),
        ends.0 < ends.1 ==> !is_space(text@[ends.0]) && !is_space(text@[ends.1 - 1]),
        answered(Ok(text)) == Ok::<bool, Fault>(text@.subrange(ends.0, ends.1) == seq!['t', 'r', 'u', 'e']),
{
    reveal_strlit("true");
    assert("true"@ =~= seq!['t', 'r', 'u', 'e']);
    trimming_takes_white_space_from_the_ends(text@)
}

/// The first of some entries is handed out, if there is any.
pub proof fn the_first_entry_is_taken<T>(entry: T, rest: Seq<T>)
    ensures
        first(seq![entry] + rest) == Some(entry),
        first(Seq::<T>::empty()) is None,
{
    assert((seq![entry] + rest)[0] == entry);
}

/// A listing of the catalog is what the body of a reply of success holds; every failure says where it
/// came from.
pub proof fn catalog_replies_mean(sent: Sent<Vec<CatalogServiceEntry>>, index: u64)
    ensures
        catalog_listing(sent) == match sent {
            Err(e) => Err(Fault::BackendUnavailable("catalog request: "@ + e@)),
            Ok(reply) => if reply.status / 100 != 2 {
                Err(Fault::Internal("catalog status "@ + status_text(reply.status)))
            } else {
                match reply.body {
                    Ok(entries) => Ok(entries),
                    Err(e) => Err(Fault::Internal("catalog json decode: "@ + e@)),
                }
            },
        },
        catalog_change(sent, index) == match sent {
            Err(e) => Err(Fault::BackendUnavailable("catalog blocking: "@ + e@)),
            Ok(reply) => if reply.status / 100 != 2 {
                Err(Fault::Internal("catalog blocking status "@ + status_text(reply.status)))
            } else {
                match reply.body {
                    Ok(entries) => Ok((entries, next_index(text_of(reply.consul_index), index))),
                    Err(e) => Err(Fault::Internal("catalog blocking json: "@ + e@)),
                }
            },
        },
{
}

/// An event was fired where the reply reports success; a poll for events gives what its body holds.
pub proof fn event_replies_mean(fired_sent: Sent<()>, sent: Sent<Vec<UserEvent>>, index: u64)
    ensures
        fired(fired_sent) == match fired_sent {
            Err(e) => Err(Fault::BackendUnavailable("event fire: "@ + e@)),
            Ok(reply) => if reply.status / 100 == 2 {
                Ok(())
            } else {
                Err(Fault::Internal("event fire status "@ + status_text(reply.status)))
            },
        },
        events_change(sent, index) == match sent {
            Err(e) => Err(Fault::BackendUnavailable("event list: "@ + e@)),
            Ok(reply) => if reply.status / 100 != 2 {
                Err(Fault::Internal("event list status "@ + status_text(reply.status)))
            } else {
                match reply.body {
                    Ok(events) => Ok((events, next_index(text_of(reply.consul_index), index))),
                    Err(e) => Err(Fault::Internal("event list json: "@ + e@)),
                }
            },
        },
{
}

/// A session has the id that the reply names. It is renewed where the reply is a list with at least one
/// session; it is gone where Consul does not find it or names none. It is done with once Consul has
/// answered that it be destroyed, whatever it answered.
pub proof fn session_replies_mean(created: Sent<String>, renewed: Sent<String>, destroyed: Sent<()>)
    ensures
        session_created(created) == match created {
            Err(e) => Err(Fault::BackendUnavailable("session_create: "@ + e@)),
            Ok(reply) => if reply.status / 100 != 2 {
                Err(Fault::BackendUnavailable("session_create status "@ + status_text(reply.status)))
            } else {
                match reply.body {
                    Ok(id) => Ok(id),
                    Err(e) => Err(Fault::Internal("session_create json: "@ + e@)),
                }
            },
        },
        session_renewed(renewed) == match renewed {
            Err(e) => Err(Fault::BackendUnavailable("session_renew: "@ + e@)),
            Ok(reply) => if reply.status == 404 {
                Err(Fault::LeaseExpired)
            } else if reply.status / 100 != 2 {
                Err(Fault::BackendUnavailable("session_renew status "@ + status_text(reply.status)))
            } else {
                match reply.body {
                    Err(e) => Err(Fault::Internal("session_renew read body: "@ + e@)),
                    Ok(text) => match json_array_length(text@) {
                        Some(n) if n >= 1 => Ok(()),
                        _ => Err(Fault::LeaseExpired),
                    },
                }
            },
        },
        session_destroyed(destroyed) == match destroyed {
            Err(e) => Err(Fault::BackendUnavailable("session_destroy: "@ + e@)),
            Ok(_) => Ok(()),
        },
{
}

/// A lock is acquired, or given back, where the reply says yes. To be refused is an error when it is
/// acquired, and a no when it is given back.
pub proof fn lock_replies_mean(sent: Sent<String>, read: Sent<Vec<KvEntry>>)
    ensures
        key_acquired(sent) == match sent {
            Err(e) => Err(Fault::BackendUnavailable("kv_acquire: "@ + e@)),
            Ok(reply) => if reply.status / 100 != 2 {
                Err(Fault::BackendUnavailable("kv_acquire status "@ + status_text(reply.status)))
            } else {
                match reply.body {
                    Ok(text) => answered(Ok(text)),
                    Err(e) => Err(Fault::Internal("kv_acquire body: "@ + e@)),
                }
            },
        },
        key_released(sent) == match sent {
            Err(e) => Err(Fault::BackendUnavailable("kv_release: "@ + e@)),
            Ok(reply) => if reply.status / 100 != 2 {
                Ok(false)
            } else {
                match reply.body {
                    Ok(text) => answered(Ok(text)),
                    Err(e) => Err(Fault::Internal("kv_release body: "@ + e@)),
                }
            },
        },
        lock_read(read) == match read {
            Err(e) => Err(Fault::BackendUnavailable("kv_read: "@ + e@)),
            Ok(reply) => if reply.status == 404 {
                Ok(None)
            } else if reply.status / 100 != 2 {
                Err(Fault::Internal("kv_read status "@ + status_text(reply.status)))
            } else {
                match reply.body {
                    Ok(entries) => Ok(
                        if entries@.len() == 0 {
                            None
                        } else {
                            Some(entries@[0])
                        },
                    ),
                    Err(e) => Err(Fault::Internal("kv_read json: "@ + e@)),
                }
            },
        },
{
}

/// A value is the first entry of the reply, and there is none where Consul finds none. A write took
/// effect where the reply says yes; a key was deleted where the reply reports success; a listing is all
/// that the reply holds.
pub proof fn value_replies_mean(values: Sent<Vec<KvValueEntry>>, put: Sent<String>, deleted: Sent<()>)
    ensures
        value_found(values) == match values {
            Err(e) => Err(Fault::BackendUnavailable("kv_get: "@ + e@)),
            Ok(reply) => if reply.status == 404 {
                Ok(None)
            } else if reply.status / 100 != 2 {
                Err(Fault::Internal("kv_get status "@ + status_text(reply.status)))
            } else {
                match reply.body {
                    Ok(entries) => Ok(
                        if entries@.len() == 0 {
                            None
                        } else {
                            Some(entries@[0])
                        },
                    ),
                    Err(e) => Err(Fault::Internal("kv_get json: "@ + e@)),
                }
            },
        },
        value_written(put) == match put {
            Err(e) => Err(Fault::BackendUnavailable("kv_put: "@ + e@)),
            Ok(reply) => if reply.status / 100 != 2 {
                Err(Fault::BackendUnavailable("kv_put status "@ + status_text(reply.status)))
            } else {
                match reply.body {
                    Ok(text) => answered(Ok(text)),
                    Err(e) => Err(Fault::Internal("kv_put body: "@ + e@)),
                }
            },
        },
        value_deleted(deleted) == match deleted {
            Err(e) => Err(Fault::BackendUnavailable("kv_delete: "@ + e@)),
            Ok(reply) => if reply.status / 100 == 2 {
                Ok(())
            } else {
                Err(Fault::BackendUnavailable("kv_delete status "@ + status_text(reply.status)))
            },
        },
        values_listed(values) == match values {
            Err(e) => Err(Fault::BackendUnavailable("kv_list: "@ + e@)),
            Ok(reply) => if reply.status == 404 {
                Ok(Seq::empty())
            } else if reply.status / 100 != 2 {
                Err(Fault::Internal("kv_list status "@ + status_text(reply.status)))
            } else {
                match reply.body {
                    Ok(entries) => Ok(entries@),
                    Err(e) => Err(Fault::Internal("kv_list json: "@ + e@)),
                }
            },
        },
{
}

} // verus!
