use consul_cluster::client::{ConsulClient, KvValueEntry};
use consul_cluster::envelope;
use consul_cluster::error::ClusterError;
use consul_cluster::http::{Body, HttpReply, HttpRequest, Method, Sent};
use consul_cluster::kv::{entry_at, entry_from_decoded, ClaimStep, Step};
use consul_cluster::time::{now_unix_ms, Duration};
use consul_cluster::ConsulKv;

const NOW: u64 = 1_700_000_000_000;

fn store() -> ConsulKv {
    let client =
        ConsulClient::new("http://c:8500/".to_owned(), Some("t".to_owned()), None, Ok(())).unwrap();
    ConsulKv::new(client, "mcpg/")
}

fn base64(bytes: &[u8]) -> String {
    base64::Engine::encode(&base64::engine::general_purpose::STANDARD, bytes)
}

fn entry(key: &str, modify_index: u64, bytes: &[u8]) -> KvValueEntry {
    KvValueEntry { key: key.to_owned(), modify_index, value_b64: Some(base64(bytes)) }
}

fn reply<T>(status: u16, body: T) -> Sent<T> {
    Ok(HttpReply { status, consul_index: None, body: Ok(body) })
}

fn found(bytes: &[u8]) -> Sent<Vec<KvValueEntry>> {
    reply(200, vec![entry("mcpg/kv/k", 7, bytes)])
}

fn text(s: &str) -> Sent<String> {
    reply(200, s.to_owned())
}

fn missing() -> Sent<Vec<KvValueEntry>> {
    reply(404, vec![])
}

fn unreachable_agent<T>() -> Sent<T> {
    Err("connection refused".to_owned())
}

fn bytes_of(request: &HttpRequest) -> &[u8] {
    match &request.body {
        Body::Bytes(bytes) => bytes,
        _ => panic!("a write carries bytes"),
    }
}

fn asked(step: Step) -> HttpRequest {
    match step {
        Step::Ask(request) => request,
        Step::Settled(r) => panic!("settled with {r:?}"),
    }
}

fn settled(step: Step) -> Result<bool, ClusterError> {
    match step {
        Step::Ask(request) => panic!("asks {}", request.url),
        Step::Settled(r) => r,
    }
}

#[test]
fn envelope_round_trips_without_ttl() {
    let enc = envelope::encode(b"payload", None);
    let (value, expires) = envelope::decode(&enc).unwrap();
    assert_eq!(value, b"payload");
    assert_eq!(expires, None);
}

#[test]
fn envelope_round_trips_with_ttl() {
    let enc = envelope::encode(b"payload", Some(1_700_000_000_123));
    let (value, expires) = envelope::decode(&enc).unwrap();
    assert_eq!(value, b"payload");
    assert_eq!(expires, Some(1_700_000_000_123));
}

#[test]
fn envelope_empty_value_ok() {
    let enc = envelope::encode(b"", Some(42));
    let (value, expires) = envelope::decode(&enc).unwrap();
    assert!(value.is_empty());
    assert_eq!(expires, Some(42));
}

#[test]
fn envelope_rejects_foreign_or_truncated() {
    assert!(envelope::decode(&[]).is_none());
    assert!(envelope::decode(&[0x01]).is_none());
    // Unknown version.
    assert!(envelope::decode(&[0x02, 0x00]).is_none());
    // Claims an 8-byte stamp but is truncated.
    assert!(envelope::decode(&[0x01, 0x01, 0x00, 0x00]).is_none());
}

#[test]
fn entry_from_decoded_treats_past_expiry_as_absent() {
    // Far-past stamp: logically expired.
    assert!(entry_from_decoded(b"x".to_vec(), Some(1)).is_none());
    // No expiry: present.
    assert!(entry_from_decoded(b"x".to_vec(), None).is_some());
    // Far-future stamp: present.
    let future = now_unix_ms() + 60_000;
    assert!(entry_from_decoded(b"x".to_vec(), Some(future)).is_some());
}

#[test]
fn the_envelope_is_laid_out_byte_by_byte() {
    assert_eq!(envelope::encode(b"ab", None), [1, 0, b'a', b'b']);
    assert_eq!(
        envelope::encode(b"a", Some(0x0102_0304_0506_0708)),
        [1, 1, 1, 2, 3, 4, 5, 6, 7, 8, b'a']
    );
    assert_eq!(envelope::encode(b"", Some(u64::MAX)), [1, 1, 255, 255, 255, 255, 255, 255, 255, 255]);
    assert_eq!(envelope::decode(&[1, 0]), Some((vec![], None)));
    assert_eq!(envelope::decode(&[1, 2, 0]), None);
    assert_eq!(envelope::decode(&[1, 1, 0, 0, 0, 0, 0, 0, 0]), None);
    assert_eq!(envelope::decode(&[1, 1, 0, 0, 0, 0, 0, 0, 1, 0, 9]), Some((vec![9], Some(256))));
}

#[test]
fn an_entry_lives_until_its_expiry() {
    assert!(entry_at(vec![1], Some(NOW), NOW).is_none());
    let entry = entry_at(vec![1], Some(NOW + 1), NOW).unwrap();
    assert_eq!(entry.bytes, [1]);
    assert_eq!(entry.expires_at, Some(NOW + 1));
    let entry = entry_at(vec![2], None, u64::MAX).unwrap();
    assert_eq!(entry.bytes, [2]);
    assert_eq!(entry.expires_at, None);
    // What has expired stays so.
    assert!(entry_at(vec![1], Some(NOW), NOW + 1).is_none());
}

#[test]
fn keys_are_namespaced() {
    let kv = store();
    assert_eq!(kv.key_prefix(), "mcpg/kv/");
    assert_eq!(kv.full_key("a/b"), "mcpg/kv/a/b");
    assert_eq!(kv.logical_key("mcpg/kv/a/b"), "a/b");
    assert_eq!(kv.logical_key(&kv.full_key("\u{e9}/x")), "\u{e9}/x");
    assert_eq!(kv.logical_key("other/a"), "other/a");
    assert_eq!(kv.logical_key("mcpg/kv"), "mcpg/kv");
}

#[test]
fn get_asks_and_reads() {
    let request = store().get("k");
    assert!(matches!(request.method, Method::Get));
    assert_eq!(request.url, "http://c:8500/v1/kv/mcpg/kv/k");
    assert_eq!(request.token.as_deref(), Some("t"));
    assert!(matches!(request.body, Body::Empty));

    let live = ConsulKv::get_reply(found(&envelope::encode(b"v", Some(NOW + 5))), NOW).unwrap();
    let live = live.unwrap();
    assert_eq!((live.bytes, live.expires_at), (b"v".to_vec(), Some(NOW + 5)));
    let expired = ConsulKv::get_reply(found(&envelope::encode(b"v", Some(NOW))), NOW).unwrap();
    assert!(expired.is_none());
    assert!(ConsulKv::get_reply(found(b"foreign"), NOW).unwrap().is_none());
    assert!(ConsulKv::get_reply(missing(), NOW).unwrap().is_none());
    assert!(ConsulKv::get_reply(reply(200, vec![]), NOW).unwrap().is_none());
    let no_value = KvValueEntry { key: String::new(), modify_index: 1, value_b64: None };
    assert!(ConsulKv::get_reply(reply(200, vec![no_value]), NOW).unwrap().is_none());
    let malformed =
        KvValueEntry { key: String::new(), modify_index: 1, value_b64: Some("AQ".to_owned()) };
    assert!(ConsulKv::get_reply(reply(200, vec![malformed]), NOW).unwrap().is_none());
    assert!(matches!(
        ConsulKv::get_reply(reply(500, vec![]), NOW),
        Err(ClusterError::Internal { reason }) if reason == "kv_get status 500 Internal Server Error"
    ));
    assert!(matches!(
        ConsulKv::get_reply(unreachable_agent(), NOW),
        Err(ClusterError::BackendUnavailable { reason }) if reason == "kv_get: connection refused"
    ));
}

#[test]
fn a_read_gives_back_what_a_write_wrote() {
    let kv = store();
    let request = kv.put("k", b"value", Some(Duration::from_secs(30)), NOW);
    let entry = ConsulKv::get_reply(found(bytes_of(&request)), NOW).unwrap().unwrap();
    assert_eq!(entry.bytes, b"value");
    assert_eq!(entry.expires_at, Some(NOW + 30_000));
    assert!(ConsulKv::get_reply(found(bytes_of(&request)), NOW + 30_000).unwrap().is_none());
    let request = kv.put("k", b"", None, NOW);
    let entry = ConsulKv::get_reply(found(bytes_of(&request)), u64::MAX).unwrap().unwrap();
    assert!(entry.bytes.is_empty());
    assert_eq!(entry.expires_at, None);
}

#[test]
fn what_has_expired_is_removed_when_it_is_read() {
    let kv = store();
    let request = kv.reap("k", &found(&envelope::encode(b"v", Some(NOW))), NOW).unwrap();
    assert!(matches!(request.method, Method::Delete));
    assert_eq!(request.url, "http://c:8500/v1/kv/mcpg/kv/k?cas=7");
    assert!(matches!(request.body, Body::Empty));
    // Live, without an expiry, foreign, missing, unreadable: left alone.
    assert!(kv.reap("k", &found(&envelope::encode(b"v", Some(NOW + 1))), NOW).is_none());
    assert!(kv.reap("k", &found(&envelope::encode(b"v", None)), NOW).is_none());
    assert!(kv.reap("k", &found(b"foreign"), NOW).is_none());
    assert!(kv.reap("k", &missing(), NOW).is_none());
    assert!(kv.reap("k", &reply(200, vec![]), NOW).is_none());
    let expired = || vec![entry("mcpg/kv/k", 7, &envelope::encode(b"v", Some(NOW)))];
    assert!(kv.reap("k", &reply(404, expired()), NOW).is_none());
    assert!(kv.reap("k", &reply(500, expired()), NOW).is_none());
    assert!(kv.reap("k", &unreachable_agent(), NOW).is_none());
}

#[test]
fn what_has_expired_is_removed_when_it_is_listed() {
    let kv = store();
    let all = vec![
        entry("mcpg/kv/a/1", 1, &envelope::encode(b"one", Some(NOW - 1))),
        entry("mcpg/kv/a/2", 2, &envelope::encode(b"two", Some(NOW + 1))),
        entry("mcpg/kv/a/3", 3, b"foreign"),
        entry("mcpg/kv/a/4", 4, &envelope::encode(b"four", Some(NOW))),
    ];
    let requests = kv.reap_listed(&reply(200, all), NOW);
    let urls: Vec<&str> = requests.iter().map(|request| request.url.as_str()).collect();
    assert_eq!(
        urls,
        ["http://c:8500/v1/kv/mcpg/kv/a/1?cas=1", "http://c:8500/v1/kv/mcpg/kv/a/4?cas=4"]
    );
    assert!(requests.iter().all(|request| request.method == Method::Delete));
    assert!(kv.reap_listed(&missing(), NOW).is_empty());
    assert!(kv.reap_listed(&unreachable_agent(), NOW).is_empty());
}

#[test]
fn put_overwrites() {
    let request = store().put("k", b"v", None, NOW);
    assert!(matches!(request.method, Method::Put));
    assert_eq!(request.url, "http://c:8500/v1/kv/mcpg/kv/k");
    assert_eq!(bytes_of(&request), [1, 0, b'v']);
    assert!(ConsulKv::put_reply(text("true")).is_ok());
    assert!(ConsulKv::put_reply(text("false")).is_ok());
    assert!(matches!(
        ConsulKv::put_reply(reply(503, String::new())),
        Err(ClusterError::BackendUnavailable { reason })
            if reason == "kv_put status 503 Service Unavailable"
    ));
    let unread = Ok(HttpReply { status: 200, consul_index: None, body: Err("cut off".to_owned()) });
    assert!(matches!(
        ConsulKv::put_reply(unread),
        Err(ClusterError::Internal { reason }) if reason == "kv_put body: cut off"
    ));
}

#[test]
fn a_claim_is_won_by_creating_the_key() {
    let kv = store();
    let expires = ConsulKv::expiry(Some(Duration::from_millis(1500)), NOW);
    assert_eq!(expires, Some(NOW + 1500));
    assert_eq!(ConsulKv::expiry(None, NOW), None);
    let request = kv.put_if_absent("k", b"v", expires);
    assert_eq!(request.url, "http://c:8500/v1/kv/mcpg/kv/k?cas=0");
    assert_eq!(bytes_of(&request), envelope::encode(b"v", expires));
    assert!(settled(kv.put_if_absent_created("k", text(" true\n"))).unwrap());
    let look = asked(kv.put_if_absent_created("k", text("false")));
    assert!(matches!(look.method, Method::Get));
    assert_eq!(look.url, "http://c:8500/v1/kv/mcpg/kv/k");
    assert!(settled(kv.put_if_absent_created("k", unreachable_agent())).is_err());
}

#[test]
fn a_claim_takes_what_is_absent_and_spares_the_rest() {
    let kv = store();
    let looked = |sent| kv.put_if_absent_looked("k", b"v", Some(NOW + 9), sent, NOW);
    // Gone meanwhile: created again.
    match looked(missing()) {
        ClaimStep::Create(request) => {
            assert_eq!(request.url, "http://c:8500/v1/kv/mcpg/kv/k?cas=0");
            assert_eq!(bytes_of(&request), envelope::encode(b"v", Some(NOW + 9)));
        }
        _ => panic!("expected to create the key"),
    }
    // Expired: overwritten at the version that was seen.
    match looked(found(&envelope::encode(b"old", Some(NOW)))) {
        ClaimStep::Reclaim(request) => {
            assert_eq!(request.url, "http://c:8500/v1/kv/mcpg/kv/k?cas=7");
            assert_eq!(bytes_of(&request), envelope::encode(b"v", Some(NOW + 9)));
        }
        _ => panic!("expected to overwrite the key"),
    }
    // Live, without an expiry, or foreign: left alone.
    for bytes in [
        envelope::encode(b"old", Some(NOW + 1)),
        envelope::encode(b"old", None),
        b"foreign".to_vec(),
    ] {
        assert!(matches!(looked(found(&bytes)), ClaimStep::Settled(Ok(false))));
    }
    assert!(matches!(looked(unreachable_agent()), ClaimStep::Settled(Err(_))));
    assert!(ConsulKv::put_if_absent_reply(text("true")).unwrap());
    assert!(!ConsulKv::put_if_absent_reply(text("false")).unwrap());
}

#[test]
fn a_claim_that_could_not_overwrite_looks_again() {
    let kv = store();
    assert!(settled(kv.put_if_absent_reclaimed("k", text("true"))).unwrap());
    let look = asked(kv.put_if_absent_reclaimed("k", text("false")));
    assert!(matches!(look.method, Method::Get));
    assert_eq!(look.url, "http://c:8500/v1/kv/mcpg/kv/k");
    assert!(settled(kv.put_if_absent_reclaimed("k", unreachable_agent())).is_err());
    let again = |sent| kv.put_if_absent_looked_again("k", b"v", None, sent);
    let create = asked(again(missing()));
    assert_eq!(create.url, "http://c:8500/v1/kv/mcpg/kv/k?cas=0");
    assert_eq!(bytes_of(&create), envelope::encode(b"v", None));
    assert!(!settled(again(found(&envelope::encode(b"other", None)))).unwrap());
    assert!(!settled(again(found(&envelope::encode(b"other", Some(1))))).unwrap());
    assert!(settled(again(unreachable_agent())).is_err());
}

#[test]
fn delete_tells_whether_the_key_was_there() {
    let kv = store();
    assert_eq!(kv.delete("k").url, "http://c:8500/v1/kv/mcpg/kv/k");
    let looked = |sent| kv.delete_looked("k", sent, NOW);
    let (existed, request) = looked(found(&envelope::encode(b"v", None))).unwrap();
    assert!(existed);
    assert!(matches!(request.method, Method::Delete));
    assert_eq!(request.url, "http://c:8500/v1/kv/mcpg/kv/k");
    assert!(!looked(found(&envelope::encode(b"v", Some(NOW)))).unwrap().0);
    assert!(!looked(found(b"foreign")).unwrap().0);
    assert!(!looked(missing()).unwrap().0);
    assert!(looked(unreachable_agent()).is_err());
    assert!(ConsulKv::delete_reply(true, reply(200, ())).unwrap());
    assert!(!ConsulKv::delete_reply(false, reply(200, ())).unwrap());
    assert!(matches!(
        ConsulKv::delete_reply(true, reply(403, ())),
        Err(ClusterError::BackendUnavailable { reason }) if reason == "kv_delete status 403 Forbidden"
    ));
}

#[test]
fn a_listing_shows_what_is_visible_up_to_its_limit() {
    let kv = store();
    assert_eq!(kv.list_prefix("a/").url, "http://c:8500/v1/kv/mcpg/kv/a/?recurse");
    let all = || {
        reply(
            200,
            vec![
                entry("mcpg/kv/a/1", 1, &envelope::encode(b"one", None)),
                entry("mcpg/kv/a/2", 2, &envelope::encode(b"two", Some(NOW))),
                entry("mcpg/kv/a/3", 3, b"foreign"),
                entry("mcpg/kv/a/4", 4, &envelope::encode(b"four", Some(NOW + 1))),
                entry("mcpg/kv/a/5", 5, &envelope::encode(b"five", None)),
            ],
        )
    };
    let keys = |limit: usize| -> Vec<String> {
        let items = kv.list_prefix_reply(all(), limit, NOW).unwrap();
        items.into_iter().map(|(key, _)| key).collect()
    };
    assert_eq!(keys(100), ["a/1", "a/4", "a/5"]);
    assert_eq!(keys(3), ["a/1", "a/4", "a/5"]);
    assert_eq!(keys(2), ["a/1", "a/4"]);
    assert_eq!(keys(1), ["a/1"]);
    assert_eq!(keys(0), ["a/1"]);
    let items = kv.list_prefix_reply(all(), 2, NOW).unwrap();
    assert_eq!(items[1].1.bytes, b"four");
    assert_eq!(items[1].1.expires_at, Some(NOW + 1));
    assert!(kv.list_prefix_reply(missing(), 5, NOW).unwrap().is_empty());
    assert!(matches!(
        kv.list_prefix_reply(reply(500, vec![]), 5, NOW),
        Err(ClusterError::Internal { reason }) if reason == "kv_list status 500 Internal Server Error"
    ));
}

#[test]
fn expire_keeps_the_value_and_goes_by_the_version() {
    let kv = store();
    assert_eq!(kv.expire("k").url, "http://c:8500/v1/kv/mcpg/kv/k");
    let looked = |ttl, sent| kv.expire_looked("k", ttl, sent, NOW);
    let ttl = Some(Duration::from_secs(1));
    let request = asked(looked(ttl, found(&envelope::encode(b"v", Some(NOW + 1)))));
    assert_eq!(request.url, "http://c:8500/v1/kv/mcpg/kv/k?cas=7");
    assert_eq!(bytes_of(&request), envelope::encode(b"v", Some(NOW + 1000)));
    let request = asked(looked(None, found(&envelope::encode(b"v", Some(NOW + 1)))));
    assert_eq!(bytes_of(&request), envelope::encode(b"v", None));
    assert!(!settled(looked(ttl, found(&envelope::encode(b"v", Some(NOW))))).unwrap());
    assert!(!settled(looked(ttl, found(b"foreign"))).unwrap());
    assert!(!settled(looked(ttl, missing())).unwrap());
    assert!(settled(looked(ttl, unreachable_agent())).is_err());
    assert!(ConsulKv::expire_reply(text("true")).unwrap());
    assert!(!ConsulKv::expire_reply(text("false")).unwrap());
}

/// A key in a store that keeps versions, as Consul does.
struct Held {
    newest: u64,
    value: Option<(u64, Vec<u8>)>,
}

impl Held {
    fn expired() -> Held {
        Held { newest: 3, value: Some((3, envelope::encode(b"old", Some(NOW)))) }
    }

    fn version(&self) -> u64 {
        self.value.as_ref().map_or(0, |value| value.0)
    }

    fn look(&self) -> Sent<Vec<KvValueEntry>> {
        match &self.value {
            Some((version, bytes)) => reply(200, vec![entry("mcpg/kv/k", *version, bytes)]),
            None => missing(),
        }
    }

    fn admits(&self, request: &HttpRequest) -> bool {
        request.url.ends_with(&format!("?cas={}", self.version()))
    }

    fn write(&mut self, request: &HttpRequest) -> Sent<String> {
        if !self.admits(request) {
            return text("false");
        }
        self.newest += 1;
        self.value = Some((self.newest, bytes_of(request).to_vec()));
        text("true")
    }

    fn remove(&mut self, request: &HttpRequest) {
        assert_eq!(request.method, Method::Delete);
        if self.admits(request) {
            self.value = None;
        }
    }

    fn value(&self) -> Vec<u8> {
        ConsulKv::get_reply(self.look(), NOW).unwrap().unwrap().bytes
    }
}

fn reclaim(step: ClaimStep) -> HttpRequest {
    match step {
        ClaimStep::Reclaim(request) => request,
        _ => panic!("expected to overwrite the key"),
    }
}

#[test]
fn of_two_claims_one_wins() {
    let kv = store();
    let mut held = Held::expired();
    for value in [b"a", b"b"] {
        let first = held.write(&kv.put_if_absent("k", value, None));
        asked(kv.put_if_absent_created("k", first));
    }
    let a = reclaim(kv.put_if_absent_looked("k", b"a", None, held.look(), NOW));
    let b = reclaim(kv.put_if_absent_looked("k", b"b", None, held.look(), NOW));
    assert!(settled(kv.put_if_absent_reclaimed("k", held.write(&a))).unwrap());
    asked(kv.put_if_absent_reclaimed("k", held.write(&b)));
    assert!(!settled(kv.put_if_absent_looked_again("k", b"b", None, held.look())).unwrap());
    assert_eq!(held.value(), b"a");
}

#[test]
fn one_claim_wins_though_a_reader_removes_the_key() {
    let kv = store();
    let mut held = Held::expired();
    let removal = kv.reap("k", &held.look(), NOW).unwrap();
    let a = reclaim(kv.put_if_absent_looked("k", b"a", None, held.look(), NOW));
    let b = reclaim(kv.put_if_absent_looked("k", b"b", None, held.look(), NOW));
    held.remove(&removal);
    asked(kv.put_if_absent_reclaimed("k", held.write(&a)));
    asked(kv.put_if_absent_reclaimed("k", held.write(&b)));
    let a = asked(kv.put_if_absent_looked_again("k", b"a", None, held.look()));
    let b = asked(kv.put_if_absent_looked_again("k", b"b", None, held.look()));
    assert!(ConsulKv::put_if_absent_reply(held.write(&b)).unwrap());
    assert!(!ConsulKv::put_if_absent_reply(held.write(&a)).unwrap());
    // The removal does not reach what the winner wrote.
    held.remove(&removal);
    assert!(kv.reap("k", &held.look(), NOW).is_none());
    assert_eq!(held.value(), b"b");
}
