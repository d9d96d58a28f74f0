use consul_cluster::bus::{publish, FreshEvent, Parcel, Subscription};
use consul_cluster::client::{ConsulClient, UserEvent};
use consul_cluster::error::ClusterError;
use consul_cluster::http::{Body, HttpReply, Method, Sent};
use consul_cluster::time::Duration;

fn event(id: &str, payload_b64: Option<&str>) -> UserEvent {
    UserEvent {
        id: id.to_owned(),
        name: "t".to_owned(),
        payload_b64: payload_b64.map(str::to_owned),
        node_filter: None,
        service_filter: None,
        tag_filter: None,
        version: 1,
        ltime: 1,
    }
}

fn batch(from: usize, to: usize) -> Vec<UserEvent> {
    (from..to).map(|n| event(&format!("e{n}"), None)).collect()
}

fn ids(fresh: &[FreshEvent]) -> Vec<&str> {
    fresh.iter().map(|e| e.id.as_str()).collect()
}

fn subscription(routing_key: Option<&str>) -> Subscription {
    Subscription::new("t".to_owned(), routing_key.map(str::to_owned), "node-a".to_owned(), 30)
}

fn client() -> ConsulClient {
    ConsulClient::new("http://c".to_owned(), None, Some("eu".to_owned()), Ok(())).unwrap()
}

#[test]
fn a_payload_is_published_in_its_envelope() {
    let request = publish(&client(), "t", Ok(vec![1, 2])).unwrap();
    assert_eq!(request.method, Method::Put);
    assert_eq!(request.url, "http://c/v1/event/fire/t?dc=eu");
    assert!(matches!(request.body, Body::Bytes(b) if b == [1, 2]));
    let refused = publish(&client(), "t", Err("too long".to_owned()));
    assert!(matches!(
        refused,
        Err(ClusterError::Internal { reason }) if reason == "publish envelope: too long"
    ));
}

#[test]
fn a_subscription_delivers_an_event_once() {
    let mut sub = subscription(None);
    let first = sub.receive(&vec![event("a", Some("AQI=")), event("b", None), event("a", None)], 5);
    assert_eq!(ids(&first), ["a", "b"]);
    assert_eq!(first[0].envelope, [1, 2]);
    assert!(first[1].envelope.is_empty());
    assert_eq!(sub.index(), 5);
    let again = sub.receive(&vec![event("a", None), event("b", None), event("c", None)], 6);
    assert_eq!(ids(&again), ["c"]);
    assert_eq!(sub.index(), 6);
}

#[test]
fn a_replay_is_silent_while_it_is_remembered() {
    let mut sub = subscription(None);
    assert_eq!(sub.receive(&batch(0, 256), 1).len(), 256);
    assert!(sub.receive(&batch(0, 256), 1).is_empty());
    // One more pushes the oldest out.
    assert_eq!(ids(&sub.receive(&batch(256, 257), 2)), ["e256"]);
    assert!(sub.receive(&batch(1, 257), 2).is_empty());
    assert_eq!(ids(&sub.receive(&batch(0, 1), 2)), ["e0"]);
    // Which pushed out the next.
    assert_eq!(ids(&sub.receive(&batch(1, 2), 2)), ["e1"]);
}

#[test]
fn a_batch_beyond_the_memory_is_delivered_again() {
    let mut sub = subscription(None);
    assert_eq!(sub.receive(&batch(0, 257), 1).len(), 257);
    assert_eq!(sub.receive(&batch(0, 257), 1).len(), 257);
}

#[test]
fn a_subscription_polls_from_its_index() {
    let mut sub = subscription(None);
    assert_eq!(
        sub.poll(&client()).url,
        "http://c/v1/event/list?name=t&index=0&wait=30s&dc=eu"
    );
    let sent: Sent<Vec<UserEvent>> =
        Ok(HttpReply { status: 200, consul_index: Some("77".to_owned()), body: Ok(batch(0, 2)) });
    assert_eq!(ids(&sub.poll_reply(sent).unwrap()), ["e0", "e1"]);
    assert_eq!(
        sub.poll(&client()).url,
        "http://c/v1/event/list?name=t&index=77&wait=30s&dc=eu"
    );
    let failure = match sub.poll_reply(Err("refused".to_owned())) {
        Ok(_) => panic!("expected a failure"),
        Err(failure) => failure,
    };
    assert!(matches!(
        failure.error,
        ClusterError::BackendUnavailable { reason } if reason == "event list: refused"
    ));
    assert!(failure.pause >= Duration::from_secs(4) && failure.pause <= Duration::from_secs(6));
    assert_eq!(sub.index(), 77);
}

fn parcel(publisher: Option<&str>, routing_key: Option<&str>) -> Option<Parcel> {
    Some(Parcel {
        publisher: publisher.map(str::to_owned),
        routing_key: routing_key.map(str::to_owned),
        payload: vec![9],
    })
}

#[test]
fn messages_are_filtered_by_their_routing_key() {
    let content = |key: Option<&str>| parcel(Some("node-b"), key);
    let all = subscription(None);
    let message = all.deliver(content(Some("k"))).unwrap();
    assert_eq!(message.topic, "t");
    assert_eq!(message.routing_key.as_deref(), Some("k"));
    assert_eq!(message.payload, [9]);
    assert_eq!(message.from_node, "node-a");
    assert_eq!(all.deliver(content(None)).unwrap().routing_key, None);
    let some = subscription(Some("k"));
    assert_eq!(some.deliver(content(Some("k"))).unwrap().payload, [9]);
    assert!(some.deliver(content(Some("K"))).is_none());
    assert!(some.deliver(content(Some("k2"))).is_none());
    assert!(some.deliver(content(None)).is_none());
    // An envelope that could not be opened.
    assert!(all.deliver(None).is_none());
    assert!(some.deliver(None).is_none());
}

#[test]
fn a_node_skips_what_it_published_itself() {
    for sub in [subscription(None), subscription(Some("k"))] {
        assert!(sub.deliver(parcel(Some("node-a"), Some("k"))).is_none());
        assert!(sub.deliver(parcel(Some("node-a"), None)).is_none());
        let other = sub.deliver(parcel(Some("node-a2"), Some("k"))).unwrap();
        assert_eq!(other.from_node, "node-a");
        // An envelope that names no publisher.
        assert_eq!(sub.deliver(parcel(None, Some("k"))).unwrap().payload, [9]);
    }
}

#[test]
fn batches_add_up() {
    let mut once = subscription(None);
    let mut twice = subscription(None);
    let mut fresh: Vec<String> = Vec::new();
    for (from, to) in [(0, 4), (2, 6), (0, 6), (5, 9)] {
        fresh.extend(twice.receive(&batch(from, to), 1).into_iter().map(|e| e.id));
    }
    let all: Vec<UserEvent> =
        [(0, 4), (2, 6), (0, 6), (5, 9)].iter().flat_map(|(from, to)| batch(*from, *to)).collect();
    let at_once = once.receive(&all, 1);
    assert_eq!(ids(&at_once), fresh);
    assert_eq!(fresh, ["e0", "e1", "e2", "e3", "e4", "e5", "e6", "e7", "e8"]);
}
