use consul_cluster::client::{CatalogServiceEntry, ConsulClient};
use consul_cluster::error::ClusterError;
use consul_cluster::http::{HttpReply, Sent};
use consul_cluster::peers::{peers_from_listing, PeerChange, PeerEvent, PeerHealth, PeerWatch};
use consul_cluster::time::Duration;

fn instance(id: &str, port: u16) -> CatalogServiceEntry {
    CatalogServiceEntry {
        node: "n".to_owned(),
        address: "10.0.0.1".to_owned(),
        service_id: id.to_owned(),
        service_name: "web".to_owned(),
        service_port: port,
        service_tags: vec![],
    }
}

fn shown(changes: &[PeerChange]) -> Vec<String> {
    changes
        .iter()
        .map(|change| match change {
            PeerChange::Joined { node_id, address } => format!("+{node_id}@{address}"),
            PeerChange::Left { node_id } => format!("-{node_id}"),
        })
        .collect()
}

fn listing(index: &str, ids: &[&str]) -> Sent<Vec<CatalogServiceEntry>> {
    let entries = ids.iter().map(|id| instance(id, 80)).collect();
    Ok(HttpReply { status: 200, consul_index: Some(index.to_owned()), body: Ok(entries) })
}

#[test]
fn a_listing_shows_the_peers() {
    let entries = vec![instance("a", 8080), instance("", 0)];
    let sent = Ok(HttpReply { status: 200, consul_index: None, body: Ok(entries) });
    let peers = peers_from_listing(sent, "2030-01-01T00:00:00Z");
    assert_eq!(peers.len(), 2);
    assert_eq!(peers[0].node_id, "a");
    assert_eq!(peers[0].address, "10.0.0.1:8080");
    assert_eq!(peers[0].last_seen, "2030-01-01T00:00:00Z");
    assert_eq!(peers[0].health, PeerHealth::Healthy);
    assert!(peers[0].roles.is_empty());
    assert_eq!(peers[1].node_id, "");
    assert_eq!(peers[1].address, "10.0.0.1:0");
    let refused = Ok(HttpReply { status: 500, consul_index: None, body: Ok(vec![instance("a", 1)]) });
    assert!(peers_from_listing(refused, "x").is_empty());
}

#[test]
fn a_watch_tells_who_joined_and_who_left() {
    let mut watch = PeerWatch::new("web".to_owned(), 30);
    assert_eq!(watch.index(), 0);
    let changes = watch.observe(&vec![instance("b", 2), instance("a", 1), instance("", 3)], 7);
    assert_eq!(shown(&changes), ["+b@10.0.0.1:2", "+a@10.0.0.1:1"]);
    assert_eq!(watch.index(), 7);
    // The same instances, in another order and at another port.
    assert!(watch.observe(&vec![instance("a", 9), instance("b", 2)], 8).is_empty());
    let changes = watch.observe(&vec![instance("c", 3)], 9);
    assert_eq!(shown(&changes), ["+c@10.0.0.1:3", "-a", "-b"]);
    let changes = watch.observe(&vec![], 3);
    assert_eq!(shown(&changes), ["-c"]);
    assert_eq!(watch.index(), 3);
    // An instance that is listed twice joins twice.
    let changes = watch.observe(&vec![instance("d", 1), instance("d", 2)], 4);
    assert_eq!(shown(&changes), ["+d@10.0.0.1:1", "+d@10.0.0.1:2"]);
    assert_eq!(shown(&watch.observe(&vec![], 5)), ["-d"]);
}

#[test]
fn those_who_left_are_told_in_their_order() {
    let mut watch = PeerWatch::new("web".to_owned(), 30);
    let all = ["z", "b", "B", "10", "9", "\u{e9}"];
    watch.observe(&all.iter().map(|id| instance(id, 1)).collect(), 1);
    let changes = watch.observe(&vec![instance("b", 1)], 2);
    assert_eq!(shown(&changes), ["-10", "-9", "-B", "-z", "-\u{e9}"]);
}

#[test]
fn a_watch_polls_from_its_index() {
    let client = ConsulClient::new("http://c".to_owned(), None, None, Ok(())).unwrap();
    let mut watch = PeerWatch::new("web".to_owned(), 30);
    assert_eq!(
        watch.poll(&client).url,
        "http://c/v1/catalog/service/web?index=0&wait=30s"
    );
    let changes = watch.poll_reply(listing("12", &["a"])).unwrap();
    assert_eq!(shown(&changes), ["+a@10.0.0.1:80"]);
    assert_eq!(
        watch.poll(&client).url,
        "http://c/v1/catalog/service/web?index=12&wait=30s"
    );
    assert!(watch.poll_reply(listing("13", &["a"])).unwrap().is_empty());
}

#[test]
fn a_failed_poll_changes_nothing_and_backs_off() {
    let mut watch = PeerWatch::new("web".to_owned(), 30);
    watch.poll_reply(listing("12", &["a"])).unwrap();
    let failure = match watch.poll_reply(Err("refused".to_owned())) {
        Ok(_) => panic!("expected a failure"),
        Err(failure) => failure,
    };
    assert!(matches!(
        failure.error,
        ClusterError::BackendUnavailable { reason } if reason == "catalog blocking: refused"
    ));
    assert!(failure.pause >= Duration::from_secs(4) && failure.pause <= Duration::from_secs(6));
    assert_eq!(watch.index(), 12);
    let refused: Sent<Vec<CatalogServiceEntry>> =
        Ok(HttpReply { status: 500, consul_index: Some("99".to_owned()), body: Ok(vec![]) });
    assert!(watch.poll_reply(refused).is_err());
    assert_eq!(watch.index(), 12);
    assert!(watch.poll_reply(listing("14", &["a"])).unwrap().is_empty());
}

#[test]
fn replaying_the_changes_gives_the_last_listing() {
    let mut watch = PeerWatch::new("web".to_owned(), 30);
    let mut present = std::collections::BTreeSet::new();
    let polls: [Option<&[&str]>; 6] =
        [Some(&["b", "a"]), None, Some(&["a", "c", ""]), Some(&[]), None, Some(&["c", "d"])];
    let mut last: Vec<String> = vec![];
    for poll in polls {
        let sent = match poll {
            Some(ids) => listing("5", ids),
            None => Err("refused".to_owned()),
        };
        for change in watch.poll_reply(sent).unwrap_or_default() {
            match change {
                PeerChange::Joined { node_id, .. } => assert!(present.insert(node_id)),
                PeerChange::Left { node_id } => assert!(present.remove(&node_id)),
            }
        }
        if let Some(ids) = poll {
            last = ids.iter().filter(|id| !id.is_empty()).map(|id| id.to_string()).collect();
            last.sort();
        }
        assert_eq!(present.iter().cloned().collect::<Vec<String>>(), last);
    }
}

#[test]
fn changes_are_announced() {
    let joined = PeerChange::Joined { node_id: "a".to_owned(), address: "h:1".to_owned() };
    match joined.announce("now".to_owned()) {
        PeerEvent::Joined { peer } => {
            assert_eq!(peer.node_id, "a");
            assert_eq!(peer.address, "h:1");
            assert_eq!(peer.last_seen, "now");
            assert_eq!(peer.health, PeerHealth::Healthy);
            assert!(peer.roles.is_empty());
        }
        PeerEvent::Left { .. } => panic!("expected a newcomer"),
    }
    let left = PeerChange::Left { node_id: "b".to_owned() };
    assert!(matches!(left.announce(String::new()), PeerEvent::Left { node_id } if node_id == "b"));
}
