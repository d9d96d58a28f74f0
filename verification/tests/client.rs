use consul_cluster::client::{
    carried_bytes, decode_event_payload, url_escape, ConsulClient, KvEntry, KvValueEntry,
    SessionBehavior,
};
use consul_cluster::error::ClusterError;
use consul_cluster::http::{show_status, succeeded, Body, HttpReply, HttpRequest, Method, Sent};

fn client(datacenter: Option<&str>) -> ConsulClient {
    ConsulClient::new(
        "https://consul:8501//".to_owned(),
        Some("acl-token".to_owned()),
        datacenter.map(str::to_owned),
        Ok(()),
    )
    .unwrap()
}

fn reply<T>(status: u16, body: T) -> Sent<T> {
    Ok(HttpReply { status, consul_index: None, body: Ok(body) })
}

fn unread<T>() -> Sent<T> {
    Ok(HttpReply { status: 200, consul_index: None, body: Err("cut off".to_owned()) })
}

fn down<T>() -> Sent<T> {
    Err("refused".to_owned())
}

fn reason<T>(r: Result<T, ClusterError>) -> (char, String) {
    match r {
        Ok(_) => panic!("expected an error"),
        Err(ClusterError::BackendUnavailable { reason }) => ('u', reason),
        Err(ClusterError::Internal { reason }) => ('i', reason),
        Err(ClusterError::LeaseExpired) => ('e', String::new()),
        Err(ClusterError::InvalidReference { message }) => ('r', message),
    }
}

fn check(request: HttpRequest, method: Method, url: &str) {
    assert_eq!(request.method, method);
    assert_eq!(request.url, url);
    assert_eq!(request.token.as_deref(), Some("acl-token"));
}

#[test]
fn a_client_needs_a_transport() {
    let r = ConsulClient::new("http://x".to_owned(), None, None, Err("no TLS".to_owned()));
    assert_eq!(reason(r), ('i', "reqwest client init: no TLS".to_owned()));
}

#[test]
fn requests_have_their_paths() {
    let c = client(None).clone();
    let (get, put, delete) = (Method::Get, Method::Put, Method::Delete);
    check(c.catalog_service("web"), get, "https://consul:8501/v1/catalog/service/web");
    check(c.fire_event("t", vec![1]), put, "https://consul:8501/v1/event/fire/t");
    check(
        c.catalog_service_blocking("web", 12, 30),
        get,
        "https://consul:8501/v1/catalog/service/web?index=12&wait=30s",
    );
    check(
        c.list_events("t", 0, 600),
        get,
        "https://consul:8501/v1/event/list?name=t&index=0&wait=600s",
    );
    check(
        c.session_create("n", 15, SessionBehavior::Delete),
        put,
        "https://consul:8501/v1/session/create",
    );
    check(c.session_renew("s"), put, "https://consul:8501/v1/session/renew/s");
    check(c.session_destroy("s"), put, "https://consul:8501/v1/session/destroy/s");
    check(c.kv_acquire("/k", "s", vec![]), put, "https://consul:8501/v1/kv/k?acquire=s");
    check(c.kv_release("k", "s"), put, "https://consul:8501/v1/kv/k?release=s");
    check(c.kv_get_value("//a/b"), get, "https://consul:8501/v1/kv/a/b");
    check(c.kv_put_value("k", vec![], None), put, "https://consul:8501/v1/kv/k");
    check(c.kv_put_value("k", vec![], Some(9)), put, "https://consul:8501/v1/kv/k?cas=9");
    check(c.kv_delete_value("k"), delete, "https://consul:8501/v1/kv/k");
    check(c.kv_delete_value_at("/k", 9), delete, "https://consul:8501/v1/kv/k?cas=9");
    check(c.kv_list_recurse("p/"), get, "https://consul:8501/v1/kv/p/?recurse");
    check(c.kv_read("k"), get, "https://consul:8501/v1/kv/k");
}

#[test]
fn requests_name_the_datacenter() {
    let c = client(Some("eu"));
    assert_eq!(c.catalog_service("w").url, "https://consul:8501/v1/catalog/service/w?dc=eu");
    assert_eq!(c.fire_event("t", vec![]).url, "https://consul:8501/v1/event/fire/t?dc=eu");
    assert_eq!(
        c.catalog_service_blocking("w", 1, 2).url,
        "https://consul:8501/v1/catalog/service/w?index=1&wait=2s&dc=eu"
    );
    assert_eq!(
        c.list_events("t", 1, 2).url,
        "https://consul:8501/v1/event/list?name=t&index=1&wait=2s&dc=eu"
    );
    assert_eq!(
        c.session_create("n", 1, SessionBehavior::Release).url,
        "https://consul:8501/v1/session/create?dc=eu"
    );
    assert_eq!(c.session_renew("s").url, "https://consul:8501/v1/session/renew/s?dc=eu");
    assert_eq!(c.session_destroy("s").url, "https://consul:8501/v1/session/destroy/s?dc=eu");
    assert_eq!(c.kv_acquire("k", "s", vec![]).url, "https://consul:8501/v1/kv/k?acquire=s&dc=eu");
    assert_eq!(c.kv_release("k", "s").url, "https://consul:8501/v1/kv/k?release=s&dc=eu");
    assert_eq!(c.kv_get_value("k").url, "https://consul:8501/v1/kv/k?dc=eu");
    assert_eq!(c.kv_put_value("k", vec![], None).url, "https://consul:8501/v1/kv/k?dc=eu");
    assert_eq!(c.kv_put_value("k", vec![], Some(0)).url, "https://consul:8501/v1/kv/k?cas=0&dc=eu");
    assert_eq!(c.kv_delete_value("k").url, "https://consul:8501/v1/kv/k?dc=eu");
    assert_eq!(c.kv_delete_value_at("k", 3).url, "https://consul:8501/v1/kv/k?cas=3&dc=eu");
    assert_eq!(c.kv_list_recurse("k").url, "https://consul:8501/v1/kv/k?recurse&dc=eu");
    assert_eq!(c.kv_read("k").url, "https://consul:8501/v1/kv/k?dc=eu");
}

#[test]
fn only_long_polls_have_a_time_limit() {
    let c = client(None);
    assert_eq!(c.list_events("t", 0, 30).timeout_secs, Some(60));
    assert_eq!(c.catalog_service_blocking("w", 0, 600).timeout_secs, Some(630));
    assert_eq!(c.catalog_service("w").timeout_secs, None);
    assert_eq!(c.kv_read("k").timeout_secs, None);
}

#[test]
fn requests_carry_their_bodies() {
    let c = client(None);
    match c.session_create("lease", 10, SessionBehavior::Release).body {
        Body::Session(body) => {
            assert_eq!(body.name, "lease");
            assert_eq!(body.ttl, "10s");
            assert_eq!(body.behavior, "release");
            assert_eq!(body.lock_delay, "0s");
        }
        _ => panic!("a session is described"),
    }
    assert_eq!(SessionBehavior::Delete.as_str(), "delete");
    assert!(matches!(c.kv_acquire("k", "s", vec![1, 2]).body, Body::Bytes(b) if b == [1, 2]));
    assert!(matches!(c.fire_event("t", vec![3]).body, Body::Bytes(b) if b == [3]));
    assert!(matches!(c.kv_release("k", "s").body, Body::Empty));
    assert!(matches!(c.session_renew("s").body, Body::Empty));
}

#[test]
fn no_token_sends_no_header() {
    let c = ConsulClient::new("http://x".to_owned(), None, None, Ok(())).unwrap();
    assert_eq!(c.kv_read("k").token, None);
}

#[test]
fn statuses_are_shown_with_their_reasons() {
    assert_eq!(show_status(404), "404 Not Found");
    assert_eq!(show_status(500), "500 Internal Server Error");
    assert_eq!(show_status(299), "299 <unknown status code>");
    assert_eq!(show_status(599), format!("{}", reqwest::StatusCode::from_u16(599).unwrap()));
    assert!(succeeded(200) && succeeded(299) && !succeeded(199) && !succeeded(300));
}

#[test]
fn base64_fields_are_decoded() {
    let field = |s: &str| Some(s.to_owned());
    assert_eq!(decode_event_payload(&field("aGVsbG8=")), b"hello");
    assert_eq!(decode_event_payload(&field("+/8=")), [0xfb, 0xff]);
    assert!(decode_event_payload(&field("aGVsbG8")).is_empty());
    assert!(decode_event_payload(&field("-_8=")).is_empty());
    assert!(decode_event_payload(&field("not base64!")).is_empty());
    assert!(decode_event_payload(&None).is_empty());
    let entry = KvValueEntry { key: "k".to_owned(), modify_index: 1, value_b64: field("AQA=") };
    assert_eq!(entry.decoded_value(), [1, 0]);
    assert_eq!(carried_bytes(Some(vec![1])), [1]);
    assert!(carried_bytes(None).is_empty());
}

#[test]
fn keys_lose_leading_slashes() {
    assert_eq!(url_escape("//a/b/"), "a/b/");
    assert_eq!(url_escape("a b%"), "a b%");
}

#[test]
fn catalog_replies() {
    assert!(ConsulClient::catalog_service_reply(reply(200, vec![])).unwrap().is_empty());
    let refused = ConsulClient::catalog_service_reply(reply(403, vec![]));
    assert_eq!(reason(refused), ('i', "catalog status 403 Forbidden".to_owned()));
    let r = reason(ConsulClient::catalog_service_reply(down()));
    assert_eq!(r, ('u', "catalog request: refused".to_owned()));
    let r = reason(ConsulClient::catalog_service_reply(unread()));
    assert_eq!(r, ('i', "catalog json decode: cut off".to_owned()));
}

#[test]
fn fired_events() {
    assert!(ConsulClient::fire_event_reply(reply(200, ())).is_ok());
    assert!(ConsulClient::fire_event_reply(unread()).is_ok());
    let r = reason(ConsulClient::fire_event_reply(reply(500, ())));
    assert_eq!(r, ('i', "event fire status 500 Internal Server Error".to_owned()));
    let r = reason(ConsulClient::fire_event_reply(down()));
    assert_eq!(r, ('u', "event fire: refused".to_owned()));
}

#[test]
fn polls_go_on_from_the_index_of_the_reply() {
    let indexed = |status: u16, index: Option<&str>| {
        Ok(HttpReply { status, consul_index: index.map(str::to_owned), body: Ok(vec![]) })
    };
    let next = |index| ConsulClient::catalog_service_blocking_reply(indexed(200, index), 5).unwrap().1;
    assert_eq!(next(Some("42")), 42);
    assert_eq!(next(Some("0")), 0);
    assert_eq!(next(Some("+7")), 7);
    assert_eq!(next(Some(" 7")), 5);
    assert_eq!(next(Some("18446744073709551616")), 5);
    assert_eq!(next(None), 5);
    let r = reason(ConsulClient::catalog_service_blocking_reply(indexed(500, Some("9")), 5));
    assert_eq!(r, ('i', "catalog blocking status 500 Internal Server Error".to_owned()));
    let r = reason(ConsulClient::catalog_service_blocking_reply(down(), 5));
    assert_eq!(r, ('u', "catalog blocking: refused".to_owned()));
    let r = reason(ConsulClient::catalog_service_blocking_reply(unread(), 5));
    assert_eq!(r, ('i', "catalog blocking json: cut off".to_owned()));
    let events = Ok(HttpReply { status: 200, consul_index: Some("8".to_owned()), body: Ok(vec![]) });
    assert_eq!(ConsulClient::list_events_reply(events, 1).unwrap().1, 8);
    let r = reason(ConsulClient::list_events_reply(reply(502, vec![]), 5));
    assert_eq!(r, ('i', "event list status 502 Bad Gateway".to_owned()));
    let r = reason(ConsulClient::list_events_reply(down(), 5));
    assert_eq!(r, ('u', "event list: refused".to_owned()));
    let r = reason(ConsulClient::list_events_reply(unread(), 5));
    assert_eq!(r, ('i', "event list json: cut off".to_owned()));
}

#[test]
fn sessions_are_created() {
    assert_eq!(ConsulClient::session_create_reply(reply(200, "sid".to_owned())).unwrap(), "sid");
    let r = reason(ConsulClient::session_create_reply(reply(500, String::new())));
    assert_eq!(r, ('u', "session_create status 500 Internal Server Error".to_owned()));
    let r = reason(ConsulClient::session_create_reply(down()));
    assert_eq!(r, ('u', "session_create: refused".to_owned()));
    let r = reason(ConsulClient::session_create_reply(unread()));
    assert_eq!(r, ('i', "session_create json: cut off".to_owned()));
}

#[test]
fn sessions_are_renewed_or_gone() {
    let renewed = |status: u16, text: &str| {
        ConsulClient::session_renew_reply(reply(status, text.to_owned()))
    };
    assert!(renewed(200, "[{\"ID\":\"sid\"}]").is_ok());
    assert!(renewed(200, "[1]").is_ok());
    for text in ["[]", " [ ] ", "{}", "null", "true", "", "[", "not json"] {
        assert_eq!(reason(renewed(200, text)).0, 'e', "{text:?}");
    }
    assert_eq!(reason(renewed(404, "[1]")).0, 'e');
    let r = reason(renewed(500, "[1]"));
    assert_eq!(r, ('u', "session_renew status 500 Internal Server Error".to_owned()));
    let r = reason(ConsulClient::session_renew_reply(down()));
    assert_eq!(r, ('u', "session_renew: refused".to_owned()));
    let r = reason(ConsulClient::session_renew_reply(unread()));
    assert_eq!(r, ('i', "session_renew read body: cut off".to_owned()));
    assert!(ConsulClient::session_renew_verdict(Some(1)).is_ok());
    assert_eq!(reason(ConsulClient::session_renew_verdict(Some(0))).0, 'e');
    assert_eq!(reason(ConsulClient::session_renew_verdict(None)).0, 'e');
}

#[test]
fn sessions_are_destroyed_whatever_consul_answers() {
    assert!(ConsulClient::session_destroy_reply(reply(200, ())).is_ok());
    assert!(ConsulClient::session_destroy_reply(reply(500, ())).is_ok());
    let r = reason(ConsulClient::session_destroy_reply(down()));
    assert_eq!(r, ('u', "session_destroy: refused".to_owned()));
}

#[test]
fn locks_are_acquired_and_released() {
    let word = |status: u16, text: &str| reply(status, text.to_owned());
    assert!(ConsulClient::kv_acquire_reply(word(200, "true")).unwrap());
    assert!(ConsulClient::kv_acquire_reply(word(200, "\ttrue\r\n")).unwrap());
    assert!(!ConsulClient::kv_acquire_reply(word(200, "false")).unwrap());
    assert!(!ConsulClient::kv_acquire_reply(word(200, "TRUE")).unwrap());
    let r = reason(ConsulClient::kv_acquire_reply(word(500, "true")));
    assert_eq!(r, ('u', "kv_acquire status 500 Internal Server Error".to_owned()));
    let r = reason(ConsulClient::kv_acquire_reply(down()));
    assert_eq!(r, ('u', "kv_acquire: refused".to_owned()));
    let r = reason(ConsulClient::kv_acquire_reply(unread()));
    assert_eq!(r, ('i', "kv_acquire body: cut off".to_owned()));
    assert!(ConsulClient::kv_release_reply(word(200, "true")).unwrap());
    assert!(!ConsulClient::kv_release_reply(word(200, "false")).unwrap());
    assert!(!ConsulClient::kv_release_reply(word(500, "true")).unwrap());
    let r = reason(ConsulClient::kv_release_reply(down()));
    assert_eq!(r, ('u', "kv_release: refused".to_owned()));
    let r = reason(ConsulClient::kv_release_reply(unread()));
    assert_eq!(r, ('i', "kv_release body: cut off".to_owned()));
}

#[test]
fn locks_are_read_back() {
    let lock = |lock_index: u64| KvEntry { lock_index, key: "k".to_owned(), session: None };
    let read = ConsulClient::kv_read_reply(reply(200, vec![lock(3), lock(4)])).unwrap();
    assert_eq!(read.unwrap().lock_index, 3);
    assert!(ConsulClient::kv_read_reply(reply(200, vec![])).unwrap().is_none());
    assert!(ConsulClient::kv_read_reply(reply(404, vec![lock(3)])).unwrap().is_none());
    let r = reason(ConsulClient::kv_read_reply(reply(500, vec![lock(3)])));
    assert_eq!(r, ('i', "kv_read status 500 Internal Server Error".to_owned()));
    let r = reason(ConsulClient::kv_read_reply(down()));
    assert_eq!(r, ('u', "kv_read: refused".to_owned()));
    let r = reason(ConsulClient::kv_read_reply(unread()));
    assert_eq!(r, ('i', "kv_read json: cut off".to_owned()));
}

#[test]
fn values_are_listed_and_deleted() {
    let value = KvValueEntry { key: "k".to_owned(), modify_index: 2, value_b64: None };
    let listed = ConsulClient::kv_list_recurse_reply(reply(200, vec![value])).unwrap();
    assert_eq!(listed[0].modify_index, 2);
    assert!(ConsulClient::kv_list_recurse_reply(reply(404, vec![])).unwrap().is_empty());
    let r = reason(ConsulClient::kv_list_recurse_reply(down()));
    assert_eq!(r, ('u', "kv_list: refused".to_owned()));
    let r = reason(ConsulClient::kv_list_recurse_reply(unread()));
    assert_eq!(r, ('i', "kv_list json: cut off".to_owned()));
    let r = reason(ConsulClient::kv_get_value_reply(unread()));
    assert_eq!(r, ('i', "kv_get json: cut off".to_owned()));
    assert!(ConsulClient::kv_delete_value_reply(reply(200, ())).is_ok());
    let r = reason(ConsulClient::kv_delete_value_reply(down()));
    assert_eq!(r, ('u', "kv_delete: refused".to_owned()));
    let r = reason(ConsulClient::kv_put_value_reply(down()));
    assert_eq!(r, ('u', "kv_put: refused".to_owned()));
}
