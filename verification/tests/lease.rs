use consul_cluster::client::{ConsulClient, KvEntry};
use consul_cluster::error::ClusterError;
use consul_cluster::http::{Body, HttpRequest};
use consul_cluster::lease::{
    lease_ttl_from_ms, renewal_sleep, AcquireAction, AcquireEvent, AcquireState, LeaseBid,
    LeaseState, NextAttempt, RenewalAction, RenewalEvent, RetryPause,
};
use consul_cluster::time::Duration;

fn client() -> ConsulClient {
    ConsulClient::new("http://c:8500".to_owned(), None, None, Ok(())).unwrap()
}

fn bid() -> LeaseBid {
    LeaseBid::new(
        "mcpg-lock-x".to_owned(),
        "mcpg/locks/x".to_owned(),
        "node-a".to_owned(),
        Duration::from_millis(15_900),
    )
    .unwrap()
}

fn sent(action: AcquireAction) -> (AcquireState, HttpRequest) {
    match action {
        AcquireAction::Send(state, request) => (state, request),
        _ => panic!("expected a request"),
    }
}

fn acquiring(client: &ConsulClient, bid: &LeaseBid) -> (AcquireState, HttpRequest) {
    let (state, _) = bid.open(client);
    sent(bid.advance(client, state, AcquireEvent::SessionCreated(Ok("sid".to_owned()))))
}

fn instant(secs: u64) -> Option<Duration> {
    Some(Duration::from_secs(secs))
}

fn lease(lock_index: u64) -> LeaseState {
    LeaseState::granted_at(&bid(), "sid".to_owned(), lock_index, instant(1_516_991_409)).unwrap()
}

#[test]
fn renewal_sleep_is_seconds_scale_not_millis() {
    assert_eq!(renewal_sleep(Duration::from_secs(30), 80), Duration::from_secs(6));
    assert_eq!(renewal_sleep(Duration::from_secs(60), 80), Duration::from_secs(12));
    assert!(renewal_sleep(Duration::from_secs(30), 99) >= Duration::from_millis(200));
}

#[test]
fn renewal_sleep_floors_at_one_second() {
    assert_eq!(renewal_sleep(Duration::from_nanos(50), 99), Duration::from_secs(1));
}

#[test]
fn the_renewal_percentage_is_clamped() {
    let ttl = Duration::from_secs(10);
    assert_eq!(renewal_sleep(ttl, 30), Duration::from_secs(7));
    assert_eq!(renewal_sleep(ttl, 0), Duration::from_millis(9_900));
    assert_eq!(renewal_sleep(ttl, 1), Duration::from_millis(9_900));
    let ttl = Duration::from_secs(200);
    assert_eq!(renewal_sleep(ttl, 99), Duration::from_secs(2));
    assert_eq!(renewal_sleep(ttl, 100), Duration::from_secs(2));
    assert_eq!(renewal_sleep(ttl, u32::MAX), Duration::from_secs(2));
}

#[test]
fn no_renewal_pause_is_below_a_second() {
    let second = Duration::from_secs(1);
    assert_eq!(renewal_sleep(Duration::from_secs(30), 99), second);
    assert_eq!(renewal_sleep(Duration::from_secs(10), 99), second);
    assert_eq!(renewal_sleep(Duration::from_secs(0), 30), second);
    assert_eq!(renewal_sleep(Duration::from_millis(1428), 30), second);
    assert_eq!(renewal_sleep(Duration::from_millis(1430), 30), Duration::from_millis(1001));
    assert!(renewal_sleep(Duration::new(u64::MAX, 999_999_999), 99) >= second);
}

#[test]
fn a_renewal_comes_before_the_expiry() {
    for secs in [10, 11, 60, 86_400, u64::MAX] {
        for percent in [0, 1, 30, 50, 99, 100] {
            let ttl = Duration::from_secs(secs);
            let pause = renewal_sleep(ttl, percent);
            assert!(pause < ttl && pause >= ttl.div(100).div(100));
        }
    }
}

#[test]
fn a_lease_needs_a_name() {
    for name in ["", " ", "\t\n"] {
        let r = LeaseBid::new(name.to_owned(), "k".to_owned(), "n".to_owned(), Duration::from_secs(20));
        assert!(matches!(
            r,
            Err(ClusterError::InvalidReference { message }) if message == "lease name must not be empty"
        ));
    }
}

#[test]
fn a_lease_lives_for_whole_seconds_and_at_least_ten() {
    let secs = |ttl: Duration| {
        LeaseBid::new("n".to_owned(), "k".to_owned(), "n".to_owned(), ttl).unwrap().ttl()
    };
    assert_eq!(secs(Duration::from_millis(1)), Duration::from_secs(10));
    assert_eq!(secs(Duration::from_millis(10_999)), Duration::from_secs(10));
    assert_eq!(secs(Duration::from_millis(11_001)), Duration::from_secs(11));
    assert_eq!(secs(Duration::from_secs(60)), Duration::from_secs(60));
    assert_eq!(lease_ttl_from_ms(0), Duration::from_millis(1));
    assert_eq!(lease_ttl_from_ms(1), Duration::from_millis(1));
    assert_eq!(lease_ttl_from_ms(1500), Duration::from_millis(1500));
}

#[test]
fn an_acquisition_creates_acquires_and_reads_back() {
    let (client, bid) = (client(), bid());
    assert_eq!(bid.key(), "mcpg/locks/x");
    let (state, request) = bid.open(&client);
    assert!(matches!(state, AcquireState::Creating));
    assert_eq!(request.url, "http://c:8500/v1/session/create");
    match &request.body {
        Body::Session(body) => {
            assert_eq!(body.name, "mcpg-lock-x");
            assert_eq!(body.ttl, "15s");
            assert_eq!(body.behavior, "release");
        }
        _ => panic!("a session is described"),
    }
    let (state, request) = acquiring(&client, &bid);
    assert_eq!(request.url, "http://c:8500/v1/kv/mcpg/locks/x?acquire=sid");
    assert!(matches!(request.body, Body::Bytes(b) if b == b"node-a"));
    let (state, request) = sent(bid.advance(&client, state, AcquireEvent::KeyAcquired(Ok(true))));
    assert!(matches!(&state, AcquireState::ReadingBack { session_id } if session_id == "sid"));
    assert_eq!(request.url, "http://c:8500/v1/kv/mcpg/locks/x");
    let entry = KvEntry { lock_index: 4, key: "mcpg/locks/x".to_owned(), session: None };
    match bid.advance(&client, state, AcquireEvent::KeyRead(Ok(Some(entry)))) {
        AcquireAction::Granted { session_id, lock_index } => {
            assert_eq!(session_id, "sid");
            assert_eq!(lock_index, 4);
        }
        _ => panic!("expected the lease"),
    }
}

#[test]
fn a_held_key_declines_and_the_session_goes() {
    let (client, bid) = (client(), bid());
    let (state, _) = acquiring(&client, &bid);
    let (state, request) = sent(bid.advance(&client, state, AcquireEvent::KeyAcquired(Ok(false))));
    assert_eq!(request.url, "http://c:8500/v1/session/destroy/sid");
    for answer in [Ok(()), Err(ClusterError::LeaseExpired)] {
        let state = match &state {
            AcquireState::Declining => AcquireState::Declining,
            _ => panic!("expected to decline"),
        };
        let end = bid.advance(&client, state, AcquireEvent::SessionDestroyed(answer));
        assert!(matches!(end, AcquireAction::Declined));
    }
}

#[test]
fn a_lease_without_a_token_is_not_granted() {
    let (client, bid) = (client(), bid());
    let zero = KvEntry { lock_index: 0, key: String::new(), session: None };
    let unreadable = ClusterError::Internal { reason: "kv_read json: x".to_owned() };
    for read in [Ok(None), Ok(Some(zero)), Err(unreadable)] {
        let (state, _) = acquiring(&client, &bid);
        let (state, _) = sent(bid.advance(&client, state, AcquireEvent::KeyAcquired(Ok(true))));
        let (state, request) = sent(bid.advance(&client, state, AcquireEvent::KeyRead(read)));
        assert_eq!(request.url, "http://c:8500/v1/session/destroy/sid");
        assert!(matches!(state, AcquireState::Abandoning));
        match bid.advance(&client, state, AcquireEvent::SessionDestroyed(Ok(()))) {
            AcquireAction::Failed(ClusterError::BackendUnavailable { reason }) => assert_eq!(
                reason,
                "consul lease 'mcpg-lock-x': acquired but could not read back a valid LockIndex \
                 for the fencing token; released the session to avoid handing out an unsafe \
                 token-0 lease"
            ),
            _ => panic!("expected a failure"),
        }
    }
}

#[test]
fn an_acquisition_fails_with_what_consul_failed_with() {
    let (client, bid) = (client(), bid());
    let (state, _) = bid.open(&client);
    let down = || ClusterError::BackendUnavailable { reason: "down".to_owned() };
    let end = bid.advance(&client, state, AcquireEvent::SessionCreated(Err(down())));
    assert!(matches!(
        end,
        AcquireAction::Failed(ClusterError::BackendUnavailable { reason }) if reason == "down"
    ));
    let (state, _) = acquiring(&client, &bid);
    let end = bid.advance(&client, state, AcquireEvent::KeyAcquired(Err(down())));
    assert!(matches!(
        end,
        AcquireAction::Failed(ClusterError::BackendUnavailable { reason }) if reason == "down"
    ));
}

#[test]
fn a_lease_is_renewed_until_it_is_released() {
    let client = client();
    let mut lease = lease(9);
    assert_eq!(lease.fencing_token(), 9);
    assert_eq!(lease.expires_at(), "2018-01-26T18:30:24Z");
    assert_eq!(lease.ttl(), Duration::from_secs(15));
    let request = lease.renew_state(&client).unwrap();
    assert_eq!(request.url, "http://c:8500/v1/session/renew/sid");

    lease.renewed_at(Ok(()), instant(1_516_991_416)).unwrap().unwrap();
    assert_eq!(lease.expires_at(), "2018-01-26T18:30:31Z");
    let failed = lease.renewed_at(Err(ClusterError::LeaseExpired), instant(1_516_991_420));
    assert!(matches!(failed, Some(Err(ClusterError::LeaseExpired))));
    assert_eq!(lease.expires_at(), "2018-01-26T18:30:31Z");

    let (release, destroy) = lease.release_state(&client).unwrap();
    assert_eq!(release.url, "http://c:8500/v1/kv/mcpg/locks/x?release=sid");
    assert_eq!(destroy.url, "http://c:8500/v1/session/destroy/sid");
    assert!(lease.is_released());
    assert!(lease.release_state(&client).is_none());
    assert!(matches!(lease.renew_state(&client), Err(ClusterError::LeaseExpired)));
    assert_eq!(lease.fencing_token(), 9);
}

#[test]
fn a_lease_needs_an_instant_that_can_be_written() {
    let sid = || "sid".to_owned();
    assert!(LeaseState::granted_at(&bid(), sid(), 1, None).is_none());
    assert!(LeaseState::granted_at(&bid(), sid(), 1, instant(8_210_266_876_799)).is_none());
    let mut lease = lease(1);
    assert!(lease.renewed_at(Ok(()), None).is_none());
    assert_eq!(lease.expires_at(), "2018-01-26T18:30:24Z");
    let failed = lease.renewed_at(Err(ClusterError::LeaseExpired), None);
    assert!(matches!(failed, Some(Err(ClusterError::LeaseExpired))));
}

#[test]
fn the_background_renewal_goes_on_until_released_or_failed() {
    let client = client();
    let mut lease = lease(2);
    match lease.background_renewal(&client, RenewalEvent::PauseOver) {
        RenewalAction::Send(request) => {
            assert_eq!(request.url, "http://c:8500/v1/session/renew/sid")
        }
        _ => panic!("expected a renewal"),
    }
    let next = lease.background_renewal(&client, RenewalEvent::Renewed(Ok(())));
    assert!(matches!(next, RenewalAction::Pause));
    for e in [ClusterError::LeaseExpired, ClusterError::Internal { reason: "x".to_owned() }] {
        let next = lease.background_renewal(&client, RenewalEvent::Renewed(Err(e)));
        assert!(matches!(next, RenewalAction::Stop));
    }
    lease.release_state(&client).unwrap();
    let next = lease.background_renewal(&client, RenewalEvent::PauseOver);
    assert!(matches!(next, RenewalAction::Stop));
}

#[test]
fn pauses_between_attempts_level_off_and_are_jittered() {
    let ms = [200, 400, 800, 800, 800];
    let mut exact = RetryPause::new();
    // Entropy that picks the middle of each window.
    let middle: Vec<Duration> = ms.iter().map(|ms| exact.take_by(ms / 5)).collect();
    assert_eq!(middle, ms.map(Duration::from_millis));
    let mut low = RetryPause::new();
    assert_eq!(low.take_by(0), Duration::from_millis(160));
    assert_eq!(low.take_by(160), Duration::from_millis(480));
    assert_eq!(low.take_by(321), Duration::from_millis(640));
    let mut pause = RetryPause::new();
    for ms in ms {
        let taken = pause.take();
        assert!(taken >= Duration::from_millis(ms * 4 / 5));
        assert!(taken <= Duration::from_millis(ms * 6 / 5));
    }
}

#[test]
fn a_caller_waits_while_declined() {
    let mut pause = RetryPause::new();
    let mut pauses = Vec::new();
    let mut ends = vec![Ok(Some(7)), Ok(None), Ok(None), Ok(None)];
    let end = loop {
        match pause.after_attempt_by(ends.pop().unwrap(), 0) {
            NextAttempt::Again(pause) => pauses.push(pause),
            NextAttempt::Done(r) => break r,
        }
    };
    assert_eq!(end.unwrap(), 7);
    assert!(ends.is_empty());
    assert_eq!(pauses, [160, 320, 640].map(Duration::from_millis));
    let mut pause = RetryPause::new();
    let down: Result<Option<u8>, ClusterError> = Err(ClusterError::LeaseExpired);
    assert!(matches!(
        pause.after_attempt(down),
        NextAttempt::Done(Err(ClusterError::LeaseExpired))
    ));
    match pause.after_attempt::<u8>(Ok(None)) {
        NextAttempt::Again(pause) => {
            assert!(pause >= Duration::from_millis(160) && pause <= Duration::from_millis(240))
        }
        NextAttempt::Done(_) => panic!("expected another attempt"),
    }
    assert!(matches!(pause.after_attempt(Ok(Some(3))), NextAttempt::Done(Ok(3))));
    assert_eq!(pause.take_by(80), Duration::from_millis(400));
}
