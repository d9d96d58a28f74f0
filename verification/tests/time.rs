use consul_cluster::peers::poll_backoff;
use consul_cluster::time::{
    expires_at, expires_at_from_ttl, jitter, jittered, now_rfc3339, now_unix_ms, reading_from,
    rfc3339_after, rfc3339_from, ttl_from_ms, unix_ms_of, wall_clock, Duration,
};

#[test]
fn spans_are_made_and_measured() {
    assert_eq!(Duration::from_secs(2), Duration::from_millis(2000));
    assert_eq!(Duration::from_millis(3), Duration::from_nanos(3_000_000));
    assert_eq!(Duration::new(1, 5).subsec_nanos(), 5);
    assert_eq!(Duration::new(1, 999_999_999).as_secs(), 1);
    assert_eq!(Duration::new(1, 999_999_999).as_millis(), 1999);
    assert!(Duration::from_nanos(0).is_zero());
    assert!(!Duration::from_nanos(1).is_zero());
    assert_eq!(Duration::from_secs(3).saturating_mul(4), Duration::from_secs(12));
    let longest = Duration::new(u64::MAX, 999_999_999);
    assert_eq!(longest.saturating_mul(2), longest);
    assert_eq!(Duration::from_nanos(7).div(2), Duration::from_nanos(3));
    assert_eq!(Duration::from_secs(1).min(Duration::from_secs(2)), Duration::from_secs(1));
    assert_eq!(Duration::from_secs(3).min(Duration::from_secs(2)), Duration::from_secs(2));
}

#[test]
fn ttls_come_from_milliseconds() {
    assert_eq!(ttl_from_ms(None), None);
    assert_eq!(ttl_from_ms(Some(1500)), Some(Duration::from_millis(1500)));
}

#[test]
fn clock_readings_are_capped() {
    assert_eq!(unix_ms_of(None), 0);
    assert_eq!(unix_ms_of(Some(Duration::new(1, 2_999_999))), 1002);
    assert_eq!(unix_ms_of(Some(Duration::from_secs(u64::MAX))), u64::MAX);
}

#[test]
fn a_reading_is_made_of_seconds_and_nanoseconds() {
    assert_eq!(reading_from(None), None);
    assert_eq!(reading_from(Some((0, 0))), Some(Duration::from_secs(0)));
    assert_eq!(reading_from(Some((3, 7))), Some(Duration::from_nanos(3_000_000_007)));
    let last = reading_from(Some((u64::MAX, 999_999_999)));
    assert_eq!(last, Some(Duration::new(u64::MAX, 999_999_999)));
}

#[test]
fn the_clock_is_read() {
    let elapsed = std::time::UNIX_EPOCH.elapsed().unwrap().as_millis() as u64;
    let now = now_unix_ms();
    assert!(now >= elapsed && now < elapsed + 60_000);
    let reading = unix_ms_of(wall_clock());
    assert!(reading >= now && reading < now + 60_000);
}

#[test]
fn expiries_are_absolute_and_saturate() {
    assert_eq!(expires_at(1_000, Duration::from_secs(2)), 3_000);
    assert_eq!(expires_at(1_000, Duration::new(0, 999_999)), 1_000);
    assert_eq!(expires_at(u64::MAX - 1, Duration::from_secs(2)), u64::MAX);
    assert_eq!(expires_at(0, Duration::from_secs(u64::MAX)), u64::MAX);
    let before = now_unix_ms();
    let expiry = expires_at_from_ttl(Duration::from_secs(10));
    assert!(expiry >= before + 10_000 && expiry < before + 70_000);
}

#[test]
fn a_longer_ttl_never_expires_earlier() {
    let mut last = 0;
    for secs in [0, 1, 2, 1_000, u64::MAX] {
        let expiry = expires_at(500, Duration::from_secs(secs));
        assert!(expiry >= last && expiry >= 500);
        last = expiry;
    }
}

fn nanos(span: Duration) -> u128 {
    u128::from(span.as_secs()) * 1_000_000_000 + u128::from(span.subsec_nanos())
}

#[test]
fn jitter_is_within_a_fifth() {
    let base = Duration::from_secs(5);
    assert_eq!(jitter(base, 0), Duration::from_millis(4000));
    assert_eq!(jitter(base, 1000), Duration::from_millis(5000));
    assert_eq!(jitter(base, 2000), Duration::from_millis(6000));
    assert_eq!(jitter(base, 2001), Duration::from_millis(4000));
    assert_eq!(jitter(Duration::from_nanos(2_500_000), 7), Duration::from_nanos(2_500_000));
    assert_eq!(jitter(Duration::from_millis(3), 1), Duration::from_millis(3));
    assert_eq!(jitter(Duration::from_millis(7), 0), Duration::from_millis(6));
    assert_eq!(jitter(Duration::from_millis(7), 2), Duration::from_millis(8));
    let longest = Duration::new(u64::MAX, 999_999_999);
    for base in [Duration::from_nanos(3_999_999), Duration::from_nanos(12_345_678), longest] {
        for entropy in [0, 1, 2, 3, 999_999_999, u64::MAX] {
            let (n, r) = (nanos(base), nanos(jitter(base, entropy)));
            assert!(4 * n <= 5 * r && 5 * r <= 6 * n);
        }
    }
    for _ in 0..50 {
        let pause = jittered(base);
        assert!(pause >= Duration::from_secs(4) && pause <= Duration::from_secs(6));
        let pause = poll_backoff();
        assert!(pause >= Duration::from_secs(4) && pause <= Duration::from_secs(6));
    }
}

#[test]
fn instants_are_written_in_rfc3339() {
    let at = |secs: u64, nanos: u32| Some(Duration::new(secs, nanos));
    let none = Duration::from_secs(0);
    assert_eq!(rfc3339_from(at(0, 0), none).unwrap(), "1970-01-01T00:00:00Z");
    assert_eq!(rfc3339_from(at(1_516_991_409, 453_829_000), none).unwrap(), "2018-01-26T18:30:09Z");
    assert_eq!(
        rfc3339_from(at(1_516_991_409, 600_000_000), Duration::from_millis(400)).unwrap(),
        "2018-01-26T18:30:10Z"
    );
    assert_eq!(
        rfc3339_from(at(1_516_991_409, 0), Duration::from_secs(60)).unwrap(),
        "2018-01-26T18:31:09Z"
    );
    assert_eq!(rfc3339_from(None, none), None);
}

#[test]
fn instants_end_where_the_calendar_does() {
    let none = Duration::from_secs(0);
    let last = Duration::from_secs(8_210_266_876_799);
    assert_eq!(rfc3339_from(Some(last), none).unwrap(), "+262142-12-31T23:59:59Z");
    assert_eq!(rfc3339_from(Some(last), Duration::from_secs(1)), None);
    assert_eq!(rfc3339_from(Some(Duration::from_secs(8_210_266_876_800)), none), None);
    // A shift that is too long for an instant does not shift it.
    let longest = Duration::new(9_223_372_036_854_775, 807_000_000);
    assert_eq!(rfc3339_from(Some(none), longest), None);
    let beyond = Duration::new(9_223_372_036_854_775, 807_000_001);
    assert_eq!(rfc3339_from(Some(none), beyond).unwrap(), "1970-01-01T00:00:00Z");
}

#[test]
fn the_present_instant_is_written() {
    let chrono_now = chrono::Utc::now().timestamp();
    let now = chrono::DateTime::parse_from_rfc3339(&now_rfc3339().unwrap()).unwrap().timestamp();
    assert!(now >= chrono_now && now < chrono_now + 60);
    let later = rfc3339_after(Duration::from_secs(100)).unwrap();
    let later = chrono::DateTime::parse_from_rfc3339(&later).unwrap().timestamp();
    assert!(later >= chrono_now + 100 && later < chrono_now + 160);
}
