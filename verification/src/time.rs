//! Spans of time, the wall clock and the instants that are shown to operators.

use vstd::prelude::*;

use crate::http::text_of;

verus! {

/// Nanoseconds in a second.
pub const NANOS_PER_SEC: u128 = 1_000_000_000;

/// Nanoseconds in a millisecond.
pub const NANOS_PER_MILLI: u128 = 1_000_000;

/// The longest span: all the seconds that 64 bits can count, and a last incomplete one.
pub const MAX_SPAN_NANOS: u128 = 18_446_744_073_709_551_615_999_999_999;

/// A span of time with nanosecond resolution. Its view is its length in nanoseconds.
#[derive(Clone, Copy, Debug, PartialEq, Eq, PartialOrd, Ord, Structural)]
pub struct Duration {
    nanos: u128,
}

impl View for Duration {
    type V = nat;

    closed spec fn view(&self) -> nat {
        self.nanos as nat
    }
}

impl Duration {
    #[verifier::type_invariant]
    spec fn fits(self) -> bool {
        self.nanos <= MAX_SPAN_NANOS
    }

    /// A span of whole seconds and the nanoseconds after the last of them.
    pub fn new(secs: u64, nanos: u32) -> (r: Duration)
        requires
            nanos < NANOS_PER_SEC,
        ensures
            r@ == secs * NANOS_PER_SEC + nanos,
    {
        Duration { nanos: secs as u128 * NANOS_PER_SEC + nanos as u128 }
    }

    /// A span of whole seconds.
    pub fn from_secs(secs: u64) -> (r: Duration)
        ensures
            r@ == secs * NANOS_PER_SEC,
    {
        Duration { nanos: secs as u128 * NANOS_PER_SEC }
    }

    /// A span of whole milliseconds.
    pub fn from_millis(millis: u64) -> (r: Duration)
        ensures
            r@ == millis * NANOS_PER_MILLI,
    {
        Duration { nanos: millis as u128 * NANOS_PER_MILLI }
    }

    /// A span of nanoseconds.
    pub fn from_nanos(nanos: u64) -> (r: Duration)
        ensures
            r@ == nanos,
    {
        Duration { nanos: nanos as u128 }
    }

    /// The whole seconds of the span.
    pub fn as_secs(&self) -> (r: u64)
        ensures
            r == self@ / NANOS_PER_SEC as nat,
    {
        proof {
            use_type_invariant(self);
        }
        (self.nanos / NANOS_PER_SEC) as u64
    }

    /// The nanoseconds after the last whole second.
    pub fn subsec_nanos(&self) -> (r: u32)
        ensures
            r == self@ % NANOS_PER_SEC as nat,
            r < NANOS_PER_SEC,
    {
        (self.nanos % NANOS_PER_SEC) as u32
    }

    /// The whole milliseconds of the span.
    pub fn as_millis(&self) -> (r: u128)
        ensures
            r == self@ / NANOS_PER_MILLI as nat,
            r <= MAX_SPAN_NANOS / NANOS_PER_MILLI,
    {
        proof {
            use_type_invariant(self);
        }
        self.nanos / NANOS_PER_MILLI
    }

    /// Whether the span has no length.
    pub fn is_zero(&self) -> (r: bool)
        ensures
            r == (self@ == 0),
    {
        self.nanos == 0
    }

    /// The span taken `factor` times, or the longest span where that is shorter.
    pub fn saturating_mul(self, factor: u32) -> (r: Duration)
        ensures
            r@ == if self@ * factor <= MAX_SPAN_NANOS {
                (self@ * factor) as nat
            } else {
                MAX_SPAN_NANOS as nat
            },
    {
        proof {
            use_type_invariant(&self);
        }
        let n: u128 = self.nanos;
        assert(n * factor <= MAX_SPAN_NANOS * 0xffff_ffff) by (nonlinear_arith)
            requires
                n <= MAX_SPAN_NANOS,
                factor <= 0xffff_ffff,
        ;
        let product: u128 = n * factor as u128;
        if product <= MAX_SPAN_NANOS {
            Duration { nanos: product }
        } else {
            Duration { nanos: MAX_SPAN_NANOS }
        }
    }

    /// The span cut into `parts` equal parts, rounded down to a nanosecond.
    pub fn div(self, parts: u32) -> (r: Duration)
        requires
            parts > 0,
        ensures
            r@ == self@ / parts as nat,
    {
        proof {
            use_type_invariant(&self);
            let n: u128 = self.nanos;
            assert(n / parts as u128 <= n) by (nonlinear_arith)
                requires
                    parts > 0,
            ;
        }
        Duration { nanos: self.nanos / parts as u128 }
    }

    /// The shorter of two spans.
    pub fn min(self, other: Duration) -> (r: Duration)
        ensures
            r@ == if self@ <= other@ {
                self@
            } else {
                other@
            },
    {
        if self.nanos <= other.nanos {
            self
        } else {
            other
        }
    }
}

/// Whole-millisecond TTL to a span; no TTL stays none.
pub fn ttl_from_ms(ttl_ms: Option<u64>) -> (r: Option<Duration>)
    ensures
        ttl_ms is None ==> r is None,
        ttl_ms matches Some(ms) ==> (r matches Some(d) && d@ == ms * NANOS_PER_MILLI),
{
    match ttl_ms {
        Some(ms) => Some(Duration::from_millis(ms)),
        None => None,
    }
}

/// Reads the wall clock with `std::time::SystemTime::elapsed` of the Unix epoch: the whole seconds
/// since then and the nanoseconds after the last of them, which stay below a second. Nothing where
/// the clock stands before the epoch. What the clock shows is not claimed.
#[verifier::external_body]
fn since_epoch() -> (r: Option<(u64, u32)>)
    ensures
        r matches Some(t) ==> t.1 < NANOS_PER_SEC,
{
    match std::time::UNIX_EPOCH.elapsed() {
        Ok(d) => Some((d.as_secs(), d.subsec_nanos())),
        Err(_) => None,
    }
}

/// What the clock shows, in nanoseconds since the Unix epoch, given the whole seconds since then and
/// the nanoseconds after the last of them. Nothing where the clock stands before the epoch.
pub open spec fn shown_by(elapsed: Option<(u64, u32)>) -> Option<nat> {
    match elapsed {
        Some((secs, nanos)) => Some((secs * NANOS_PER_SEC + nanos) as nat),
        None => None,
    }
}

/// The clock reading that the seconds and nanoseconds since the Unix epoch make.
pub fn reading_from(elapsed: Option<(u64, u32)>) -> (r: Option<Duration>)
    requires
        elapsed matches Some(t) ==> t.1 < NANOS_PER_SEC,
    ensures
        reading_of(r) == shown_by(elapsed),
{
    match elapsed {
        Some((secs, nanos)) => Some(Duration::new(secs, nanos)),
        None => None,
    }
}

/// The time since the Unix epoch, where the clock does not stand before it. What the clock shows is
/// not claimed, only that it is made of whole seconds and less than a second beyond them.
pub fn wall_clock() -> (r: Option<Duration>)
    ensures
        exists|elapsed: Option<(u64, u32)>|
            reading_of(r) == #[trigger] shown_by(elapsed) && (elapsed matches Some(t) ==> t.1
                < NANOS_PER_SEC),
        r matches Some(d) ==> d@ <= MAX_SPAN_NANOS,
{
    let elapsed = since_epoch();
    reading_from(elapsed)
}

/// The milliseconds of a clock reading, capped at what 64 bits hold; zero before the epoch.
pub open spec fn unix_ms(reading: Option<nat>) -> u64 {
    match reading {
        Some(nanos) => capped_ms(nanos),
        None => 0,
    }
}

/// The whole milliseconds of a span, capped at what 64 bits hold.
pub open spec fn capped_ms(nanos: nat) -> u64 {
    let ms = nanos / NANOS_PER_MILLI as nat;
    if ms <= u64::MAX {
        ms as u64
    } else {
        u64::MAX
    }
}

/// What a clock reading is in the model: the nanoseconds since the epoch.
pub open spec fn reading_of(reading: Option<Duration>) -> Option<nat> {
    match reading {
        Some(d) => Some(d@),
        None => None,
    }
}

fn millis_capped(d: Duration) -> (r: u64)
    ensures
        r == capped_ms(d@),
{
    let ms: u128 = d.as_millis();
    if ms <= u64::MAX as u128 {
        ms as u64
    } else {
        u64::MAX
    }
}

/// The Unix time in milliseconds of a clock reading.
pub fn unix_ms_of(reading: Option<Duration>) -> (r: u64)
    ensures
        r == unix_ms(reading_of(reading)),
{
    match reading {
        Some(d) => millis_capped(d),
        None => 0,
    }
}

/// The Unix time in milliseconds: that of some reading of the clock.
pub fn now_unix_ms() -> (r: u64)
    ensures
        exists|reading: Option<Duration>| r == unix_ms(#[trigger] reading_of(reading)),
{
    let reading = wall_clock();
    unix_ms_of(reading)
}

/// When something that lives for `ttl` nanoseconds from `now_ms` on expires: Unix milliseconds,
/// capped at what 64 bits hold.
pub open spec fn expiry_after(now_ms: u64, ttl: nat) -> u64 {
    if now_ms + capped_ms(ttl) <= u64::MAX {
        (now_ms + capped_ms(ttl)) as u64
    } else {
        u64::MAX
    }
}

/// The absolute expiry of something that lives for `ttl` from `now_ms` on.
pub fn expires_at(now_ms: u64, ttl: Duration) -> (r: u64)
    ensures
        r == expiry_after(now_ms, ttl@),
{
    now_ms.saturating_add(millis_capped(ttl))
}

/// The absolute expiry of something that lives for `ttl` from now on.
pub fn expires_at_from_ttl(ttl: Duration) -> (r: u64)
    ensures
        exists|now_ms: u64| r == #[trigger] expiry_after(now_ms, ttl@),
        r >= capped_ms(ttl@),
{
    let now_ms: u64 = now_unix_ms();
    expires_at(now_ms, ttl)
}

/// The shortest jittered pause: the least whole millisecond at or above four fifths of a span.
pub open spec fn jitter_low(base: nat) -> nat {
    (4 * base + 4_999_999) / 5_000_000
}

/// The longest jittered pause: the greatest whole millisecond at or below six fifths of a span, and
/// no longer than the longest span.
pub open spec fn jitter_high(base: nat) -> nat {
    let most = 6 * base / 5;
    (if most <= MAX_SPAN_NANOS {
        most
    } else {
        MAX_SPAN_NANOS as nat
    }) / NANOS_PER_MILLI as nat
}

/// A pause of about `base` nanoseconds: the whole milliseconds within a fifth of it that `entropy`
/// picks. A pause below three milliseconds stays as it is.
pub open spec fn jittered_by(base: nat, entropy: u64) -> nat {
    if base / (NANOS_PER_MILLI as nat) < 3 {
        base
    } else {
        let choices = (jitter_high(base) - jitter_low(base) + 1) as nat;
        (jitter_low(base) + entropy as nat % choices) * (NANOS_PER_MILLI as nat)
    }
}

proof fn lemma_jitter_choices(base: nat, entropy: u64)
    requires
        3 * NANOS_PER_MILLI <= base <= MAX_SPAN_NANOS,
    ensures
        jitter_low(base) <= jitter_high(base),
        entropy as nat % (jitter_high(base) - jitter_low(base) + 1) as nat <= jitter_high(base)
            - jitter_low(base),
        jitter_high(base) * NANOS_PER_MILLI <= MAX_SPAN_NANOS,
{
    let choices = (jitter_high(base) - jitter_low(base) + 1) as nat;
    assert(choices > 0);
    assert((entropy as nat % choices) < choices) by (nonlinear_arith)
        requires
            choices > 0,
    ;
}

/// Spreads a pause around its length, by what `entropy` picks.
pub fn jitter(base: Duration, entropy: u64) -> (r: Duration)
    ensures
        r@ == jittered_by(base@, entropy),
        4 * base@ <= 5 * r@ <= 6 * base@,
{
    proof {
        use_type_invariant(&base);
        jitter_stays_within_a_fifth(base@, entropy);
    }
    if base.as_millis() < 3 {
        return base;
    }
    proof {
        lemma_jitter_choices(base@, entropy);
    }
    let n: u128 = base.nanos;
    let low: u128 = (4 * n + 4_999_999) / 5_000_000;
    let six_fifths: u128 = 6 * n / 5;
    let most: u128 = if six_fifths <= MAX_SPAN_NANOS {
        six_fifths
    } else {
        MAX_SPAN_NANOS
    };
    let high: u128 = most / NANOS_PER_MILLI;
    let part: u128 = entropy as u128 % (high - low + 1);
    Duration { nanos: (low + part) * NANOS_PER_MILLI }
}

/// Spreads a pause around its length by the sub-second nanoseconds of the clock, so that replicas
/// that failed together do not retry together.
pub fn jittered(base: Duration) -> (r: Duration)
    ensures
        exists|entropy: u64| entropy < NANOS_PER_SEC && r@ == #[trigger] jittered_by(base@, entropy),
        4 * base@ <= 5 * r@ <= 6 * base@,
{
    let entropy: u64 = match wall_clock() {
        Some(d) => d.subsec_nanos() as u64,
        None => 0,
    };
    jitter(base, entropy)
}

/// A jittered pause is off by no more than a fifth.
pub proof fn jitter_stays_within_a_fifth(base: nat, entropy: u64)
    requires
        base <= MAX_SPAN_NANOS,
    ensures
        4 * base <= 5 * jittered_by(base, entropy) <= 6 * base,
{
    if base >= 3 * NANOS_PER_MILLI {
        lemma_jitter_choices(base, entropy);
    }
}

/// The first second that an instant shown to operators can have: the start of the year -262143.
pub const FIRST_INSTANT: i64 = -8_334_601_228_800;

/// The last second that an instant shown to operators can have: the end of the year 262142.
pub const LAST_INSTANT: i64 = 8_210_266_876_799;

/// The longest shift of an instant, in nanoseconds: as many milliseconds as 63 bits count.
pub const MAX_SHIFT_NANOS: u128 = 9_223_372_036_854_775_807_000_000;

/// What chrono writes for the second `secs` after the Unix epoch: RFC 3339 in UTC, with whole
/// seconds and a `Z`.
pub uninterp spec fn rfc3339_text(secs: i64) -> Seq<char>;

/// Writes an instant with `chrono::DateTime::from_timestamp` and
/// `chrono::DateTime::to_rfc3339_opts`. There is a text exactly for the seconds of the years that
/// chrono represents, and it depends on the second alone.
#[verifier::external_body]
fn format_instant(secs: i64) -> (r: Option<String>)
    ensures
        r is Some == (FIRST_INSTANT <= secs <= LAST_INSTANT),
        r matches Some(text) ==> text@ == rfc3339_text(secs),
{
    match chrono::DateTime::from_timestamp(secs, 0) {
        Some(t) => Some(t.to_rfc3339_opts(chrono::SecondsFormat::Secs, true)),
        None => None,
    }
}

/// The second in which an instant `ttl` after the clock reading `now` falls. A `ttl` that is too
/// long for a shift of an instant does not shift it.
pub open spec fn second_after(now: nat, ttl: nat) -> nat {
    let shift = if ttl <= MAX_SHIFT_NANOS {
        ttl
    } else {
        0
    };
    (now + shift) / NANOS_PER_SEC as nat
}

/// The text of the instant `ttl` after the clock reading `now`. There is none where there is no
/// reading, or where the instant lies beyond the last one.
pub open spec fn instant_text(now: Option<nat>, ttl: nat) -> Option<Seq<char>> {
    match now {
        Some(now) => if second_after(now, ttl) <= LAST_INSTANT {
            Some(rfc3339_text(second_after(now, ttl) as i64))
        } else {
            None
        },
        None => None,
    }
}

/// Whether `text` writes the instant `ttl` after the clock reading `now`, if there is one.
pub open spec fn writes_instant(text: Option<String>, now: Option<nat>, ttl: nat) -> bool {
    text_of(text) == instant_text(now, ttl)
}

/// The instant `ttl` after a clock reading, in RFC 3339.
pub fn rfc3339_from(now: Option<Duration>, ttl: Duration) -> (r: Option<String>)
    ensures
        writes_instant(r, reading_of(now), ttl@),
{
    let now = match now {
        Some(d) => d,
        None => {
            return None;
        },
    };
    proof {
        use_type_invariant(&now);
    }
    let shift: u128 = if ttl.nanos <= MAX_SHIFT_NANOS {
        ttl.nanos
    } else {
        0
    };
    let secs: u128 = (now.nanos + shift) / NANOS_PER_SEC;
    if secs > LAST_INSTANT as u128 {
        return None;
    }
    format_instant(secs as i64)
}

/// The instant `ttl` from now, in RFC 3339.
pub fn rfc3339_after(ttl: Duration) -> (r: Option<String>)
    ensures
        exists|now: Option<Duration>| writes_instant(r, #[trigger] reading_of(now), ttl@),
{
    let now = wall_clock();
    rfc3339_from(now, ttl)
}

/// The present instant, in RFC 3339.
pub fn now_rfc3339() -> (r: Option<String>)
    ensures
        exists|now: Option<Duration>| writes_instant(r, #[trigger] reading_of(now), 0),
{
    rfc3339_after(Duration::from_secs(0))
}

/// A longer TTL never expires earlier, and nothing expires before it was written.
pub proof fn expiry_grows_with_ttl(now_ms: u64, short: nat, long: nat)
    requires
        short <= long,
    ensures
        now_ms <= expiry_after(now_ms, short) <= expiry_after(now_ms, long),
{
    assert(short / NANOS_PER_MILLI as nat <= long / NANOS_PER_MILLI as nat) by (nonlinear_arith)
        requires
            short <= long,
    ;
}

/// A clock reading keeps the seconds and the nanoseconds that it was made of, and there is none
/// exactly where the clock stands before the epoch.
pub proof fn a_reading_keeps_its_parts(secs: u64, nanos: u32)
    requires
        nanos < 1_000_000_000,
    ensures
        shown_by(None) is None,
        shown_by(Some((secs, nanos))) matches Some(n) && n / 1_000_000_000 == secs && n % 1_000_000_000
            == nanos,
{
}

/// The Unix time of a clock reading counts its whole milliseconds, as far as 64 bits count; it is
/// zero before the epoch.
pub proof fn unix_time_counts_whole_milliseconds(nanos: nat, ms: nat)
    requires
        ms * 1_000_000 <= nanos < (ms + 1) * 1_000_000,
    ensures
        unix_ms(None) == 0,
        ms <= 0xffff_ffff_ffff_ffff ==> unix_ms(Some(nanos)) == ms,
        ms > 0xffff_ffff_ffff_ffff ==> unix_ms(Some(nanos)) == 0xffff_ffff_ffff_ffff,
{
}

/// A span in the model is what a clock reading shows of it.
pub proof fn readings_are_spans(reading: Option<Duration>)
    ensures
        reading is None <==> reading_of(reading) is None,
        reading matches Some(d) ==> reading_of(reading) == Some(d@),
{
}

/// What lives for `ms` whole milliseconds from `now_ms` on expires that much later, whatever part of a
/// millisecond is left over; what would expire beyond 64 bits never does.
pub proof fn an_expiry_lies_the_ttl_ahead(now_ms: u64, ttl: nat, ms: nat)
    requires
        ms * 1_000_000 <= ttl < (ms + 1) * 1_000_000,
    ensures
        now_ms + ms <= 0xffff_ffff_ffff_ffff ==> expiry_after(now_ms, ttl) == now_ms + ms,
        now_ms + ms > 0xffff_ffff_ffff_ffff ==> expiry_after(now_ms, ttl) == 0xffff_ffff_ffff_ffff,
{
}

/// A jittered pause can be any whole millisecond within a fifth of the pause, and nothing else; a
/// pause below three milliseconds stays as it is.
pub proof fn jitter_picks_any_millisecond_within_a_fifth(base: nat, entropy: u64, ms: nat) -> (picks: u64)
    requires
        base <= 0xffff_ffff_ffff_ffff,
    ensures
        base < 3_000_000 ==> jittered_by(base, entropy) == base,
        base >= 3_000_000 ==> jittered_by(base, entropy) % 1_000_000 == 0,
        base >= 3_000_000 && 4 * base <= 5 * (ms * 1_000_000) <= 6 * base ==> jittered_by(base, picks)
            == ms * 1_000_000,
{
    if base >= 3_000_000 {
        lemma_jitter_choices(base, entropy);
        let choices = (jitter_high(base) - jitter_low(base) + 1) as nat;
        assert(jittered_by(base, entropy) % 1_000_000 == 0) by (nonlinear_arith)
            requires
                jittered_by(base, entropy) == (jitter_low(base) + entropy as nat % choices)
                    * 1_000_000,
        ;
        if 4 * base <= 5 * (ms * 1_000_000) <= 6 * base {
            assert(jitter_low(base) <= ms <= jitter_high(base));
            let picks = (ms - jitter_low(base)) as u64;
            assert(picks as nat % choices == picks) by (nonlinear_arith)
                requires
                    picks < choices,
            ;
            picks
        } else {
            0
        }
    } else {
        0
    }
}

/// Consecutive entropies pick consecutive milliseconds, or start again at the shortest pause.
pub proof fn jitter_goes_round(base: nat, entropy: u64)
    requires
        3_000_000 <= base <= 0xffff_ffff_ffff_ffff,
        entropy < 0xffff_ffff_ffff_ffff,
    ensures
        ({
            let next = jittered_by(base, (entropy + 1) as u64);
            next == jittered_by(base, entropy) + 1_000_000 || (4 * base <= 5 * next && 5 * next < 4 * base
                + 5_000_000)
        }),
{
    lemma_jitter_choices(base, entropy);
    let c = (jitter_high(base) - jitter_low(base) + 1) as nat;
    let e = entropy as nat;
    let low = jitter_low(base);
    assert((e + 1) % c == e % c + 1 || (e + 1) % c == 0) by (nonlinear_arith)
        requires
            c > 0,
    ;
    assert(jittered_by(base, (entropy + 1) as u64) == (low + (e + 1) % c) * 1_000_000);
    assert(jittered_by(base, entropy) == (low + e % c) * 1_000_000);
}

/// An instant is written by the second in which it falls: the clock reading and the TTL added up. A
/// TTL beyond what an instant can be shifted by adds nothing. There is no text beyond the calendar,
/// and none without a reading.
pub proof fn an_instant_is_written_by_its_second(now: nat, ttl: nat, secs: nat)
    requires
        ttl <= 9_223_372_036_854_775_807_000_000 ==> secs * 1_000_000_000 <= now + ttl < (secs + 1)
            * 1_000_000_000,
        ttl > 9_223_372_036_854_775_807_000_000 ==> secs * 1_000_000_000 <= now < (secs + 1)
            * 1_000_000_000,
    ensures
        secs <= 8_210_266_876_799 ==> instant_text(Some(now), ttl) == Some(rfc3339_text(secs as i64)),
        secs > 8_210_266_876_799 ==> instant_text(Some(now), ttl) is None,
        instant_text(None, ttl) is None,
{
}

/// A text writes an instant where it is the text of that instant, and no text does where there is none.
pub proof fn a_text_writes_its_instant(text: String, now: Option<nat>, ttl: nat)
    ensures
        writes_instant(Some(text), now, ttl) <==> instant_text(now, ttl) == Some(text@),
        writes_instant(None, now, ttl) <==> instant_text(now, ttl) is None,
{
}

} // verus!
