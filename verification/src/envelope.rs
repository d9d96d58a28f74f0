//! The envelope around a stored value, which carries its logical expiry.
//!
//! Consul KV has no TTL of its own for a key. So every value is stored with a header: a version
//! byte, a flag byte and, where the flag says so, the absolute expiry in Unix milliseconds as eight
//! bytes, most significant first. The value follows.

use vstd::prelude::*;
use vstd::slice::*;

verus! {

/// The version of the envelope.
pub const VERSION: u8 = 0x01;

/// The flag of a value without an expiry.
pub const FLAG_NONE: u8 = 0x00;

/// The flag of a value with an expiry.
pub const FLAG_EXPIRES: u8 = 0x01;

/// The lowest `count` bytes of `n`, most significant first.
pub open spec fn big_endian(n: nat, count: nat) -> Seq<u8>
    decreases count,
{
    if count == 0 {
        Seq::empty()
    } else {
        big_endian(n / 256, (count - 1) as nat).push((n % 256) as u8)
    }
}

/// The number that bytes write, most significant first.
pub open spec fn big_endian_value(bytes: Seq<u8>) -> nat
    decreases bytes.len(),
{
    if bytes.len() == 0 {
        0
    } else {
        big_endian_value(bytes.drop_last()) * 256 + bytes.last() as nat
    }
}

/// A value in its envelope.
pub open spec fn wrapped(value: Seq<u8>, expires: Option<u64>) -> Seq<u8> {
    match expires {
        None => seq![VERSION, FLAG_NONE] + value,
        Some(ms) => seq![VERSION, FLAG_EXPIRES] + big_endian(ms as nat, 8) + value,
    }
}

/// The value and the expiry in an envelope. Nothing where the bytes are no envelope of this version.
pub open spec fn unwrapped(bytes: Seq<u8>) -> Option<(Seq<u8>, Option<u64>)> {
    if bytes.len() < 2 || bytes[0] != VERSION {
        None
    } else if bytes[1] == FLAG_NONE {
        Some((bytes.skip(2), None))
    } else if bytes[1] == FLAG_EXPIRES && bytes.len() >= 10 {
        Some((bytes.skip(10), Some(big_endian_value(bytes.subrange(2, 10)) as u64)))
    } else {
        None
    }
}

/// What [`decode`] gives, in the model.
pub open spec fn contents(o: Option<(Vec<u8>, Option<u64>)>) -> Option<(Seq<u8>, Option<u64>)> {
    match o {
        Some((value, expires)) => Some((value@, expires)),
        None => None,
    }
}

fn push_big_endian(out: &mut Vec<u8>, n: u64, count: usize)
    ensures
        final(out)@ == old(out)@ + big_endian(n as nat, count as nat),
    decreases count,
{
    if count > 0 {
        push_big_endian(out, n / 256, count - 1);
        out.push((n % 256) as u8);
    }
    assert(out@ =~= old(out)@ + big_endian(n as nat, count as nat));
}

fn push_all(out: &mut Vec<u8>, bytes: &[u8])
    ensures
        final(out)@ == old(out)@ + bytes@,
{
    out.extend_from_slice(bytes);
    assert(out@ =~= old(out)@ + bytes@);
}

/// Wraps a value with an optional absolute expiry in Unix milliseconds.
pub fn encode(value: &[u8], expires_at_unix_ms: Option<u64>) -> (r: Vec<u8>)
    ensures
        r@ == wrapped(value@, expires_at_unix_ms),
{
    let mut out: Vec<u8> = Vec::new();
    out.push(VERSION);
    match expires_at_unix_ms {
        None => {
            out.push(FLAG_NONE);
            assert(out@ =~= seq![VERSION, FLAG_NONE]);
        },
        Some(ms) => {
            out.push(FLAG_EXPIRES);
            assert(out@ =~= seq![VERSION, FLAG_EXPIRES]);
            push_big_endian(&mut out, ms, 8);
        },
    }
    push_all(&mut out, value);
    out
}

proof fn lemma_power_step(n: nat, bound: nat, whole: nat)
    requires
        whole == bound * 256,
        n < whole,
    ensures
        n / 256 < bound,
{
}

/// The bound on a number of `count` bytes.
pub open spec fn byte_bound(count: nat) -> nat
    decreases count,
{
    if count == 0 {
        1
    } else {
        byte_bound((count - 1) as nat) * 256
    }
}

proof fn lemma_value_bound(bytes: Seq<u8>)
    ensures
        big_endian_value(bytes) < byte_bound(bytes.len()),
    decreases bytes.len(),
{
    if bytes.len() > 0 {
        lemma_value_bound(bytes.drop_last());
    }
}

proof fn lemma_eight_bytes()
    ensures
        byte_bound(8) == 0x1_0000_0000_0000_0000,
{
    reveal_with_fuel(byte_bound, 9);
}

proof fn lemma_bytes_of_value(n: nat, count: nat)
    requires
        n < byte_bound(count),
    ensures
        big_endian(n, count).len() == count,
        big_endian_value(big_endian(n, count)) == n,
    decreases count,
{
    if count > 0 {
        lemma_power_step(n, byte_bound((count - 1) as nat), byte_bound(count));
        lemma_bytes_of_value(n / 256, (count - 1) as nat);
        assert(big_endian(n, count).drop_last() =~= big_endian(n / 256, (count - 1) as nat));
    }
}

proof fn lemma_value_of_bytes(bytes: Seq<u8>)
    ensures
        big_endian(big_endian_value(bytes), bytes.len()) == bytes,
    decreases bytes.len(),
{
    if bytes.len() > 0 {
        let rest = bytes.drop_last();
        lemma_value_of_bytes(rest);
        let n = big_endian_value(bytes);
        assert(n / 256 == big_endian_value(rest));
        assert(n % 256 == bytes.last());
        assert(big_endian(n, bytes.len()) =~= bytes);
    } else {
        assert(big_endian(0, 0) =~= bytes);
    }
}

fn read_big_endian(bytes: &[u8]) -> (r: u64)
    requires
        bytes@.len() <= 8,
    ensures
        r == big_endian_value(bytes@),
{
    let mut value: u64 = 0;
    let mut i: usize = 0;
    while i < bytes.len()
        invariant
            i <= bytes@.len() <= 8,
            value == big_endian_value(bytes@.take(i as int)),
        decreases bytes@.len() - i,
    {
        let low: u64 = bytes[i] as u64;
        proof {
            let next = bytes@.take(i + 1);
            assert(next.drop_last() =~= bytes@.take(i as int));
            lemma_value_bound(next);
            reveal_with_fuel(byte_bound, 9);
        }
        value = value * 256 + low;
        i += 1;
    }
    assert(bytes@.take(i as int) =~= bytes@);
    value
}

/// Takes a value and its expiry out of an envelope. Nothing where the bytes are no envelope of this
/// version, as when a foreign writer touched the key.
pub fn decode(bytes: &[u8]) -> (r: Option<(Vec<u8>, Option<u64>)>)
    ensures
        contents(r) == unwrapped(bytes@),
{
    let n: usize = bytes.len();
    if n < 2 || bytes[0] != VERSION {
        return None;
    }
    if bytes[1] == FLAG_NONE {
        let value = slice_to_vec(slice_subrange(bytes, 2, n));
        assert(value@ =~= bytes@.skip(2));
        return Some((value, None));
    }
    if bytes[1] == FLAG_EXPIRES {
        if n < 10 {
            return None;
        }
        let ms: u64 = read_big_endian(slice_subrange(bytes, 2, 10));
        let value = slice_to_vec(slice_subrange(bytes, 10, n));
        assert(value@ =~= bytes@.skip(10));
        return Some((value, Some(ms)));
    }
    None
}

/// What was wrapped comes out again: the value and the expiry.
pub proof fn unwrapping_undoes_wrapping(value: Seq<u8>, expires: Option<u64>)
    ensures
        unwrapped(wrapped(value, expires)) == Some((value, expires)),
{
    let bytes = wrapped(value, expires);
    match expires {
        None => {
            assert(bytes.skip(2) =~= value);
        },
        Some(ms) => {
            lemma_eight_bytes();
            lemma_bytes_of_value(ms as nat, 8);
            assert(bytes.subrange(2, 10) =~= big_endian(ms as nat, 8));
            assert(bytes.skip(10) =~= value);
        },
    }
}

/// Nothing but an envelope can be unwrapped: the bytes are those that wrapping the same value with
/// the same expiry gives.
pub proof fn only_envelopes_unwrap(bytes: Seq<u8>)
    ensures
        unwrapped(bytes) matches Some((value, expires)) ==> bytes == wrapped(value, expires),
{
    if let Some((value, expires)) = unwrapped(bytes) {
        match expires {
            None => {
                assert(bytes =~= wrapped(value, expires));
            },
            Some(ms) => {
                let stamp = bytes.subrange(2, 10);
                lemma_eight_bytes();
                lemma_value_bound(stamp);
                lemma_value_of_bytes(stamp);
                assert(ms as nat == big_endian_value(stamp));
                assert(bytes =~= seq![VERSION, FLAG_EXPIRES] + stamp + value);
            },
        }
    }
}

/// The layout of an envelope: a version byte, a flag byte, the eight bytes of the expiry where there is
/// one, the most significant first, and then the value, whole.
pub proof fn an_envelope_is_laid_out_byte_by_byte(value: Seq<u8>, ms: u64)
    ensures
        ({
            let plain = wrapped(value, None);
            &&& plain.len() == 2 + value.len()
            &&& plain[0] == 1 && plain[1] == 0
            &&& plain.skip(2) == value
        }),
        ({
            let stamped = wrapped(value, Some(ms));
            &&& stamped.len() == 10 + value.len()
            &&& stamped[0] == 1 && stamped[1] == 1
            &&& stamped.skip(10) == value
            &&& ms == stamped[2] * 0x100_0000_0000_0000 + stamped[3] * 0x1_0000_0000_0000 + stamped[4]
                * 0x100_0000_0000 + stamped[5] * 0x1_0000_0000 + stamped[6] * 0x100_0000 + stamped[7]
                * 0x1_0000 + stamped[8] * 0x100 + stamped[9]
        }),
{
    let plain = wrapped(value, None);
    assert(plain.skip(2) =~= value);
    let stamped = wrapped(value, Some(ms));
    let stamp = big_endian(ms as nat, 8);
    lemma_eight_bytes();
    lemma_bytes_of_value(ms as nat, 8);
    assert(stamped.skip(10) =~= value);
    assert(stamped.subrange(2, 10) =~= stamp);
    assert forall|i: int| 0 <= i < 8 implies stamp[i] == stamped[i + 2] by {}
    let s7 = stamp.drop_last();
    let s6 = s7.drop_last();
    let s5 = s6.drop_last();
    let s4 = s5.drop_last();
    let s3 = s4.drop_last();
    let s2 = s3.drop_last();
    let s1 = s2.drop_last();
    assert(big_endian_value(s1.drop_last()) == 0);
    assert(s1.last() == stamp[0]);
    assert(big_endian_value(s1) == stamp[0]);
    assert(big_endian_value(s2) == big_endian_value(s1) * 256 + stamp[1]);
    assert(big_endian_value(s3) == big_endian_value(s2) * 256 + stamp[2]);
    assert(big_endian_value(s4) == big_endian_value(s3) * 256 + stamp[3]);
    assert(big_endian_value(s5) == big_endian_value(s4) * 256 + stamp[4]);
    assert(big_endian_value(s6) == big_endian_value(s5) * 256 + stamp[5]);
    assert(big_endian_value(s7) == big_endian_value(s6) * 256 + stamp[6]);
    assert(big_endian_value(stamp) == big_endian_value(s7) * 256 + stamp[7]);
}

} // verus!
