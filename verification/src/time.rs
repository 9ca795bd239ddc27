//! Times in nanoseconds since the Unix epoch.

use vstd::prelude::*;

verus! {

/// The `i64` that is nearest to `value`.
pub open spec fn clamped(value: int) -> i64 {
    if value < i64::MIN {
        i64::MIN
    } else if value > i64::MAX {
        i64::MAX
    } else {
        value as i64
    }
}

/// The `i64` that is nearest to `value`.
pub fn clamp_i64(value: i128) -> (r: i64)
    ensures
        r == clamped(value as int),
{
    if value < i64::MIN as i128 {
        i64::MIN
    } else if value > i64::MAX as i128 {
        i64::MAX
    } else {
        value as i64
    }
}

/// The `i64` that is nearest to the sum.
pub fn saturating_sum(a: i64, b: i64) -> (r: i64)
    ensures
        r == clamped(a + b),
{
    clamp_i64(a as i128 + b as i128)
}

/// The seconds since the Unix epoch, and the nanoseconds since the last full
/// second, of the instant that `text` writes in RFC 3339.
pub uninterp spec fn rfc3339(text: Seq<char>) -> Option<(i64, u32)>;

/// Calls `chrono::DateTime::parse_from_rfc3339`, and `timestamp` and
/// `timestamp_subsec_nanos` on what it gives. The result, which is `None` where
/// the text is no RFC 3339 time, is named after the text it is of.
#[verifier::external_body]
fn parse_rfc3339(text: &str) -> (r: Option<(i64, u32)>)
    ensures
        r == rfc3339(text@),
{
    match chrono::DateTime::parse_from_rfc3339(text) {
        Ok(time) => Some((time.timestamp(), time.timestamp_subsec_nanos())),
        Err(_) => None,
    }
}

/// The instant that `text` writes, moved into the range of an `i64`.
pub open spec fn rfc3339_clamped(text: Seq<char>) -> Option<i64> {
    match rfc3339(text) {
        Some((seconds, nanos)) => Some(saturated_instant(seconds, nanos)),
        None => None,
    }
}

/// Seconds and nanoseconds as one number, moved into the range of an `i64`.
pub open spec fn saturated_instant(seconds: i64, nanos: u32) -> i64 {
    clamped(clamped(seconds * 1_000_000_000) + nanos)
}

/// Seconds and nanoseconds as one number, if it and the seconds alone are in the
/// range of an `i64`.
pub open spec fn checked_instant(seconds: i64, nanos: u32) -> Option<i64> {
    let whole = seconds * 1_000_000_000;
    if i64::MIN <= whole <= i64::MAX && whole + nanos <= i64::MAX {
        Some((whole + nanos) as i64)
    } else {
        None
    }
}

/// The instant that `text` writes, if it is in the range of an `i64`.
pub open spec fn rfc3339_nanos(text: Seq<char>) -> Option<i64> {
    match rfc3339(text) {
        Some((seconds, nanos)) => checked_instant(seconds, nanos),
        None => None,
    }
}

/// Seconds and nanoseconds as one number, moved into the range of an `i64`.
pub fn saturating_instant(seconds: i64, nanos: u32) -> (r: i64)
    ensures
        r == saturated_instant(seconds, nanos),
{
    let whole: i64 = clamp_i64(seconds as i128 * 1_000_000_000);
    clamp_i64(whole as i128 + nanos as i128)
}

/// Seconds and nanoseconds as one number, if it and the seconds alone are in the
/// range of an `i64`.
pub fn exact_instant(seconds: i64, nanos: u32) -> (r: Option<i64>)
    ensures
        r == checked_instant(seconds, nanos),
{
    let whole: i128 = seconds as i128 * 1_000_000_000;
    let low: i128 = i64::MIN as i128;
    let high: i128 = i64::MAX as i128;
    if low <= whole && whole <= high && whole + nanos as i128 <= high {
        Some((whole + nanos as i128) as i64)
    } else {
        None
    }
}

/// The instant that `text` writes, moved into the range of an `i64`.
pub fn parse_rfc3339_clamped(text: &str) -> (r: Option<i64>)
    ensures
        r == rfc3339_clamped(text@),
{
    match parse_rfc3339(text) {
        Some((seconds, nanos)) => Some(saturating_instant(seconds, nanos)),
        None => None,
    }
}

/// The instant that `text` writes, if it is in the range of an `i64`.
pub fn parse_rfc3339_nanos(text: &str) -> (r: Option<i64>)
    ensures
        r == rfc3339_nanos(text@),
{
    match parse_rfc3339(text) {
        Some((seconds, nanos)) => exact_instant(seconds, nanos),
        None => None,
    }
}

/// The start of the bucket of `size` that `time` is in: the greatest multiple of
/// `size` that is not after it.
pub open spec fn bucket_start(time: int, size: int) -> int {
    time / size * size
}

/// The start of the bucket of `size` that `time` is in.
pub fn bucket_start_of(time: i64, size: i64) -> (r: i128)
    requires
        size > 0,
    ensures
        r == bucket_start(time as int, size as int),
{
    proof {
        vstd::arithmetic::div_mod::lemma_fundamental_div_mod(time as int, size as int);
        vstd::arithmetic::mul::lemma_mul_is_commutative(size as int, time as int / size as int);
        vstd::arithmetic::div_mod::lemma_mod_bound(time as int, size as int);
    }
    match time.checked_rem_euclid(size) {
        Some(rest) => time as i128 - rest as i128,
        None => 0,
    }
}

/// A bucket starts at a multiple of its size, not after the time, and less than
/// one size before it.
pub proof fn law_bucket_holds_its_time(time: int, size: int)
    requires
        size > 0,
    ensures
        bucket_start(time, size) % size == 0,
        bucket_start(time, size) <= time < bucket_start(time, size) + size,
{
    vstd::arithmetic::div_mod::lemma_fundamental_div_mod(time, size);
    vstd::arithmetic::mul::lemma_mul_is_commutative(size, time / size);
    vstd::arithmetic::div_mod::lemma_mod_bound(time, size);
    vstd::arithmetic::div_mod::lemma_mod_multiples_basic(time / size, size);
}

/// A length of time.
#[derive(Debug, Clone, Copy, PartialEq, Eq, Structural)]
pub struct Duration {
    pub nanos: u128,
}

impl Duration {
    /// No time.
    pub fn zero() -> (r: Self)
        ensures
            r.nanos == 0,
    {
        Duration { nanos: 0 }
    }

    /// That many milliseconds.
    pub fn from_millis(millis: u64) -> (r: Self)
        ensures
            r.nanos == millis * 1_000_000,
    {
        Duration { nanos: millis as u128 * 1_000_000 }
    }

    pub fn is_zero(&self) -> (r: bool)
        ensures
            r == (self.nanos == 0),
    {
        self.nanos == 0
    }
}

impl Default for Duration {
    fn default() -> (r: Self)
        ensures
            r.nanos == 0,
    {
        Duration { nanos: 0 }
    }
}

/// An instant counts nanoseconds: at the epoch there are none, a second later there are a billion
/// more. Where an instant can be said, both ways to say it are the same, and else the one that
/// does not fail is as near to it as can be.
pub proof fn law_instants(seconds: i64, nanos: u32)
    ensures
        checked_instant(0, nanos) == Some(nanos as i64),
        seconds < i64::MAX && checked_instant(seconds, nanos) is Some && checked_instant(
            (seconds + 1) as i64,
            nanos,
        ) is Some ==> checked_instant((seconds + 1) as i64, nanos)->0 - checked_instant(
            seconds,
            nanos,
        )->0 == 1_000_000_000,
        checked_instant(seconds, nanos) matches Some(n) ==> saturated_instant(seconds, nanos) == n,
        checked_instant(seconds, nanos) is None ==> saturated_instant(seconds, nanos) == i64::MAX
            || saturated_instant(seconds, nanos) == i64::MIN + nanos,
        checked_instant(seconds, nanos) is None && seconds > 0 ==> saturated_instant(seconds, nanos)
            == i64::MAX,
        -9_000_000_000 <= seconds <= 9_000_000_000 ==> checked_instant(seconds, nanos) is Some,
{
}

} // verus!
