//! Spans of time, and the clock that a store reads.
use vstd::prelude::*;

verus! {

/// Nanoseconds in a second.
pub const NANOS_PER_SEC: u128 = 1_000_000_000;

/// Nanoseconds in a millisecond.
pub const NANOS_PER_MILLI: u128 = 1_000_000;

/// The longest span, in nanoseconds: one short of 2^64 seconds.
pub const MAX_NANOS: u128 = 18_446_744_073_709_551_615_999_999_999;

/// A span of time to the nanosecond, whose whole seconds fit in 64 bits.
#[derive(Clone, Copy, Debug, PartialEq, Eq)]
pub struct Duration {
    nanos: u128,
}

impl View for Duration {
    type V = nat;

    /// The span in nanoseconds.
    closed spec fn view(&self) -> nat {
        self.nanos as nat
    }
}

impl Duration {
    #[verifier::type_invariant]
    spec fn fits(self) -> bool {
        self.nanos <= MAX_NANOS
    }

    /// A span of whole seconds.
    pub fn from_secs(secs: u64) -> (d: Duration)
        ensures
            d@ == secs * NANOS_PER_SEC,
    {
        Duration { nanos: secs as u128 * NANOS_PER_SEC }
    }

    /// A span of whole milliseconds.
    pub fn from_millis(millis: u64) -> (d: Duration)
        ensures
            d@ == millis * NANOS_PER_MILLI,
    {
        Duration { nanos: millis as u128 * NANOS_PER_MILLI }
    }

    /// A span of `nanos` nanoseconds, or the longest span where that is less.
    pub fn from_nanos_saturating(nanos: u128) -> (d: Duration)
        ensures
            d@ == if nanos <= MAX_NANOS { nanos as nat } else { MAX_NANOS as nat },
    {
        if nanos <= MAX_NANOS {
            Duration { nanos }
        } else {
            Duration { nanos: MAX_NANOS }
        }
    }

    /// The whole seconds in this span.
    pub fn as_secs(&self) -> (secs: u64)
        ensures
            secs == self@ / NANOS_PER_SEC as nat,
    {
        proof {
            use_type_invariant(self);
        }
        (self.nanos / NANOS_PER_SEC) as u64
    }

    /// The whole milliseconds in this span.
    pub fn as_millis(&self) -> (millis: u128)
        ensures
            millis == self@ / NANOS_PER_MILLI as nat,
    {
        self.nanos / NANOS_PER_MILLI
    }

    /// This span in nanoseconds.
    pub fn as_nanos(&self) -> (nanos: u128)
        ensures
            nanos == self@,
            nanos <= MAX_NANOS,
    {
        proof {
            use_type_invariant(self);
        }
        self.nanos
    }
}

/// A reading of the standard library's monotonic clock.
#[verifier::external_type_specification]
#[verifier::external_body]
pub struct ExInstant(std::time::Instant);

/// `std::time::Instant::now` reads the monotonic clock. Nothing is known of
/// the reading.
pub assume_specification[ std::time::Instant::now ]() -> std::time::Instant
;

/// `std::time::Instant::elapsed` reads the monotonic clock again, and gives
/// the nanoseconds since `origin`. Nothing is known of the reading.
#[verifier::external_body]
fn nanos_since(origin: &std::time::Instant) -> u128 {
    origin.elapsed().as_nanos()
}

/// Whether a span is what a reading of the monotonic clock against `origin`
/// came to: one that a call of [`nanos_since`] on `origin` returned, or the
/// longest span where that is less.
pub closed spec fn read_from(origin: std::time::Instant, reading: nat) -> bool {
    exists|nanos: u128| #[trigger]
        call_ensures(nanos_since, (&origin,), nanos) && reading == if nanos <= MAX_NANOS {
            nanos as nat
        } else {
            MAX_NANOS as nat
        }
}

/// Whether `now` is the time on a clock that counts from `origin`, and stood at
/// `earlier` before: what a reading came to, or the earlier time where the
/// reading fell behind it.
pub open spec fn on_clock(origin: std::time::Instant, earlier: nat, now: nat) -> bool {
    exists|reading: nat| #[trigger]
        read_from(origin, reading) && now == if reading < earlier {
            earlier
        } else {
            reading
        }
}

/// The last of several times, or `from` where there are none.
pub open spec fn last_time(from: nat, times: Seq<nat>) -> nat {
    if times.len() == 0 {
        from
    } else {
        times.last()
    }
}

/// Whether `times` are times on a clock that counts from `origin`, read one
/// after the other, where the clock stood at `from` before.
pub open spec fn runs_on_clock(origin: std::time::Instant, from: nat, times: Seq<nat>) -> bool {
    forall|i: int|
        0 <= i < times.len() ==> on_clock(
            origin,
            last_time(from, times.take(i)),
            #[trigger] times[i],
        )
}

/// A time that is read after others goes on with them.
pub proof fn lemma_one_more_time(
    origin: std::time::Instant,
    from: nat,
    times: Seq<nat>,
    now: nat,
)
    requires
        runs_on_clock(origin, from, times),
        on_clock(origin, last_time(from, times), now),
    ensures
        runs_on_clock(origin, from, times.push(now)),
        last_time(from, times.push(now)) == now,
{
    let longer = times.push(now);
    assert forall|i: int| 0 <= i < longer.len() implies on_clock(
        origin,
        last_time(from, longer.take(i)),
        #[trigger] longer[i],
    ) by {
        assert(longer.take(i) =~= times.take(i));
        if i == times.len() {
            assert(times.take(i) =~= times);
        } else {
            assert(longer[i] == times[i]);
        }
    }
}

/// The span from `origin` to now.
pub(crate) fn elapsed_since(origin: &std::time::Instant) -> (d: Duration)
    ensures
        read_from(*origin, d@),
{
    Duration::from_nanos_saturating(nanos_since(origin))
}

} // verus!
