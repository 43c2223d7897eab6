//! Points in time.

use vstd::prelude::*;

verus! {

/// A point in time, in nanoseconds from the Unix epoch.
#[derive(Debug, Clone, Copy, PartialEq, Eq, Structural)]
pub struct Timestamp {
    pub nanos: i128,
}

impl View for Timestamp {
    type V = Timestamp;

    open spec fn view(&self) -> Timestamp {
        *self
    }
}

/// The time from `from` to `to`, which does not exist where `to` is earlier.
pub open spec fn elapsed(from: Timestamp, to: Timestamp) -> Option<int> {
    if to.nanos >= from.nanos {
        Some(to.nanos - from.nanos)
    } else {
        None
    }
}

/// `t` is at least `secs` seconds before `now`.
pub open spec fn older_than(t: Timestamp, now: Timestamp, secs: u64) -> bool {
    elapsed(t, now) matches Some(age) && age >= secs * 1_000_000_000
}

/// `std::time::SystemTime::now`, as its distance from the Unix epoch: after it
/// (`Ok`) or before it (`Err`), in whole seconds and nanoseconds. Nothing is
/// said of which time it is, only that less than a second is left over.
#[verifier::external_body]
fn system_now() -> (r: Result<(u64, u32), (u64, u32)>)
    ensures
        r matches Ok(d) ==> d.1 < 1_000_000_000,
        r matches Err(d) ==> d.1 < 1_000_000_000,
{
    match std::time::SystemTime::now().duration_since(std::time::UNIX_EPOCH) {
        Ok(after) => Ok((after.as_secs(), after.subsec_nanos())),
        Err(before) => Err((before.duration().as_secs(), before.duration().subsec_nanos())),
    }
}

impl Timestamp {
    pub fn unix_epoch() -> (r: Timestamp)
        ensures
            r.nanos == 0,
    {
        Timestamp { nanos: 0 }
    }

    /// The time that lies seconds and nanoseconds after the epoch (`Ok`) or
    /// before it (`Err`).
    pub fn from_epoch(distance: Result<(u64, u32), (u64, u32)>) -> (r: Timestamp)
        ensures
            distance matches Ok(d) ==> r.nanos == d.0 * 1_000_000_000 + d.1,
            distance matches Err(d) ==> r.nanos == -(d.0 * 1_000_000_000 + d.1),
    {
        match distance {
            Ok((secs, nanos)) => Timestamp {
                nanos: secs as i128 * 1_000_000_000 + nanos as i128,
            },
            Err((secs, nanos)) => Timestamp {
                nanos: -(secs as i128 * 1_000_000_000 + nanos as i128),
            },
        }
    }

    /// The time on the system's clock.
    pub fn now() -> (r: Timestamp)
        ensures
            -(u64::MAX + 1) * 1_000_000_000 < r.nanos < (u64::MAX + 1) * 1_000_000_000,
    {
        Timestamp::from_epoch(system_now())
    }

    pub fn later_than(&self, other: &Timestamp) -> (r: bool)
        ensures
            r == (self.nanos > other.nanos),
    {
        self.nanos > other.nanos
    }

    /// How long before `now` this was, in nanoseconds.
    pub fn age(&self, now: &Timestamp) -> (r: Option<u128>)
        ensures
            r matches Some(age) ==> elapsed(*self, *now) == Some(age as int),
            r is None ==> elapsed(*self, *now) is None,
    {
        if now.nanos < self.nanos {
            return None;
        }
        if self.nanos >= 0 || now.nanos < 0 {
            Some((now.nanos - self.nanos) as u128)
        } else {
            Some(now.nanos as u128 + (-(self.nanos + 1)) as u128 + 1)
        }
    }

    /// Whether this was at least `secs` seconds before `now`.
    pub fn at_least_before(&self, now: &Timestamp, secs: u64) -> (r: bool)
        ensures
            r == older_than(*self, *now, secs),
    {
        match self.age(now) {
            Some(age) => age >= secs as u128 * 1_000_000_000,
            None => false,
        }
    }
}

/// The time between two points is what has to be added to the first to get to
/// the second.
pub proof fn elapsed_time_adds_up(from: Timestamp, to: Timestamp)
    ensures
        elapsed(from, to) matches Some(time) ==> time >= 0 && from.nanos + time == to.nanos,
        elapsed(from, to) is None <==> to.nanos < from.nanos,
{
}

/// Something is older than so many seconds from just that many seconds on.
pub proof fn older_means_at_least_so_long_ago(t: Timestamp, now: Timestamp, secs: u64)
    ensures
        older_than(t, now, secs) <==> t.nanos + secs * 1_000_000_000 <= now.nanos,
{
}

} // verus!
