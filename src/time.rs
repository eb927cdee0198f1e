use vstd::prelude::*;

verus! {

/// Nanoseconds in one second.
pub const NANOS_PER_SEC: u32 = 1_000_000_000;

/// A wall-clock instant since the Unix epoch, carried by every study message
/// and used only to order concurrent writes.
#[derive(Clone, Copy, Debug, PartialEq, Eq, Structural)]
pub struct Timestamp {
    pub secs: u64,
    pub nanos: u32,
}

/// The order of timestamps: by seconds, then by nanoseconds.
pub open spec fn ts_lt(a: Timestamp, b: Timestamp) -> bool {
    a.secs < b.secs || (a.secs == b.secs && a.nanos < b.nanos)
}

/// Relies on std::time::SystemTime::now and duration_since: the time elapsed
/// since the Unix epoch, as whole seconds and the nanoseconds below one second.
#[verifier::external_body]
fn system_clock() -> (r: (u64, u32))
    ensures
        r.1 < NANOS_PER_SEC,
{
    let d = std::time::SystemTime::now().duration_since(std::time::UNIX_EPOCH).unwrap_or_default();
    (d.as_secs(), d.subsec_nanos())
}

impl Timestamp {
    pub open spec fn wf(&self) -> bool {
        self.nanos < NANOS_PER_SEC
    }

    /// The current wall-clock time.
    pub fn now() -> (r: Timestamp)
        ensures
            r.wf(),
    {
        let (secs, nanos) = system_clock();
        Timestamp { secs, nanos }
    }

    /// Whether `self` comes strictly before `other`.
    pub fn lt(&self, other: &Timestamp) -> (r: bool)
        ensures
            r == ts_lt(*self, *other),
    {
        self.secs < other.secs || (self.secs == other.secs && self.nanos < other.nanos)
    }

    /// Whole microseconds since the epoch, the resolution at which readers see it.
    pub fn to_micros(&self) -> (r: u128)
        requires
            self.wf(),
        ensures
            r == self.secs as int * 1_000_000 + self.nanos as int / 1000,
    {
        let r = (self.secs as u128) * 1_000_000 + (self.nanos / 1000) as u128;
        r
    }
}

/// `now + delay` on the monotonic millisecond clock, held at the largest value.
pub open spec fn deadline_spec(now: u64, delay: u64) -> u64 {
    if now as int + delay as int > u64::MAX as int {
        u64::MAX
    } else {
        (now + delay) as u64
    }
}

/// The deadline `delay` milliseconds after `now`.
pub fn deadline_after(now: u64, delay: u64) -> (r: u64)
    ensures
        r == deadline_spec(now, delay),
{
    if now > u64::MAX - delay {
        u64::MAX
    } else {
        now + delay
    }
}

} // verus!
