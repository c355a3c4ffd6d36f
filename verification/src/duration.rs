use vstd::prelude::*;

verus! {

/// Nanoseconds in one second.
pub const NANOS_PER_SEC: u32 = 1_000_000_000;

/// A span of time: whole seconds and the nanoseconds left over.
#[derive(Clone, Copy, Debug, PartialEq, Eq, Structural)]
pub struct Duration {
    secs: u64,
    nanos: u32,
}

impl Duration {
    #[verifier::type_invariant]
    spec fn nanos_within_a_second(self) -> bool {
        self.nanos < NANOS_PER_SEC
    }

    /// The whole seconds.
    pub closed spec fn secs(self) -> u64 {
        self.secs
    }

    /// The nanoseconds beyond the whole seconds.
    pub closed spec fn nanos(self) -> u32 {
        self.nanos
    }

    /// The span with these parts.
    pub closed spec fn of_parts(secs: u64, nanos: u32) -> Duration {
        Duration { secs, nanos }
    }

    /// The span of exactly `secs` seconds.
    pub open spec fn of_secs(secs: u64) -> Duration {
        Duration::of_parts(secs, 0)
    }

    /// A span has the parts that it was made of, and its parts make the span: two spans
    /// with the same parts are the same.
    pub broadcast proof fn law_parts(secs: u64, nanos: u32, d: Duration)
        ensures
            #![trigger Duration::of_parts(secs, nanos), d.nanos()]
            Duration::of_parts(secs, nanos).secs() == secs,
            Duration::of_parts(secs, nanos).nanos() == nanos,
            d == Duration::of_parts(d.secs(), d.nanos()),
    {
    }

    /// A span of whole seconds.
    pub fn from_secs(secs: u64) -> (d: Duration)
        ensures
            d == Duration::of_secs(secs),
            d.secs() == secs,
            d.nanos() == 0,
    {
        Duration { secs, nanos: 0 }
    }

    /// A span given by its two parts.
    pub fn from_parts(secs: u64, nanos: u32) -> (d: Duration)
        requires
            nanos < NANOS_PER_SEC,
        ensures
            d == Duration::of_parts(secs, nanos),
            d.secs() == secs,
            d.nanos() == nanos,
    {
        Duration { secs, nanos }
    }

    pub fn as_secs(&self) -> (secs: u64)
        ensures
            secs == self.secs(),
    {
        self.secs
    }

    /// The part below a second, always less than [`NANOS_PER_SEC`].
    pub fn subsec_nanos(&self) -> (nanos: u32)
        ensures
            nanos == self.nanos(),
            nanos < NANOS_PER_SEC,
    {
        proof {
            use_type_invariant(self);
        }
        self.nanos
    }
}

} // verus!
