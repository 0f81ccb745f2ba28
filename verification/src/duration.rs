//! A span of time, kept as whole seconds plus a sub-second millisecond
//! remainder. Wire fields carry durations as decimal strings of seconds
//! or of milliseconds; this type holds what those fields denote.

use vstd::prelude::*;

verus! {

/// A non-negative span of time with millisecond precision.
#[derive(Clone, Copy, Debug, PartialEq, Eq, Structural)]
pub struct Duration {
    pub secs: u64,
    pub subsec_millis: u32,
}

impl Duration {
    /// A structurally valid duration keeps its sub-second part below one
    /// second.
    pub open spec fn wf(&self) -> bool {
        self.subsec_millis < 1000
    }

    /// The whole span in milliseconds.
    pub open spec fn spec_millis(&self) -> int {
        self.secs * 1000 + self.subsec_millis
    }

    /// A duration of exactly `secs` seconds.
    pub fn from_secs(secs: u64) -> (r: Duration)
        ensures
            r.wf(),
            r == (Duration { secs, subsec_millis: 0 }),
            r.spec_millis() == secs * 1000,
    {
        Duration { secs, subsec_millis: 0 }
    }

    /// A duration of exactly `millis` milliseconds.
    pub fn from_millis(millis: u64) -> (r: Duration)
        ensures
            r.wf(),
            r.spec_millis() == millis,
    {
        let secs = millis / 1000;
        let rem = (millis % 1000) as u32;
        proof {
            assert(secs * 1000 + rem == millis) by (nonlinear_arith)
                requires
                    secs == millis / 1000,
                    rem == millis % 1000,
            ;
        }
        Duration { secs, subsec_millis: rem }
    }
}

} // verus!
