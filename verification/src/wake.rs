//! [`Wake`]: when the engine needs to run again.
use vstd::prelude::*;
use crate::time::Instant;

verus! {

/// When the engine must be stepped again. Ordered by urgency:
/// `Now` < `At(earlier)` < `At(later)` < `Idle`.
#[derive(Clone, Copy, Debug, PartialEq, Eq, Structural, Hash)]
pub enum Wake {
    /// Nothing is pending: sleep until an external event.
    Idle,
    /// Call again at (or after) this instant.
    At(Instant),
    /// Call again as soon as possible.
    Now,
}

/// The urgency rank of a wake request: lower is more urgent.
pub open spec fn urgency(w: Wake) -> int {
    match w {
        Wake::Now => -1,
        Wake::At(t) => t.us as int,
        Wake::Idle => u64::MAX as int + 1,
    }
}

/// The more urgent of two wake requests.
pub open spec fn wake_min(a: Wake, b: Wake) -> Wake {
    if urgency(a) <= urgency(b) { a } else { b }
}

impl Wake {
    /// The more urgent of `self` and `other`.
    pub fn min(self, other: Wake) -> (r: Wake)
        ensures
            r == wake_min(self, other),
    {
        match (self, other) {
            (Wake::Now, _) => Wake::Now,
            (_, Wake::Now) => Wake::Now,
            (Wake::At(a), Wake::At(b)) => Wake::At(a.earliest(b)),
            (Wake::At(a), Wake::Idle) => Wake::At(a),
            (Wake::Idle, Wake::At(a)) => Wake::At(a),
            (Wake::Idle, Wake::Idle) => Wake::Idle,
        }
    }

    /// Whether this is [`Wake::Idle`].
    pub fn is_idle(self) -> (r: bool)
        ensures
            r == (self is Idle),
    {
        match self {
            Wake::Idle => true,
            _ => false,
        }
    }
}

/// `min` picks one of its arguments, and the more urgent one.
pub proof fn lemma_min_selects(a: Wake, b: Wake)
    ensures
        wake_min(a, b) == a || wake_min(a, b) == b,
        urgency(wake_min(a, b)) <= urgency(a),
        urgency(wake_min(a, b)) <= urgency(b),
{
}

/// `min` is commutative, associative and idempotent; `Now` absorbs and `Idle` is neutral.
pub proof fn lemma_min_laws(a: Wake, b: Wake, c: Wake)
    ensures
        wake_min(a, b) == wake_min(b, a),
        wake_min(wake_min(a, b), c) == wake_min(a, wake_min(b, c)),
        wake_min(a, a) == a,
        wake_min(a, Wake::Now) == Wake::Now,
        wake_min(a, Wake::Idle) == a,
{
    if urgency(a) == urgency(b) {
        match a {
            Wake::At(x) => {
                match b {
                    Wake::At(y) => {
                        assert(x.us == y.us);
                        assert(x == y);
                    },
                    _ => {},
                }
            },
            _ => {},
        }
    }
}

} // verus!
