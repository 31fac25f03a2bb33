//! QoS profile representation matching the rosbridge protocol `qos` object:
//! `history`, `depth`, `reliability`, `durability`, `deadline`, `lifespan`,
//! `liveliness`, `liveliness_lease_duration`.
use vstd::prelude::*;
use crate::float::Float64;
use crate::text::same_text;

verus! {

/// A duration value as it may appear in a QoS field. The protocol accepts a
/// float number of seconds, an object `{secs/sec, nsecs/nanosec}`, or the
/// strings `"infinite"` / `"best_available"`.
#[derive(Debug, PartialEq)]
pub enum QosDuration {
    /// Seconds as a float.
    Seconds(Float64),
    /// Structured `{secs, nsecs}` form (ROS 1 or ROS 2 field names).
    Parts(DurationParts),
    /// `"infinite"` or `"best_available"`.
    Keyword(String),
}

/// Structured duration accepting both ROS 1 (`secs`/`nsecs`) and
/// ROS 2 (`sec`/`nanosec`) field spellings.
#[derive(Debug, Clone, Copy, PartialEq, Eq, Structural)]
pub struct DurationParts {
    pub sec: i64,
    pub nanosec: u64,
}

impl Default for DurationParts {
    fn default() -> (r: Self)
        ensures
            r.sec == 0,
            r.nanosec == 0,
    {
        DurationParts { sec: 0, nanosec: 0 }
    }
}

impl QosDuration {
    /// The duration as seconds and nanoseconds.
    pub open spec fn parts(&self) -> (int, nat) {
        match self {
            QosDuration::Seconds(s) => (s.truncated(), s.billionths()),
            QosDuration::Parts(p) => (p.sec as int, p.nanosec as nat),
            QosDuration::Keyword(_) => (i64::MAX as int, 0),
        }
    }

    /// Converts to `(seconds, nanoseconds)`. `infinite`/`best_available` resolve to
    /// the conventional "infinite" sentinel used by DDS.
    pub fn to_parts(&self) -> (r: (i64, u64))
        ensures
            (r.0 as int, r.1 as nat) == self.parts(),
    {
        match self {
            QosDuration::Seconds(s) => (s.truncate(), s.to_billionths()),
            QosDuration::Parts(p) => (p.sec, p.nanosec),
            QosDuration::Keyword(_) => (i64::MAX, 0),
        }
    }

    /// Whether the duration is the word `infinite`.
    pub fn is_infinite(&self) -> (r: bool)
        ensures
            r == (self matches QosDuration::Keyword(k) && k@ == "infinite"@),
    {
        match self {
            QosDuration::Keyword(k) => same_text(k.as_str(), "infinite"),
            _ => false,
        }
    }
}

/// The full QoS profile object accepted on advertise/subscribe/publish.
#[derive(Debug, PartialEq)]
pub struct QosProfile {
    /// `"keep_last"` or `"keep_all"`.
    pub history: Option<String>,
    /// Queue depth for `keep_last`.
    pub depth: Option<usize>,
    /// `"reliable"`, `"best_effort"`, `"best_available"`, or `"system_default"`.
    pub reliability: Option<String>,
    /// `"transient_local"`, `"volatile"`, `"best_available"`, or `"system_default"`.
    pub durability: Option<String>,
    pub deadline: Option<QosDuration>,
    pub lifespan: Option<QosDuration>,
    /// `"automatic"`, `"manual_by_topic"`, `"system_default"`.
    pub liveliness: Option<String>,
    pub liveliness_lease_duration: Option<QosDuration>,
}

impl Default for QosProfile {
    fn default() -> (r: Self)
        ensures
            r.history is None,
            r.depth is None,
            r.reliability is None,
            r.durability is None,
            r.deadline is None,
            r.lifespan is None,
            r.liveliness is None,
            r.liveliness_lease_duration is None,
    {
        QosProfile {
            history: None,
            depth: None,
            reliability: None,
            durability: None,
            deadline: None,
            lifespan: None,
            liveliness: None,
            liveliness_lease_duration: None,
        }
    }
}

} // verus!
