//! Protocol data: status levels, QoS, and texts.
use rosbridge::float::Float64;
use rosbridge::outgoing::{PublishOut, Status, StatusLevel};
use rosbridge::json::JsonValue;
use rosbridge::qos::{DurationParts, QosDuration, QosProfile};
use rosbridge::topics::resolve_qos;
use rosbridge::backend::{to_qos, Durability, QosSpec, Reliability};

#[test]
fn status_level_ordering() {
    assert!(StatusLevel::Info.rank() > StatusLevel::Error.rank());
    assert_eq!(StatusLevel::parse("warn"), Some(StatusLevel::Warning));
}

#[test]
fn level_names_read_back() {
    for level in [StatusLevel::Off, StatusLevel::Error, StatusLevel::Warning, StatusLevel::Info] {
        assert_eq!(StatusLevel::parse(level.as_str()), Some(level));
    }
    assert_eq!(StatusLevel::parse("NONE"), Some(StatusLevel::Off));
    assert_eq!(StatusLevel::parse("loud"), None);
}

#[test]
fn status_messages_have_their_level() {
    let s = Status::error("bad", Some("id".to_string()));
    assert_eq!((s.op, s.level, s.msg.as_str(), s.id.as_deref()), ("status", StatusLevel::Error, "bad", Some("id")));
    assert_eq!(Status::warning("w", None).level, StatusLevel::Warning);
    assert_eq!(Status::info("i", None).level, StatusLevel::Info);
    let p = PublishOut::new("/t", JsonValue::Null);
    assert_eq!((p.op, p.topic.as_str()), ("publish", "/t"));
}

#[test]
fn durations_have_parts() {
    let secs = QosDuration::Seconds(Float64 { bits: 2.5f64.to_bits() });
    assert_eq!(secs.to_parts(), (2, 500_000_000));
    let parts = QosDuration::Parts(DurationParts { sec: -3, nanosec: 4 });
    assert_eq!(parts.to_parts(), (-3, 4));
    let word = QosDuration::Keyword("infinite".to_string());
    assert_eq!(word.to_parts(), (i64::MAX, 0));
    assert!(word.is_infinite());
    assert!(!QosDuration::Keyword("best_available".to_string()).is_infinite());
}

#[test]
fn qos_resolves_profile_and_overrides() {
    let base = QosSpec::default_publisher();
    assert_eq!(resolve_qos(&None, None, None, base), base);
    let mut q = QosProfile::default();
    q.history = Some("keep_all".to_string());
    q.depth = Some(5);
    q.reliability = Some("best_effort".to_string());
    q.durability = Some("volatile".to_string());
    let q = Some(q);
    let r = resolve_qos(&q, None, None, base);
    assert_eq!(
        r,
        QosSpec {
            history_keep_all: true,
            depth: 5,
            reliability: Reliability::BestEffort,
            durability: Durability::Volatile,
        }
    );
    let r = resolve_qos(&q, Some(true), Some(7), base);
    assert_eq!((r.durability, r.depth), (Durability::TransientLocal, 7));
    let r = resolve_qos(&q, Some(false), None, base);
    assert_eq!((r.durability, r.depth), (Durability::Volatile, 5));
    let mut q = QosProfile::default();
    q.reliability = Some("odd".to_string());
    q.durability = Some("best_available".to_string());
    q.history = Some("keep_last".to_string());
    let r = resolve_qos(&Some(q), None, None, QosSpec::default_subscriber());
    assert_eq!((r.reliability, r.durability), (Reliability::SystemDefault, Durability::BestAvailable));
    assert_eq!((r.history_keep_all, r.depth), (false, 10));
}

#[test]
fn qos_policies_follow_the_spec() {
    let p = to_qos(&QosSpec::default_publisher());
    assert_eq!((p.keep_last, p.best_effort, p.transient_local), (Some(100), false, true));
    let p = to_qos(&QosSpec::default_subscriber());
    assert_eq!((p.keep_last, p.best_effort, p.transient_local), (Some(10), true, false));
    let p = to_qos(&QosSpec { history_keep_all: true, ..QosSpec::default_subscriber() });
    assert_eq!(p.keep_last, None);
}
