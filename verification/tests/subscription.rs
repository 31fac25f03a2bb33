//! Coalescing of subscriptions, and forwarding of samples.
use rosbridge::backend::Sample;
use rosbridge::compression::Compression;
use rosbridge::dict::Dict;
use rosbridge::forwarder::{Forwarder, Wait};
use rosbridge::json::JsonValue;
use rosbridge::subscription::{coalesce, coalesce_all, SubParams};

const MILLI: u64 = 1_000_000;

fn sample(n: u64) -> Sample {
    Sample { value: JsonValue::from_u64(n) }
}

fn number(s: Option<Sample>) -> Option<JsonValue> {
    s.map(|s| s.value)
}

fn params(throttle_rate: u64, queue_length: usize) -> SubParams {
    SubParams { throttle_rate, queue_length, ..SubParams::default() }
}

#[test]
fn coalesce_picks_lcd() {
    let a = SubParams {
        throttle_rate: 100,
        queue_length: 10,
        fragment_size: Some(1000),
        compression: Compression::Plain,
    };
    let b = SubParams {
        throttle_rate: 50,
        queue_length: 5,
        fragment_size: None,
        compression: Compression::Cbor,
    };
    let c = coalesce(&[a, b]);
    assert_eq!(c.throttle_rate, 50);
    assert_eq!(c.queue_length, 5);
    assert_eq!(c.fragment_size, Some(1000));
    assert_eq!(c.compression, Compression::Cbor);
}

#[test]
fn coalesce_empty_is_default() {
    let c = coalesce(&[]);
    assert_eq!(c, SubParams::default());
}

#[test]
fn coalescing_ignores_order_and_repetition() {
    let a = SubParams { fragment_size: Some(10), ..params(5, 9) };
    let b = SubParams { compression: Compression::Png, ..params(7, 3) };
    let c = SubParams { fragment_size: Some(20), compression: Compression::CborRaw, ..params(6, 4) };
    let all = coalesce(&[a, b, c]);
    assert_eq!(all, coalesce(&[c, a, b, b, a]));
    let mut d = Dict::new();
    d.insert("z".to_string(), c);
    d.insert("y".to_string(), a);
    d.insert("x".to_string(), b);
    assert_eq!(coalesce_all(&d), all);
    let mut one = Dict::new();
    one.insert("k".to_string(), a);
    assert_eq!(coalesce_all(&one), a);
}

#[test]
fn unthrottled_samples_pass_at_once() {
    let mut f = Forwarder::new();
    let p = params(0, 0);
    for n in 0..3 {
        assert_eq!(f.wait(&p, n), Wait::Sample);
        assert_eq!(number(f.on_sample(&p, sample(n), n)), Some(JsonValue::from_u64(n)));
    }
}

#[test]
fn throttled_samples_without_queue_are_dropped() {
    let mut f = Forwarder::new();
    let p = params(1000, 0);
    assert!(f.on_sample(&p, sample(0), 0).is_some());
    assert!(f.on_sample(&p, sample(1), 999 * MILLI).is_none());
    assert_eq!(number(f.on_sample(&p, sample(2), 1000 * MILLI)), Some(JsonValue::from_u64(2)));
    // The time counts from the last sample that was sent.
    assert!(f.on_sample(&p, sample(3), 1999 * MILLI).is_none());
}

#[test]
fn queued_samples_come_in_order_and_bounded() {
    let mut f = Forwarder::new();
    let p = params(100, 2);
    assert!(f.on_sample(&p, sample(1), 0).is_none());
    assert_eq!(f.wait(&p, 5), Wait::SampleUntil(5));
    assert!(f.on_sample(&p, sample(2), 0).is_none());
    // The queue is full: the oldest goes.
    assert!(f.on_sample(&p, sample(3), 0).is_none());
    assert_eq!(number(f.on_timer(7)), Some(JsonValue::from_u64(2)));
    assert_eq!(f.wait(&p, 8), Wait::SampleUntil(7 + 100 * MILLI as u128));
    assert_eq!(number(f.on_timer(107 * MILLI)), Some(JsonValue::from_u64(3)));
    assert!(f.on_timer(200 * MILLI).is_none());
    assert_eq!(f.wait(&p, 200 * MILLI), Wait::Sample);
}
