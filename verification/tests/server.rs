//! What the server decides.
use rosbridge::config::Config;
use rosbridge::float::Float64;
use rosbridge::server::{
    accepts_path, bind_host, pauses, pings, retries, route, Clients, InFrame, Inbound,
};
use rosbridge::session::OutFrame;

#[test]
fn the_default_host_is_every_address() {
    let mut c = Config::default();
    assert_eq!(bind_host(&c), "0.0.0.0");
    c.address = "127.0.0.1".to_string();
    assert_eq!(bind_host(&c), "127.0.0.1");
}

#[test]
fn paths_are_enforced_unless_root() {
    let mut c = Config::default();
    assert!(accepts_path(&c, "/any"));
    c.url_path = "/bridge".to_string();
    assert!(accepts_path(&c, "/bridge"));
    assert!(!accepts_path(&c, "/"));
}

#[test]
fn intervals_above_zero_count() {
    let mut c = Config::default();
    assert!(!pings(&c) && !pauses(&c));
    for (x, above) in [(0.5, true), (f64::INFINITY, true), (-0.0, false), (-1.0, false), (f64::NAN, false)] {
        c.websocket_ping_interval = Float64 { bits: x.to_bits() };
        c.delay_between_messages = Float64 { bits: x.to_bits() };
        assert_eq!((pings(&c), pauses(&c)), (above, above), "{x}");
    }
}

#[test]
fn binding_is_retried_after_a_pause_of_a_nanosecond_or_more() {
    let mut c = Config::default();
    assert!(retries(&c));
    let half = f64::from_bits(0x3e01_2e0b_e826_d695);
    let below = f64::from_bits(0x3e01_2e0b_e826_d694);
    for (x, again) in [
        (2.0, true),
        (1e9, true),
        (1e-9, true),
        (half, true),
        (below, false),
        (4e-10, false),
        (f64::MIN_POSITIVE, false),
        (f64::from_bits(1), false),
        (0.0, false),
        (-0.0, false),
        (-2.0, false),
        (f64::NAN, false),
    ] {
        c.retry_startup_delay = Float64 { bits: x.to_bits() };
        assert_eq!(retries(&c), again, "{x}");
        let pause = std::time::Duration::from_secs_f64(x.max(0.0));
        assert_eq!(retries(&c), !pause.is_zero(), "{x}");
    }
}

#[test]
fn frames_are_routed() {
    assert!(matches!(route(InFrame::Text("t".into())), Inbound::HandleText(s) if s == "t"));
    assert!(matches!(route(InFrame::Binary(vec![1])), Inbound::HandleBinary(b) if b == [1]));
    assert!(matches!(route(InFrame::Ping(vec![2])), Inbound::Reply(OutFrame::Pong(b)) if b == [2]));
    assert!(matches!(route(InFrame::Other), Inbound::Ignore));
    assert!(matches!(route(InFrame::Close), Inbound::Stop));
    assert!(matches!(route(InFrame::Broken), Inbound::Stop));
}

#[test]
fn clients_are_numbered_and_counted() {
    let mut c = Clients::new();
    assert_eq!((c.next_id(), c.next_id()), (0, 1));
    assert_eq!((c.connect(), c.connect()), (1, 2));
    assert_eq!(c.connected_clients(), 2);
    assert_eq!(c.disconnect(), 1);
    assert_eq!(c.connected_clients(), 1);
}
