//! Client sessions, driven as a server drives them, over the in-process bus.
use std::collections::HashMap;

use rosbridge::actions::{goal_cancelled, goal_feedback, goal_refused};
use rosbridge::backend::{BackendError, PublisherId, Sample, SubscriptionId};
use rosbridge::compression::Compression;
use rosbridge::config::Config;
use rosbridge::dict::Dict;
use rosbridge::document::to_document;
use rosbridge::effect::Effect;
use rosbridge::float::Float64;
use rosbridge::forwarder::Forwarder;
use rosbridge::incoming::{
    ActionFeedback, ActionResult, Advertise, AdvertiseAction, AdvertiseService, Auth, CallService,
    CancelActionGoal, Fragment, IncomingMessage, Publish, SendActionGoal, ServiceResponse, SetLevel,
    StatusIn, Subscribe, Unadvertise, UnadvertiseAction, UnadvertiseService, Unsubscribe,
};
use rosbridge::json::{JsonValue, Number};
use rosbridge::loopback::Bus;
use rosbridge::outgoing::{Status, StatusLevel};
use rosbridge::services::split_name_id;
use rosbridge::session::{rejected, ClientSession, OutFrame, Shared};
use serde_json::Value;

fn from(v: &Value) -> JsonValue {
    match v {
        Value::Null => JsonValue::Null,
        Value::Bool(b) => JsonValue::Bool(*b),
        Value::Number(n) => JsonValue::Number(match (n.as_u64(), n.as_i64(), n.as_f64()) {
            (Some(x), _, _) => Number::PosInt(x),
            (_, Some(x), _) => Number::NegInt(x),
            (_, _, x) => Number::Float(Float64 { bits: x.unwrap().to_bits() }),
        }),
        Value::String(s) => JsonValue::text(s),
        Value::Array(a) => JsonValue::Array(a.iter().map(from).collect()),
        Value::Object(o) => {
            let mut d = Dict::new();
            for (k, x) in o {
                d.insert(k.clone(), from(x));
            }
            JsonValue::Object(d)
        }
    }
}

fn json(s: &str) -> JsonValue {
    from(&serde_json::from_str(s).unwrap())
}

fn some(s: &str) -> Option<String> {
    Some(s.to_string())
}

fn advertise(topic: &str, ty: &str, id: Option<String>) -> IncomingMessage {
    IncomingMessage::Advertise(Advertise {
        topic: topic.to_string(),
        msg_type: ty.to_string(),
        id,
        qos: None,
        latch: None,
        queue_size: None,
    })
}

fn unadvertise(topic: &str, id: Option<String>) -> IncomingMessage {
    IncomingMessage::Unadvertise(Unadvertise { topic: topic.to_string(), id })
}

fn publish(topic: &str, msg: &str) -> IncomingMessage {
    IncomingMessage::Publish(Publish {
        topic: topic.to_string(),
        msg: json(msg),
        id: None,
        msg_type: None,
        qos: None,
        latch: None,
    })
}

fn subscribe(topic: &str, ty: Option<&str>) -> Subscribe {
    Subscribe {
        topic: topic.to_string(),
        msg_type: ty.map(|t| t.to_string()),
        id: None,
        throttle_rate: None,
        queue_length: None,
        fragment_size: None,
        compression: None,
        qos: None,
    }
}

fn unsubscribe(topic: &str, id: Option<String>) -> IncomingMessage {
    IncomingMessage::Unsubscribe(Unsubscribe { topic: topic.to_string(), id })
}

fn set_level(level: &str) -> IncomingMessage {
    IncomingMessage::SetLevel(SetLevel { level: level.to_string(), id: None })
}

/// The clients of a server on one bus, and the frames that each of them got.
struct World {
    bus: Bus,
    shared: Shared,
    clients: Vec<ClientSession>,
    inbox: Vec<Vec<OutFrame>>,
    sinks: HashMap<u64, (usize, String, Forwarder)>,
    now: u64,
}

impl World {
    fn new(n: usize) -> World {
        World::with(n, Config::default())
    }

    fn with(n: usize, mut cfg: Config) -> World {
        cfg.finalize_globs();
        let clients = (0..n).map(|i| ClientSession::new(i as u64, &cfg)).collect();
        World {
            bus: Bus::new(),
            shared: Shared::new(cfg),
            clients,
            inbox: (0..n).map(|_| Vec::new()).collect(),
            sinks: HashMap::new(),
            now: 0,
        }
    }

    fn report(&mut self, c: usize, s: Status) {
        let frames = self.clients[c].send_status(&s);
        self.inbox[c].extend(frames);
    }

    fn deliver(&mut self, publisher: PublisherId, msg: JsonValue) -> Result<(), BackendError> {
        let doc = to_document(&msg);
        for id in self.bus.publish(publisher)? {
            let (c, topic, forwarder) = self.sinks.get_mut(&id.0).unwrap();
            let p = self.clients[*c].effective(topic).unwrap();
            if let Some(s) = forwarder.on_sample(&p, Sample { value: from(&doc) }, self.now) {
                let frames = self.clients[*c].build_publish_frames(&self.shared.cfg, topic, s.value, &p);
                self.inbox[*c].extend(frames);
            }
        }
        Ok(())
    }

    /// Dispatches an operation and does what comes of it, as far as topics go.
    fn send(&mut self, c: usize, msg: IncomingMessage) -> Effect {
        let looked_up = self.clients[c].needs_type(&self.shared, &msg);
        assert!(looked_up.is_none() || matches!(msg, IncomingMessage::Publish(_) | IncomingMessage::Subscribe(_)));
        let effect = self.clients[c].dispatch(&self.shared, msg, None, (1, 2), self.now);
        match effect {
            Effect::Report(s) => self.report(c, s),
            Effect::Advertise { topic, ros_type, adv_id, id, .. } => {
                let p = self.bus.advertise(&topic);
                let s = self.clients[c].advertised(&mut self.shared, &topic, &ros_type, &adv_id, id, Ok(p));
                assert!(s.is_none());
            }
            Effect::Unadvertise(p) => self.bus.unadvertise(p),
            Effect::Publish { publisher, msg, .. } => self.deliver(publisher, msg).unwrap(),
            Effect::AdvertiseAndPublish { topic, ros_type, msg, id, .. } => {
                let p = self.bus.advertise(&topic);
                let p = self.clients[c].auto_advertised(&mut self.shared, &topic, &ros_type, &id, Ok(p)).unwrap();
                self.deliver(p, msg).unwrap();
            }
            Effect::Subscribe { topic, ros_type, sid, params, id, .. } => {
                let s = self.bus.subscribe(&topic);
                let status = self.clients[c].subscribed(&mut self.shared, &topic, &ros_type, &sid, params, id, Ok(s));
                assert!(status.is_none());
                self.sinks.insert(s.0, (c, topic, Forwarder::new()));
            }
            Effect::Unsubscribe(s) => self.bus.unsubscribe(s),
            other => return other,
        }
        Effect::Nothing
    }

    fn texts(&mut self, c: usize) -> Vec<Value> {
        self.inbox[c]
            .drain(..)
            .map(|f| match f {
                OutFrame::Text(s) => serde_json::from_str(&s).unwrap(),
                OutFrame::Binary(b) => ciborium::from_reader(&b[..]).unwrap(),
                other => panic!("unexpected frame: {other:?}"),
            })
            .collect()
    }

    fn text(&mut self, c: usize) -> Value {
        let mut all = self.texts(c);
        assert_eq!(all.len(), 1, "{all:?}");
        all.remove(0)
    }
}

#[test]
fn pubsub_roundtrip() {
    let mut w = World::new(2);
    w.send(1, IncomingMessage::Subscribe(subscribe("/chatter", Some("std_msgs/msg/String"))));
    w.send(0, advertise("/chatter", "std_msgs/msg/String", None));
    w.send(0, publish("/chatter", r#"{"data":"hello rust"}"#));
    let got = w.text(1);
    assert_eq!(got["op"], "publish");
    assert_eq!(got["topic"], "/chatter");
    assert_eq!(got["msg"]["data"], "hello rust");
    assert!(w.texts(0).is_empty());
}

#[test]
fn subscribe_type_inferred_from_publisher() {
    let mut w = World::new(2);
    w.send(0, advertise("/num", "std_msgs/msg/Int32", None));
    w.send(1, IncomingMessage::Subscribe(subscribe("/num", None)));
    w.send(0, publish("/num", r#"{"data":42}"#));
    let got = w.text(1);
    assert_eq!(got["msg"]["data"], 42);
}

#[test]
fn cbor_subscription_yields_binary() {
    for compression in ["cbor", "cbor-raw"] {
        let mut w = World::new(2);
        let mut m = subscribe("/c", Some("std_msgs/msg/String"));
        m.compression = some(compression);
        w.send(1, IncomingMessage::Subscribe(m));
        w.send(0, advertise("/c", "std_msgs/msg/String", None));
        w.send(0, publish("/c", r#"{"data":"cbor!"}"#));
        assert!(matches!(w.inbox[1][0], OutFrame::Binary(_)));
        let v = w.text(1);
        assert_eq!(v["op"], "publish");
        assert_eq!(v["msg"]["data"], "cbor!");
    }
}

#[test]
fn png_subscription_yields_png_text() {
    let mut w = World::new(2);
    let mut m = subscribe("/p", Some("std_msgs/msg/String"));
    m.compression = some("png");
    w.send(1, IncomingMessage::Subscribe(m));
    w.send(0, publish_typed("/p", r#"{"data":"x"}"#));
    let v = w.text(1);
    assert_eq!(v["op"], "png");
    assert!(v["data"].as_str().unwrap().starts_with("iVBORw0KGgo"));
}

fn publish_typed(topic: &str, msg: &str) -> IncomingMessage {
    match publish(topic, msg) {
        IncomingMessage::Publish(mut m) => {
            m.msg_type = some("std_msgs/msg/String");
            IncomingMessage::Publish(m)
        }
        other => other,
    }
}

#[test]
fn fragmentation_reassembly() {
    let mut w = World::new(2);
    let mut m = subscribe("/big", Some("std_msgs/msg/String"));
    m.fragment_size = Some(20);
    w.send(1, IncomingMessage::Subscribe(m));
    w.send(0, advertise("/big", "std_msgs/msg/String", None));
    let big = "x".repeat(200);
    w.send(0, publish("/big", &format!(r#"{{"data":"{big}"}}"#)));
    let parts = w.texts(1);
    let total = parts[0]["total"].as_u64().unwrap() as usize;
    assert!(total > 1);
    assert_eq!(parts.len(), total);
    let mut joined = String::new();
    for (i, v) in parts.iter().enumerate() {
        assert_eq!(v["op"], "fragment");
        assert_eq!(v["id"], "f1:0");
        assert_eq!(v["num"], i as u64);
        joined.push_str(v["data"].as_str().unwrap());
    }
    let reassembled: Value = serde_json::from_str(&joined).unwrap();
    assert_eq!(reassembled["op"], "publish");
    assert_eq!(reassembled["msg"]["data"], "x".repeat(200));
    // The next text has another id.
    w.send(0, publish("/big", &format!(r#"{{"data":"{big}"}}"#)));
    assert_eq!(w.texts(1)[0]["id"], "f1:1");
}

#[test]
fn fragments_from_a_client_are_put_together() {
    let mut w = World::new(1);
    let fragment = |num: usize, data: &str| {
        IncomingMessage::Fragment(Fragment { id: "a".to_string(), data: data.to_string(), num, total: 2 })
    };
    assert!(matches!(w.send(0, fragment(1, "ogus\"}")), Effect::Nothing));
    assert!(matches!(w.send(0, fragment(0, "{\"op\":\"b")), Effect::Handle(s) if s == "{\"op\":\"bogus\"}"));
    w.send(0, fragment(2, "x"));
    let v = w.text(0);
    assert_eq!(v["msg"], "fragment: fragment index out of range");
    assert_eq!(v["id"], "a");
}

#[test]
fn set_level_none_suppresses_status() {
    let mut w = World::new(2);
    w.send(1, set_level("none"));
    w.send(1, IncomingMessage::Unknown);
    w.send(1, IncomingMessage::Subscribe(subscribe("/lvl", Some("std_msgs/msg/String"))));
    w.send(0, advertise("/lvl", "std_msgs/msg/String", None));
    w.send(0, publish("/lvl", r#"{"data":"hi"}"#));
    let got = w.text(1);
    assert_eq!(got["op"], "publish", "status should have been suppressed");
}

#[test]
fn levels_are_nested() {
    let mut w = World::new(1);
    let count = |w: &mut World, level: &str| {
        w.send(0, set_level(level));
        w.report(0, Status::error("e", None));
        w.report(0, Status::warning("w", None));
        w.report(0, Status::info("i", None));
        w.texts(0).len()
    };
    assert_eq!(count(&mut w, "none"), 0);
    assert_eq!(count(&mut w, "error"), 1);
    assert_eq!(count(&mut w, "Warning"), 2);
    assert_eq!(count(&mut w, "info"), 3);
    w.send(0, set_level("loud"));
    assert_eq!(w.text(0)["msg"], "invalid set_level value: loud");
}

#[test]
fn throttle_drops_intermediate_messages() {
    let mut w = World::new(2);
    let mut m = subscribe("/t", Some("std_msgs/msg/Int32"));
    m.throttle_rate = Some(1000);
    w.send(1, IncomingMessage::Subscribe(m));
    w.send(0, advertise("/t", "std_msgs/msg/Int32", None));
    for i in 0..5 {
        w.send(0, publish("/t", &format!(r#"{{"data":{i}}}"#)));
    }
    let first = w.text(1);
    assert_eq!(first["op"], "publish");
    w.now = 1_000_000_000;
    w.send(0, publish("/t", r#"{"data":9}"#));
    assert_eq!(w.text(1)["msg"]["data"], 9);
}

#[test]
fn unsubscribe_stops_delivery() {
    let mut w = World::new(2);
    let mut m = subscribe("/u", Some("std_msgs/msg/String"));
    m.id = some("s1");
    w.send(1, IncomingMessage::Subscribe(m));
    w.send(1, unsubscribe("/u", some("s1")));
    w.send(0, advertise("/u", "std_msgs/msg/String", None));
    w.send(0, publish("/u", r#"{"data":"x"}"#));
    assert!(w.texts(1).is_empty(), "no delivery after unsubscribe");
}

#[test]
fn unknown_op_returns_status_error() {
    let mut w = World::new(1);
    w.send(0, IncomingMessage::Unknown);
    let v = w.text(0);
    assert_eq!(v["op"], "status");
    assert_eq!(v["level"], "error");
    assert_eq!(v["id"], Value::Null);
}

#[test]
fn subscriptions_are_coalesced() {
    let mut w = World::new(1);
    let mut m = subscribe("/s", Some("a/msg/B"));
    m.id = some("one");
    m.throttle_rate = Some(100);
    m.queue_length = Some(9);
    w.send(0, IncomingMessage::Subscribe(m));
    let mut m = subscribe("/s", None);
    m.id = some("two");
    m.throttle_rate = Some(50);
    m.compression = some("png");
    m.fragment_size = Some(7);
    w.send(0, IncomingMessage::Subscribe(m));
    let p = w.clients[0].effective("/s").unwrap();
    assert_eq!((p.throttle_rate, p.queue_length, p.fragment_size, p.compression), (50, 0, Some(7), Compression::Png));
    w.send(0, unsubscribe("/s", some("two")));
    let p = w.clients[0].effective("/s").unwrap();
    assert_eq!((p.throttle_rate, p.queue_length, p.compression), (100, 9, Compression::Plain));
    assert!(matches!(w.send(0, unsubscribe("/s", None)), Effect::Nothing));
    assert!(w.clients[0].effective("/s").is_none());
    assert!(matches!(w.send(0, unsubscribe("/s", None)), Effect::Nothing));
}

#[test]
fn publishers_are_counted() {
    let mut w = World::new(1);
    w.send(0, advertise("/a", "p/msg/T", some("x")));
    w.send(0, advertise("/a", "p/msg/T", None));
    w.send(0, advertise("/a", "p/msg/U", None));
    assert_eq!(w.text(0)["msg"], "topic /a already advertised as p/msg/T, not p/msg/U");
    w.send(0, unadvertise("/a", some("x")));
    assert!(w.bus.publish(PublisherId(0)).is_ok());
    w.send(0, unadvertise("/a", None));
    assert!(w.bus.publish(PublisherId(0)).is_err());
    w.send(0, unadvertise("/a", None));
    assert_eq!(w.text(0)["msg"], "topic /a was not advertised");
}

#[test]
fn publishing_advertises_where_needed() {
    let mut w = World::new(1);
    w.send(0, publish("/a", "{}"));
    assert_eq!(w.text(0)["msg"], "cannot publish to /a: unknown message type");
    w.send(0, publish_typed("/a", "{}"));
    assert_eq!(w.shared.infer_type("/a", None).as_deref(), Some("std_msgs/msg/String"));
    // The publisher is withdrawn like any other.
    w.send(0, unadvertise("/a", None));
    assert!(w.bus.publish(PublisherId(0)).is_err());
}

#[test]
fn types_come_from_the_graph_only_where_needed() {
    let cfg = Config::default();
    let mut s = ClientSession::new(0, &cfg);
    let mut shared = Shared::new(cfg);
    let msg = publish("/g", "{}");
    assert_eq!(s.needs_type(&shared, &msg).as_deref(), Some("/g"));
    let e = s.dispatch(&shared, msg, some("a/msg/Found"), (0, 0), 0);
    assert!(matches!(e, Effect::AdvertiseAndPublish { ros_type, .. } if ros_type == "a/msg/Found"));
    let msg = IncomingMessage::Subscribe(subscribe("/g", None));
    assert_eq!(s.needs_type(&shared, &msg).as_deref(), Some("/g"));
    let e = s.dispatch(&shared, msg, None, (0, 0), 0);
    assert!(matches!(e, Effect::Report(m) if m.msg == "subscribe to /g: unknown message type (provide 'type')"));
    shared.learn_type("/g", "a/msg/First");
    shared.learn_type("/g", "a/msg/Second");
    let msg = IncomingMessage::Subscribe(subscribe("/g", None));
    assert_eq!(s.needs_type(&shared, &msg), None);
    let e = s.dispatch(&shared, msg, some("a/msg/Found"), (0, 0), 0);
    assert!(matches!(e, Effect::Subscribe { ros_type, sid, .. } if ros_type == "a/msg/First" && sid == "/g"));
    assert_eq!(s.needs_type(&shared, &IncomingMessage::Unknown), None);
}

#[test]
fn failures_of_the_backend_are_reported() {
    let cfg = Config::default();
    let mut s = ClientSession::new(0, &cfg);
    let mut shared = Shared::new(cfg);
    let e = || BackendError::Failed("x".to_string());
    let text = "backend operation failed: x";
    let m = s.advertised(&mut shared, "/t", "a/B", "i", some("q"), Err(e())).unwrap();
    assert_eq!((m.msg, m.id), (format!("advertise failed: {text}"), some("q")));
    let m = s.auto_advertised(&mut shared, "/t", "a/B", &some("q"), Err(e())).unwrap_err();
    assert_eq!(m.msg, format!("publish auto-advertise failed: {text}"));
    assert_eq!(s.publish_failed(&e(), None).msg, format!("publish failed: {text}"));
    let p = Default::default();
    let m = s.subscribed(&mut shared, "/t", "a/B", "i", p, None, Err(e())).unwrap();
    assert_eq!(m.msg, format!("subscribe failed: {text}"));
    assert_eq!(s.service_advertised("/s", Err(e())).unwrap_err().msg, format!("advertise_service: {text}"));
    assert_eq!(s.action_advertised("/a", "a/B", Err(e())).unwrap_err().msg, format!("advertise_action: {text}"));
    assert!(shared.infer_type("/t", None).is_none());
    assert_eq!(rejected("invalid CBOR", "why").msg, "invalid CBOR: why");
}

#[test]
fn blocked_operations_are_refused() {
    let cfg = Config {
        topics_pub_glob: Some(vec!["/ok".to_string()]),
        topics_sub_glob: Some(vec!["/ok".to_string()]),
        services_glob: Some(vec!["/ok".to_string()]),
        actions_glob: Some(vec!["/ok".to_string()]),
        ..Config::default()
    };
    let mut w = World::with(1, cfg);
    w.send(0, advertise("/no", "a/B", None));
    let v = w.text(0);
    assert_eq!((&v["level"], &v["msg"]), (&Value::from("warning"), &Value::from("advertise to /no blocked by topics_pub_glob")));
    w.send(0, publish("/no", "{}"));
    assert_eq!(w.text(0)["msg"], "publish to /no blocked by topics_pub_glob");
    w.send(0, IncomingMessage::Subscribe(subscribe("/no", None)));
    assert_eq!(w.text(0)["msg"], "subscribe to /no blocked by topics_sub_glob");
    w.send(0, call("/no#i", some("a/B")));
    let v = w.text(0);
    assert_eq!((&v["msg"], &v["id"]), (&Value::from("call to service /no blocked by services_glob"), &Value::from("i")));
    w.send(0, IncomingMessage::SendActionGoal(goal("/no")));
    assert_eq!(w.text(0)["msg"], "send_action_goal to /no blocked by actions_glob");
    for msg in [
        unadvertise("/no", None),
        IncomingMessage::AdvertiseService(AdvertiseService { service: "/no".into(), srv_type: "a/B".into() }),
        IncomingMessage::UnadvertiseService(UnadvertiseService { service: "/no".into() }),
        IncomingMessage::AdvertiseAction(AdvertiseAction { action: "/no".into(), action_type: "a/B".into() }),
        IncomingMessage::UnadvertiseAction(UnadvertiseAction { action: "/no".into() }),
    ] {
        assert!(matches!(w.send(0, msg), Effect::Nothing));
    }
    assert!(w.texts(0).is_empty());
}

fn call(service: &str, ty: Option<String>) -> IncomingMessage {
    IncomingMessage::CallService(CallService {
        service: service.to_string(),
        srv_type: ty,
        id: None,
        args: None,
        fragment_size: None,
        compression: None,
        timeout: None,
    })
}

fn goal(action: &str) -> SendActionGoal {
    SendActionGoal {
        action: action.to_string(),
        action_type: "a/action/B".to_string(),
        id: some("g1"),
        args: Some(json(r#"{"order":5}"#)),
        feedback: true,
        fragment_size: None,
        compression: None,
    }
}

fn frame(f: &OutFrame) -> Value {
    match f {
        OutFrame::Text(s) => serde_json::from_str(s).unwrap(),
        other => panic!("unexpected frame: {other:?}"),
    }
}

#[test]
fn service_call_roundtrip() {
    let mut w = World::new(2);
    let host = w.send(
        0,
        IncomingMessage::AdvertiseService(AdvertiseService {
            service: "/add".into(),
            srv_type: "example_interfaces/srv/AddTwoInts".into(),
        }),
    );
    assert!(matches!(&host, Effect::AdvertiseService { service, .. } if service == "/add"));
    let id = w.bus.advertise_service("/add");
    assert_eq!(w.clients[0].service_advertised("/add", Ok(id)).unwrap(), None);

    let called = w.send(
        1,
        IncomingMessage::CallService(CallService {
            service: "/add".into(),
            srv_type: some("example_interfaces/srv/AddTwoInts"),
            id: some("call1"),
            args: Some(json(r#"{"a":3,"b":4}"#)),
            fragment_size: None,
            compression: None,
            timeout: None,
        }),
    );
    let (args, timeout, call_id) = match called {
        Effect::CallService { args, timeout, id, .. } => (args, timeout, id),
        other => panic!("{other:?}"),
    };
    assert_eq!(f64::from_bits(timeout.bits), 5.0);
    assert_eq!(w.bus.service_server("/add"), Ok(id));
    let (request, sent) = w.clients[0].service_requested("/add", args);
    let req = frame(&sent);
    assert_eq!(req["op"], "call_service");
    assert_eq!(req["args"]["a"], 3);
    assert_eq!(req["id"], "service_request:/add:0");
    assert_eq!(request, "service_request:/add:0");

    let response = |result: bool| {
        IncomingMessage::ServiceResponse(ServiceResponse {
            service: "/add".into(),
            id: some("service_request:/add:0"),
            result,
            values: Some(json(r#"{"sum":7}"#)),
        })
    };
    let values = match w.send(0, response(true)) {
        Effect::Respond { values, .. } => values.unwrap(),
        other => panic!("{other:?}"),
    };
    // A second response is refused.
    w.send(0, response(true));
    assert_eq!(w.text(0)["msg"], "no pending service request for id service_request:/add:0");

    let cfg = Config::default();
    let frames = w.clients[1].service_replied(&cfg, "/add", &call_id, None, Ok(values));
    let resp = frame(&frames[0]);
    assert_eq!(resp["op"], "service_response");
    assert_eq!(resp["result"], true);
    assert_eq!(resp["values"]["sum"], 7);
    assert_eq!(resp["id"], "call1");
}

#[test]
fn service_failure_response() {
    let mut w = World::new(2);
    let (request, _) = w.clients[0].service_requested("/maybe", json(r#"{"data":true}"#));
    let failed = IncomingMessage::ServiceResponse(ServiceResponse {
        service: "/maybe".into(),
        id: Some(request),
        result: false,
        values: None,
    });
    assert!(matches!(w.send(0, failed), Effect::Respond { values: None, .. }));
    let e = BackendError::Failed("service returned failure".to_string());
    let cfg = Config::default();
    let frames = w.clients[1].service_replied(&cfg, "/maybe", &some("c1"), Some(3), Err(e));
    let resp = frame(&frames[0]);
    assert_eq!(resp["op"], "service_response");
    assert_eq!(resp["result"], false);
    assert_eq!(resp["values"], "backend operation failed: service returned failure");
    assert_eq!(frames.len(), 1);
}

#[test]
fn services_are_replaced_and_withdrawn() {
    let mut w = World::new(1);
    let a = w.bus.advertise_service("/s");
    let b = w.bus.advertise_service("/s");
    assert_eq!(w.clients[0].service_advertised("/s", Ok(a)).unwrap(), None);
    assert_eq!(w.clients[0].service_advertised("/s", Ok(b)).unwrap(), Some(a));
    let gone = || IncomingMessage::UnadvertiseService(UnadvertiseService { service: "/s".into() });
    assert!(matches!(w.send(0, gone()), Effect::UnadvertiseService(id) if id == b));
    w.send(0, gone());
    assert_eq!(w.text(0)["msg"], "service /s was not advertised");
    let missing = IncomingMessage::ServiceResponse(ServiceResponse {
        service: "/s".into(),
        id: None,
        result: true,
        values: None,
    });
    w.send(0, missing);
    assert_eq!(w.text(0)["msg"], "service_response missing id");
    w.send(0, call("/s", None));
    assert_eq!(w.text(0)["msg"], "call_service /s: missing service type");
}

#[test]
fn names_may_carry_an_id() {
    assert_eq!(split_name_id("/s#7"), ("/s".to_string(), some("7")));
    assert_eq!(split_name_id("/s#7#8"), ("/s".to_string(), some("7#8")));
    assert_eq!(split_name_id("/s"), ("/s".to_string(), None));
}

#[test]
fn action_roundtrip_with_feedback() {
    let mut w = World::new(2);
    let host = w.send(
        0,
        IncomingMessage::AdvertiseAction(AdvertiseAction {
            action: "/fib".into(),
            action_type: "example_interfaces/action/Fibonacci".into(),
        }),
    );
    assert!(matches!(host, Effect::AdvertiseAction { .. }));
    let server = w.bus.advertise_action("/fib");
    assert_eq!(
        w.clients[0].action_advertised("/fib", "example_interfaces/action/Fibonacci", Ok(server)).unwrap(),
        None
    );

    let (args, id) = match w.send(1, IncomingMessage::SendActionGoal(goal("/fib"))) {
        Effect::SendGoal { args, id, feedback: true, .. } => (args, id),
        other => panic!("{other:?}"),
    };
    assert_eq!(w.bus.action_server("/fib"), Ok(server));
    let goal_id = w.bus.make_goal_id(77);
    let key = w.clients[1].goal_accepted("/fib", &goal_id, &id);
    let (hosted, sent) =
        w.clients[0].goal_received("/fib", "example_interfaces/action/Fibonacci", &goal_id, args);
    assert_eq!(hosted, key);
    let v = frame(&sent);
    assert_eq!(v["op"], "send_action_goal");
    assert_eq!(v["args"]["order"], 5);
    assert_eq!(v["feedback"], true);
    assert_eq!(v["id"], key);

    let progress = match w.send(
        0,
        IncomingMessage::ActionFeedback(ActionFeedback {
            action: "/fib".into(),
            id: hosted.clone(),
            values: json(r#"{"sequence":[0,1,1]}"#),
        }),
    ) {
        Effect::Feedback { progress, .. } => progress,
        other => panic!("{other:?}"),
    };
    let fb = frame(&goal_feedback("/fib", &id, progress));
    assert_eq!(fb["op"], "action_feedback");
    assert_eq!(fb["values"]["sequence"], Value::from(vec![0, 1, 1]));

    let result = |id: &str, status: Option<i32>, result: bool| {
        IncomingMessage::ActionResult(ActionResult {
            action: "/fib".into(),
            id: id.to_string(),
            result,
            values: Some(json(r#"{"sequence":[0,1,1,2,3,5]}"#)),
            status,
        })
    };
    let (values, status) = match w.send(0, result(&hosted, Some(4), true)) {
        Effect::Finish { values, status, .. } => (values.unwrap(), status),
        other => panic!("{other:?}"),
    };
    w.send(0, result(&hosted, Some(4), true));
    assert_eq!(w.text(0)["msg"], format!("action_result for unknown goal {hosted}"));

    let res = frame(&w.clients[1].goal_finished(&key, "/fib", &id, Some(Ok((values, status)))));
    assert_eq!(res["op"], "action_result");
    assert_eq!(res["result"], true);
    assert_eq!(res["values"]["sequence"], Value::from(vec![0, 1, 1, 2, 3, 5]));
    assert_eq!(res["status"], 4);
    assert_eq!(res["id"], "g1");
}

#[test]
fn goals_end_in_other_ways() {
    let mut w = World::new(1);
    let s = &mut w.clients[0];
    let v = frame(&s.goal_finished("k", "/a", &None, Some(Err("no".to_string()))));
    assert_eq!((&v["values"], &v["status"], &v["result"]), (&Value::from("no"), &Value::from(0), &Value::from(false)));
    let v = frame(&s.goal_finished("k", "/a", &None, None));
    assert_eq!(v["values"], "action channel closed");
    let v = frame(&goal_refused("/a", &some("i"), &BackendError::Timeout));
    assert_eq!((&v["values"], &v["id"]), (&Value::from("service call timed out"), &Value::from("i")));
    let v = frame(&goal_cancelled("/a", "key"));
    assert_eq!((&v["op"], &v["id"]), (&Value::from("cancel_action_goal"), &Value::from("key")));
}

#[test]
fn results_have_a_status_of_eight_bits() {
    for (given, result, code) in [
        (None, true, 4i8),
        (None, false, 6),
        (Some(-1), true, -1),
        (Some(127), true, 127),
        (Some(128), true, -128),
        (Some(300), true, 44),
        (Some(-129), true, 127),
        (Some(i32::MIN), true, 0),
    ] {
        let mut w = World::new(1);
        let (key, _) = w.clients[0].goal_received("/a", "a/B", &[7; 16], JsonValue::Null);
        let m = ActionResult { action: "/a".into(), id: key, result, values: None, status: given };
        match w.send(0, IncomingMessage::ActionResult(m)) {
            Effect::Finish { status, values, .. } => {
                assert_eq!(status, code);
                assert_eq!(values.is_some(), result);
            }
            other => panic!("{other:?}"),
        }
    }
}

#[test]
fn goals_are_cancelled_by_id() {
    let mut w = World::new(1);
    let key = w.clients[0].goal_accepted("/real", &[9; 16], &some("g1"));
    let cancel = |id: &str| {
        IncomingMessage::CancelActionGoal(CancelActionGoal { action: "/said".into(), id: id.to_string() })
    };
    assert!(matches!(w.send(0, cancel(&key)), Effect::CancelGoal { action, goal_id } if action == "/real" && goal_id == [9; 16]));
    let other = "00000000000000000000000000000001";
    assert!(matches!(w.send(0, cancel(other)), Effect::CancelGoal { action, .. } if action == "/said"));
    assert!(matches!(w.send(0, cancel("short")), Effect::Nothing));
    // By the id that the client gave the goal, as long as the goal runs.
    assert!(matches!(w.send(0, cancel("g1")), Effect::CancelGoal { action, goal_id } if action == "/real" && goal_id == [9; 16]));
    let again = w.clients[0].goal_accepted("/next", &[8; 16], &some("g1"));
    w.clients[0].goal_finished(&key, "/real", &some("g1"), None);
    assert!(matches!(w.send(0, cancel("g1")), Effect::CancelGoal { action, goal_id } if action == "/next" && goal_id == [8; 16]));
    w.clients[0].goal_finished(&again, "/next", &some("g1"), None);
    assert!(matches!(w.send(0, cancel("g1")), Effect::Nothing));
}

#[test]
fn actions_are_replaced_and_withdrawn() {
    let mut w = World::new(1);
    let a = w.bus.advertise_action("/a");
    let b = w.bus.advertise_action("/a");
    assert_eq!(w.clients[0].action_advertised("/a", "a/B", Ok(a)).unwrap(), None);
    assert_eq!(w.clients[0].action_advertised("/a", "a/B", Ok(b)).unwrap(), Some(a));
    let gone = || IncomingMessage::UnadvertiseAction(UnadvertiseAction { action: "/a".into() });
    assert!(matches!(w.send(0, gone()), Effect::UnadvertiseAction(id) if id == b));
    w.send(0, gone());
    assert_eq!(w.text(0)["msg"], "action /a was not advertised");
    let stray = IncomingMessage::ActionFeedback(ActionFeedback { action: "/a".into(), id: "z".into(), values: JsonValue::Null });
    w.send(0, stray);
    assert_eq!(w.text(0)["msg"], "action_feedback for unknown goal z");
}

#[test]
fn echoes_and_auth_are_ignored() {
    let mut w = World::new(1);
    w.send(0, IncomingMessage::Status(StatusIn { level: None, msg: None, id: None }));
    let zero = Number::PosInt(0);
    w.send(
        0,
        IncomingMessage::Auth(Auth {
            mac: String::new(),
            client: String::new(),
            dest: String::new(),
            rand: String::new(),
            t: zero,
            level: String::new(),
            end: zero,
        }),
    );
    assert!(w.texts(0).is_empty());
}

#[test]
fn shutdown_releases_everything() {
    let mut w = World::new(1);
    w.send(0, advertise("/a", "p/msg/T", None));
    w.send(0, advertise("/b", "p/msg/T", None));
    w.send(0, IncomingMessage::Subscribe(subscribe("/a", None)));
    let s = w.bus.advertise_service("/s");
    w.clients[0].service_advertised("/s", Ok(s)).unwrap();
    let a = w.bus.advertise_action("/x");
    w.clients[0].action_advertised("/x", "a/B", Ok(a)).unwrap();
    let mut r = w.clients[0].shutdown();
    r.publishers.sort_by_key(|p| p.0);
    assert_eq!(r.publishers, vec![PublisherId(0), PublisherId(1)]);
    assert_eq!(r.subscriptions, vec![SubscriptionId(2)]);
    assert_eq!(r.services, vec![s]);
    assert_eq!(r.actions, vec![a]);
    let again = w.clients[0].shutdown();
    assert!(again.publishers.is_empty() && again.subscriptions.is_empty());
    assert!(again.services.is_empty() && again.actions.is_empty());
    assert_eq!(w.clients[0].status_level, StatusLevel::Info);
}
