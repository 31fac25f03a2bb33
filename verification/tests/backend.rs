//! Names, payloads and errors at the ROS backend, and the in-process bus.
use rosbridge::backend::{
    ros_names, ros_type_string, unmangle_topic, unmangle_type, ActionServerId, BackendError,
    PublisherId, ServiceServerId, SubscriptionId,
};
use rosbridge::dds::{cdr_body, discover_type, encapsulate};
use rosbridge::json::JsonValue;
use rosbridge::loopback::{goal_outcome, service_outcome, Bus, ServiceReply};
use rosbridge::uuid::{string_to_uuid, uuid_to_string};

fn failed(s: &str) -> BackendError {
    BackendError::Failed(s.to_string())
}

#[test]
fn unmangle_roundtrips_ros_names() {
    assert_eq!(unmangle_topic("rt/chatter").as_deref(), Some("/chatter"));
    assert_eq!(unmangle_topic("rt/ns/topic").as_deref(), Some("/ns/topic"));
    assert_eq!(unmangle_topic("not_a_topic"), None);
    assert_eq!(
        unmangle_type("std_msgs::msg::dds_::String_").as_deref(),
        Some("std_msgs/msg/String")
    );
    assert_eq!(
        unmangle_type("geometry_msgs::msg::dds_::Twist_").as_deref(),
        Some("geometry_msgs/msg/Twist")
    );
}

#[test]
fn ros_names_split_correctly() {
    let names = ros_names("/foo/bar", "std_msgs/msg/String").unwrap();
    let name = ros2_client::Name::new(&names.namespace, &names.base).unwrap();
    let ty = ros2_client::MessageTypeName::new(&names.package, &names.ros_type);
    let node = ros2_client::NodeName::new("/", "n").unwrap();
    assert_eq!(name.to_dds_name("rt", &node, ""), "rt/foo/bar");
    assert_eq!(ty.dds_msg_type(), "std_msgs::msg::dds_::String_");
}

#[test]
fn bad_names_are_refused() {
    let names = ros_names("/foo", "std_msgs/String").unwrap();
    assert_eq!((names.namespace.as_str(), names.base.as_str()), ("/", "foo"));
    assert!(matches!(ros_names("/foo", "String"), Err(BackendError::Failed(s)) if s == "bad type 'String'"));
    let fault = ros2_client::Name::new("/", "1x").unwrap_err().to_string();
    assert_eq!(ros_names("/1x", "a/B"), Err(failed(&format!("bad topic '/1x': {fault}"))));
}

#[test]
fn topics_are_accepted_by_their_parts() {
    for topic in ["foo", "/foo", "/foo/bar", "foo/_bar9", "/_a/b_c/D_", "/a1/x", "//bar"] {
        assert!(ros_names(topic, "a/B").is_ok(), "{topic}");
    }
    for topic in [
        "", "/", "foo/", "/foo//bar", "/1x", "/1a/x", "/a__b", "/a__b/x", "/a-b", "/a b/x",
        "/\u{e9}", "~/x", "{ns}/x",
    ] {
        let r = ros_names(topic, "a/B");
        assert!(matches!(r, Err(BackendError::Failed(s)) if s.starts_with("bad topic '")), "{topic}");
    }
}

#[test]
fn type_strings_get_a_kind() {
    assert_eq!(ros_type_string("std_msgs/String"), "std_msgs/msg/String");
    assert_eq!(ros_type_string("std_msgs/msg/String"), "std_msgs/msg/String");
    assert_eq!(ros_type_string("String"), "String");
    assert_eq!(unmangle_type("String"), None);
    assert_eq!(unmangle_type("a::b").as_deref(), Some("a/b"));
}

#[test]
fn types_are_found_among_discovered_topics() {
    let topics = [
        ("rt/x".to_string(), "odd".to_string()),
        ("rq/x".to_string(), "a::srv::dds_::Q_".to_string()),
        ("rt/x".to_string(), "std_msgs::msg::dds_::Bool_".to_string()),
        ("rt/x".to_string(), "std_msgs::msg::dds_::Int8_".to_string()),
    ];
    assert_eq!(discover_type(&topics, "/x").as_deref(), Some("std_msgs/msg/Bool"));
    assert_eq!(discover_type(&topics, "/y"), None);
}

#[test]
fn bodies_are_behind_a_header() {
    assert_eq!(cdr_body(&[0, 1, 0]), Err(failed("cdr too short")));
    assert_eq!(cdr_body(&[0, 1, 0, 0]), Ok(vec![]));
    let full = encapsulate([0, 1], &[5, 6]);
    assert_eq!(full, vec![0, 1, 0, 0, 5, 6]);
    assert_eq!(cdr_body(&full), Ok(vec![5, 6]));
}

#[test]
fn errors_in_words() {
    assert_eq!(failed("x").message(), "backend operation failed: x");
    assert_eq!(BackendError::Timeout.message(), "service call timed out");
    assert_eq!(BackendError::Unsupported("y").message(), "unsupported by this backend: y");
}

#[test]
fn messages_reach_the_subscribers_of_a_topic() {
    let mut bus = Bus::new();
    let p = bus.advertise("/a");
    assert_eq!(p, PublisherId(0));
    assert_eq!(bus.publish(p), Ok(vec![]));
    let s = bus.subscribe("/a");
    let t = bus.subscribe("/a");
    let u = bus.subscribe("/b");
    assert_eq!((s, t, u), (SubscriptionId(1), SubscriptionId(2), SubscriptionId(3)));
    assert_eq!(bus.publish(p), Ok(vec![s, t]));
    bus.unsubscribe(s);
    bus.unsubscribe(u);
    assert_eq!(bus.publish(p), Ok(vec![t]));
    bus.prune(p, &vec![t]);
    assert_eq!(bus.publish(p), Ok(vec![]));
    bus.unadvertise(p);
    assert_eq!(bus.publish(p), Err(failed("unknown publisher")));
}

#[test]
fn services_and_actions_answer_to_their_names() {
    let mut bus = Bus::new();
    assert_eq!(bus.service_server("/s"), Err(failed("service /s not available")));
    let s = bus.advertise_service("/s");
    assert_eq!(s, ServiceServerId(0));
    assert_eq!(bus.service_server("/s"), Ok(s));
    let t = bus.advertise_service("/s");
    assert_eq!(bus.service_server("/s"), Ok(t));
    bus.unadvertise_service(t);
    assert!(bus.service_server("/s").is_err());
    assert_eq!(bus.action_server("/a"), Err(failed("action /a not available")));
    let a = bus.advertise_action("/a");
    assert_eq!(a, ActionServerId(2));
    assert_eq!(bus.action_server("/a"), Ok(a));
    bus.unadvertise_action(a);
    assert!(bus.action_server("/a").is_err());
}

#[test]
fn outcomes_of_requests_and_goals() {
    assert_eq!(service_outcome(ServiceReply::Answered(Some(JsonValue::Bool(true)))), Ok(JsonValue::Bool(true)));
    assert_eq!(service_outcome(ServiceReply::Answered(None)), Err(failed("service returned failure")));
    assert_eq!(service_outcome(ServiceReply::Dropped), Err(failed("service server dropped")));
    assert_eq!(service_outcome(ServiceReply::TimedOut), Err(BackendError::Timeout));
    assert_eq!(goal_outcome(Some((Some(JsonValue::Null), 4))), Ok((JsonValue::Null, 4)));
    assert_eq!(goal_outcome(Some((None, -6))), Err("action aborted (status -6)".to_string()));
    assert_eq!(goal_outcome(Some((None, 6))), Err("action aborted (status 6)".to_string()));
    assert_eq!(goal_outcome(None), Err("action server dropped".to_string()));
}

#[test]
fn goal_ids_hold_number_and_time() {
    let mut bus = Bus::new();
    bus.advertise("/x");
    let id = bus.make_goal_id(0x0102_0304_0506_0708);
    assert_eq!(id, [1, 0, 0, 0, 0, 0, 0, 0, 8, 7, 6, 5, 4, 3, 2, 1]);
    assert_ne!(bus.make_goal_id(0x0102_0304_0506_0708), id);
}

#[test]
fn goal_ids_read_back_from_text() {
    let id = [0, 1, 2, 3, 4, 5, 6, 7, 8, 9, 0xab, 0xcd, 0xef, 0x10, 0xff, 0x7f];
    let text = uuid_to_string(&id);
    assert_eq!(text, "00010203040506070809abcdef10ff7f");
    assert_eq!(string_to_uuid(&text), Some(id));
    assert_eq!(string_to_uuid("00010203-0405-0607-0809-ABCDEF10FF7F"), Some(id));
    assert_eq!(string_to_uuid("0001"), None);
    assert_eq!(string_to_uuid(""), None);
}
