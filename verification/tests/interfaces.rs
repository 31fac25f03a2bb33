//! Interface definitions: parser and registry.
use rosbridge::datatype::{BaseType, Multiplicity, Primitive};
use rosbridge::defs::{ACTIONS, MESSAGES, SERVICES};
use rosbridge::parser::{
    normalize_type_name, parse_action, parse_field_type, parse_message, parse_service, ParseError,
};
use rosbridge::registry::{defined_type, normalize, InterfaceKind, Registry, RegistryError};

#[test]
fn normalize_names() {
    assert_eq!(normalize_type_name("Header", "foo"), "std_msgs/msg/Header");
    assert_eq!(normalize_type_name("Point", "geometry_msgs"), "geometry_msgs/msg/Point");
    assert_eq!(normalize_type_name("std_msgs/String", "x"), "std_msgs/msg/String");
    assert_eq!(normalize_type_name("std_msgs/msg/String", "x"), "std_msgs/msg/String");
}

#[test]
fn parse_array_forms() {
    let p = "geometry_msgs";
    assert_eq!(parse_field_type("float64", p).unwrap().multiplicity, Multiplicity::Scalar);
    assert_eq!(
        parse_field_type("float64[]", p).unwrap().multiplicity,
        Multiplicity::UnboundedSequence
    );
    assert_eq!(
        parse_field_type("float64[3]", p).unwrap().multiplicity,
        Multiplicity::FixedArray(3)
    );
    assert_eq!(
        parse_field_type("uint8[<=10]", p).unwrap().multiplicity,
        Multiplicity::BoundedSequence(10)
    );
    assert_eq!(
        parse_field_type("sequence<int32>", p).unwrap().multiplicity,
        Multiplicity::UnboundedSequence
    );
    assert_eq!(
        parse_field_type("sequence<int32, 5>", p).unwrap().multiplicity,
        Multiplicity::BoundedSequence(5)
    );
}

#[test]
fn parse_bounded_string() {
    let p = "x";
    assert_eq!(parse_field_type("string<=20", p).unwrap().base, BaseType::String(Some(20)));
    assert_eq!(parse_field_type("string", p).unwrap().base, BaseType::String(None));
}

#[test]
fn parse_msg_fields_and_constants() {
    let body = "uint8 FOO=1\nstring NAME=hello # not a comment value\nfloat64 x\nfloat64 y 3.5\nHeader header\n";
    let spec = parse_message("p/msg/M", "p", body).unwrap();
    assert_eq!(spec.constants.len(), 2);
    assert_eq!(spec.constants[0].name, "FOO");
    assert_eq!(spec.constants[0].value, "1");
    assert_eq!(spec.constants[1].value, "hello # not a comment value");
    assert_eq!(spec.fields.len(), 3);
    assert_eq!(spec.fields[1].default.as_deref(), Some("3.5"));
    assert_eq!(spec.fields[2].ty.base, BaseType::Message("std_msgs/msg/Header".into()));
}

#[test]
fn parse_srv_sections() {
    let s = parse_service("p/srv/S", "p", "int64 a\nint64 b\n---\nint64 sum\n").unwrap();
    assert_eq!(s.request.fields.len(), 2);
    assert_eq!(s.response.fields.len(), 1);
}

#[test]
fn parse_action_sections() {
    let a = parse_action("p/action/A", "p", "int32 order\n---\nint32[] done\n---\nint32[] part\nbool last\n")
        .unwrap();
    assert_eq!(a.goal.fields.len(), 1);
    assert_eq!(a.result.fields.len(), 1);
    assert_eq!(a.feedback.fields.len(), 2);
    assert_eq!(a.feedback.fields[1].ty.base, BaseType::Primitive(Primitive::Bool));
}

#[test]
fn standard_types_present() {
    let reg = Registry::with_standard_types();
    assert!(reg.message("std_msgs/msg/String").is_ok());
    assert!(reg.message("std_msgs/String").is_ok());
    assert!(reg.message("geometry_msgs/msg/Twist").is_ok());
    assert!(reg.message("builtin_interfaces/msg/Time").is_ok());
    assert!(reg.service("std_srvs/srv/SetBool").is_ok());
}

#[test]
fn malformed_definitions_are_refused() {
    assert!(matches!(parse_message("p/msg/M", "p", "float64\n"), Err(ParseError::InvalidLine(s)) if s == "float64"));
    assert!(matches!(parse_field_type("int32[x]", "p"), Err(ParseError::InvalidArray(_))));
    assert!(matches!(parse_field_type("", "p"), Err(ParseError::InvalidType(_))));
    let mut reg = Registry::new();
    let err = reg.add_message("p/msg/M", "float64\n");
    assert!(matches!(err, Err(RegistryError::Parse { name, .. }) if name == "p/msg/M"));
    assert!(!reg.has_message("p/msg/M"));
}

#[test]
fn names_are_normalized_once() {
    let once = normalize("std_msgs/String", "msg");
    assert_eq!(once, "std_msgs/msg/String");
    assert_eq!(normalize(&once, "msg"), once);
    let full = normalize_type_name("Point", "geometry_msgs");
    assert_eq!(normalize_type_name(&full, "other"), full);
}

#[test]
fn files_are_added_under_their_kind() {
    let mut reg = Registry::new();
    let before = reg.message_count();
    assert!(reg.add_file("pkg", InterfaceKind::Msg, "Thing", "int32 a\n"));
    assert!(reg.add_file("pkg", InterfaceKind::Srv, "Ask", "int32 a\n---\nint32 b\n"));
    assert!(reg.add_file("pkg", InterfaceKind::Action, "Act", "---\n---\n"));
    assert!(!reg.add_file("pkg", InterfaceKind::Msg, "Bad", "int32\n"));
    assert!(reg.has_message("pkg/msg/Thing"));
    assert!(reg.message("pkg/Thing").is_ok());
    assert!(reg.service("pkg/srv/Ask").is_ok());
    assert!(reg.action("pkg/action/Act").is_ok());
    assert!(reg.message_count() > before);
    assert_eq!(InterfaceKind::Action.as_str(), "action");
}

#[test]
fn primitive_names_are_their_tokens() {
    for p in [
        Primitive::Bool,
        Primitive::Byte,
        Primitive::Char,
        Primitive::Int8,
        Primitive::Uint8,
        Primitive::Int16,
        Primitive::Uint16,
        Primitive::Int32,
        Primitive::Uint32,
        Primitive::Int64,
        Primitive::Uint64,
        Primitive::Float32,
        Primitive::Float64,
    ] {
        assert_eq!(Primitive::from_token(p.name()), Some(p));
    }
    assert_eq!(Primitive::from_token("nothing"), None);
    assert_eq!(Primitive::Float64.size(), 8);
    assert!(Primitive::Uint8.is_byte_like());
}

#[test]
fn file_names_say_what_is_defined() {
    let path = |s: &str| std::path::Path::new(s).extension().and_then(|e| e.to_str()).map(|e| e.to_string());
    for (name, kind, stem) in [
        ("Point.msg", InterfaceKind::Msg, Some("Point")),
        ("a.b.srv", InterfaceKind::Srv, Some("a.b")),
        ("Point.msg", InterfaceKind::Srv, None),
        (".msg", InterfaceKind::Msg, None),
        ("msg", InterfaceKind::Msg, None),
        ("Fib.action", InterfaceKind::Action, Some("Fib")),
        ("x.action.", InterfaceKind::Action, None),
    ] {
        assert_eq!(defined_type(name, kind).as_deref(), stem, "{name}");
        assert_eq!(path(name).as_deref() == Some(kind.as_str()), stem.is_some(), "{name}");
    }
}

#[test]
fn parse_errors_quote_their_cause() {
    let e = parse_message("p/msg/M", "p", "floa\"t\n").unwrap_err();
    assert_eq!(e.message(), "invalid field/constant line: \"floa\\\"t\"");
    assert_eq!(parse_field_type("int32[x]", "p").unwrap_err().message(), "invalid array specifier: \"int32[x]\"");
    assert_eq!(ParseError::InvalidType("t".into()).message(), "invalid type token: \"t\"");
    let mut reg = Registry::new();
    let e = reg.add_message("p/msg/M", "x\n").unwrap_err();
    assert_eq!(e.message(), "parse error in p/msg/M: invalid field/constant line: \"x\"");
}

#[test]
fn actions_bring_their_wrapped_types() {
    let mut reg = Registry::new();
    reg.add_action("p/action/A", "int32 order\n---\nint32 sum\n---\nint32 part\n").unwrap();
    let types = |name: &str| -> Vec<(String, BaseType)> {
        let m = reg.message(name).unwrap();
        assert_eq!(m.name, name);
        m.fields.iter().map(|f| (f.name.clone(), f.ty.base.copy())).collect()
    };
    let message = |s: &str| BaseType::Message(s.to_string());
    let id = ("goal_id".to_string(), message("unique_identifier_msgs/msg/UUID"));
    assert_eq!(
        types("p/action/A_SendGoal_Request"),
        vec![id, ("goal".to_string(), message("p/action/A_Goal"))]
    );
    let id = ("goal_id".to_string(), message("unique_identifier_msgs/msg/UUID"));
    assert_eq!(
        types("p/action/A_FeedbackMessage"),
        vec![id, ("feedback".to_string(), message("p/action/A_Feedback"))]
    );
    assert_eq!(
        types("p/action/A_GetResult_Response"),
        vec![
            ("status".to_string(), BaseType::Primitive(Primitive::Int8)),
            ("result".to_string(), message("p/action/A_Result")),
        ]
    );
    assert_eq!(types("p/action/A_SendGoal_Response").len(), 2);
    assert_eq!(types("p/action/A_GetResult_Request").len(), 1);
    let send = reg.service("p/action/A_SendGoal").unwrap();
    assert_eq!(send.request.name, "p/action/A_SendGoal_Request");
    assert_eq!(reg.service("p/action/A_GetResult").unwrap().name, "p/action/A_GetResult");
}

#[test]
fn bundled_types_resolve() {
    let reg = Registry::with_standard_types();
    let mut names: Vec<String> = MESSAGES.iter().map(|(n, _)| n.to_string()).collect();
    for (n, _) in SERVICES {
        assert_eq!(reg.service(n).unwrap().name, n);
        names.extend([format!("{n}_Request"), format!("{n}_Response")]);
    }
    for (n, _) in ACTIONS {
        assert_eq!(reg.action(n).unwrap().name, n);
        for part in [
            "Goal",
            "Result",
            "Feedback",
            "FeedbackMessage",
            "SendGoal_Request",
            "SendGoal_Response",
            "GetResult_Request",
            "GetResult_Response",
        ] {
            names.push(format!("{n}_{part}"));
        }
    }
    assert_eq!(names.len(), reg.message_count());
    for name in names {
        for f in &reg.message(&name).unwrap().fields {
            if let BaseType::Message(n) = &f.ty.base {
                assert!(reg.message(n).is_ok(), "{name}: {n}");
            }
        }
    }
}

#[test]
fn services_have_the_messages_of_their_parts() {
    let (a, b) = ("int32 a\r\n# note\nstring s 'x'\r\r\n", "  bool ok\nint8 X=3");
    let s = parse_service("p/srv/S", "p", &format!("{a}---\n{b}")).unwrap();
    assert_eq!(s.request, parse_message("p/srv/S_Request", "p", a).unwrap());
    assert_eq!(s.response, parse_message("p/srv/S_Response", "p", b).unwrap());
    let s = parse_service("p/srv/S", "p", b).unwrap();
    assert_eq!(s.request, parse_message("p/srv/S_Request", "p", b).unwrap());
    assert!(s.response.fields.is_empty() && s.response.constants.is_empty());
    assert_eq!(s.response.name, "p/srv/S_Response");
}

#[test]
fn bundled_definitions_can_be_added_in_turn() {
    let mut reg = Registry::new();
    for (n, body) in MESSAGES {
        assert!(reg.add_message(n, body).is_ok(), "{n}");
    }
    for (n, body) in SERVICES {
        assert!(reg.add_service(n, body).is_ok(), "{n}");
    }
    for (n, body) in ACTIONS {
        assert!(reg.add_action(n, body).is_ok(), "{n}");
    }
    let all = Registry::with_standard_types();
    assert_eq!(reg.message_count(), all.message_count());
    for (n, body) in MESSAGES {
        let pkg = n.split('/').next().unwrap();
        let spec = parse_message(n, pkg, body).unwrap();
        assert_eq!(format!("{:?}", all.message(n).unwrap()), format!("{spec:?}"));
    }
}

#[test]
fn an_action_has_the_messages_of_its_parts() {
    let (a, b, c) = ("int32 order\n", "int32[] sequence\n", "string note\nbool done\n");
    let action = parse_action("p/action/A", "p", &format!("{a}---\n{b}---\n{c}")).unwrap();
    for (got, part, body) in [
        (&action.goal, "Goal", a),
        (&action.result, "Result", b),
        (&action.feedback, "Feedback", c),
    ] {
        let alone = parse_message(&format!("p/action/A_{part}"), "p", body).unwrap();
        assert_eq!(format!("{got:?}"), format!("{alone:?}"));
    }
}
