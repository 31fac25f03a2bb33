//! Messages between JSON and CDR.
use base64::Engine;
use rosbridge::cdr::CdrError;
use rosbridge::codec::{Codec, CodecError};
use rosbridge::dict::Dict;
use rosbridge::document::to_document;
use rosbridge::float::Float64;
use rosbridge::json::{JsonValue, Number};
use rosbridge::registry::{Registry, RegistryError};
use serde_json::Value;

fn reg() -> Registry {
    Registry::with_standard_types()
}

fn from(v: &Value) -> JsonValue {
    match v {
        Value::Null => JsonValue::Null,
        Value::Bool(b) => JsonValue::Bool(*b),
        Value::Number(n) => JsonValue::Number(match (n.as_u64(), n.as_i64(), n.as_f64()) {
            (Some(x), _, _) => Number::PosInt(x),
            (_, Some(x), _) => Number::NegInt(x),
            (_, _, x) => Number::Float(Float64 { bits: x.unwrap().to_bits() }),
        }),
        Value::String(s) => JsonValue::text(s),
        Value::Array(a) => JsonValue::Array(a.iter().map(from).collect()),
        Value::Object(o) => {
            let mut d = Dict::new();
            for (k, x) in o {
                d.insert(k.clone(), from(x));
            }
            JsonValue::Object(d)
        }
    }
}

fn json(s: &str) -> JsonValue {
    from(&serde_json::from_str(s).unwrap())
}

fn round_trip(codec: &Codec, ty: &str, v: &JsonValue, r: &Registry) -> Value {
    let spec = r.message(ty).unwrap();
    let bytes = codec.encode(spec, v).unwrap();
    to_document(&codec.decode(spec, &bytes).unwrap())
}

#[test]
fn roundtrip_string() {
    let r = reg();
    let codec = Codec::new(&r);
    let v = json(r#"{"data": "hello world"}"#);
    let back = round_trip(&codec, "std_msgs/msg/String", &v, &r);
    assert_eq!(back["data"], "hello world");
}

#[test]
fn roundtrip_nested_pose() {
    let r = reg();
    let codec = Codec::new(&r);
    let v = json(
        r#"{
        "position": {"x": 1.0, "y": 2.0, "z": 3.0},
        "orientation": {"x": 0.0, "y": 0.0, "z": 0.0, "w": 1.0}
    }"#,
    );
    let back = round_trip(&codec, "geometry_msgs/msg/Pose", &v, &r);
    assert_eq!(back["position"]["x"], 1.0);
    assert_eq!(back["orientation"]["w"], 1.0);
}

#[test]
fn partial_message_uses_defaults() {
    let r = reg();
    let codec = Codec::new(&r);
    let v = json(r#"{"x": 5.0}"#); // y, z omitted
    let back = round_trip(&codec, "geometry_msgs/msg/Vector3", &v, &r);
    assert_eq!(back["x"], 5.0);
    assert_eq!(back["y"], 0.0);
    assert_eq!(back["z"], 0.0);
}

#[test]
fn byte_array_base64() {
    let r = reg();
    // sensor_msgs/CompressedImage has uint8[] data.
    let codec = Codec::new(&r);
    let data = base64::engine::general_purpose::STANDARD.encode([1u8, 2, 3, 4]);
    let v = json(&format!(
        r#"{{"header": {{"frame_id": "cam"}}, "format": "jpeg", "data": "{data}"}}"#
    ));
    let back = round_trip(&codec, "sensor_msgs/msg/CompressedImage", &v, &r);
    // round-trips back to the same base64 string
    assert_eq!(back["data"], data);
    assert_eq!(back["format"], "jpeg");
}

#[test]
fn header_stamp_now_autofill() {
    let r = reg();
    let codec = Codec::with_now(&r, Some((123, 456)));
    let v = json(r#"{"frame_id": "base"}"#); // stamp omitted
    let back = round_trip(&codec, "std_msgs/msg/Header", &v, &r);
    assert_eq!(back["stamp"]["sec"], 123);
    assert_eq!(back["stamp"]["nanosec"], 456);
    assert_eq!(back["frame_id"], "base");
}

/// Golden test: exact CDR bytes for `std_msgs/String{data:"hello"}` as a
/// real ROS2 (CycloneDDS/FastDDS) endpoint would emit them.
#[test]
fn golden_string_cdr() {
    let r = reg();
    let spec = r.message("std_msgs/msg/String").unwrap();
    let bytes = Codec::new(&r).encode(spec, &json(r#"{"data":"hello"}"#)).unwrap();
    let expected = [
        0x00, 0x01, 0x00, 0x00, // CDR_LE encapsulation
        0x06, 0x00, 0x00, 0x00, // string length = 6 (incl NUL)
        b'h', b'e', b'l', b'l', b'o', 0x00,
    ];
    assert_eq!(bytes, expected);
}

/// Golden test: `geometry_msgs/Point{1.0, 2.0, 3.0}` — three 8-aligned f64.
#[test]
fn golden_point_cdr() {
    let r = reg();
    let spec = r.message("geometry_msgs/msg/Point").unwrap();
    let bytes = Codec::new(&r).encode(spec, &json(r#"{"x":1.0,"y":2.0,"z":3.0}"#)).unwrap();
    let mut expected = vec![0x00, 0x01, 0x00, 0x00];
    expected.extend_from_slice(&1.0f64.to_le_bytes());
    expected.extend_from_slice(&2.0f64.to_le_bytes());
    expected.extend_from_slice(&3.0f64.to_le_bytes());
    assert_eq!(bytes, expected);
}

/// Golden test exercising alignment: `std_msgs/Header` has a Time
/// (int32+uint32 = 8 bytes) then a 4-aligned string.
#[test]
fn golden_header_alignment() {
    let r = reg();
    let spec = r.message("std_msgs/msg/Header").unwrap();
    let bytes = Codec::with_now(&r, Some((0, 0)))
        .encode(spec, &json(r#"{"stamp":{"sec":1,"nanosec":2},"frame_id":"m"}"#))
        .unwrap();
    let expected = [
        0x00, 0x01, 0x00, 0x00, // encapsulation
        0x01, 0x00, 0x00, 0x00, // sec = 1 (int32)
        0x02, 0x00, 0x00, 0x00, // nanosec = 2 (uint32)
        0x02, 0x00, 0x00, 0x00, // frame_id length = 2
        b'm', 0x00, // "m" + NUL
    ];
    assert_eq!(bytes, expected);
}

/// Decoding the golden Point bytes must reproduce the values.
#[test]
fn golden_point_decode() {
    let r = reg();
    let spec = r.message("geometry_msgs/msg/Point").unwrap();
    let mut bytes = vec![0x00, 0x01, 0x00, 0x00];
    bytes.extend_from_slice(&4.5f64.to_le_bytes());
    bytes.extend_from_slice(&(-6.0f64).to_le_bytes());
    bytes.extend_from_slice(&0.0f64.to_le_bytes());
    let v = to_document(&Codec::new(&r).decode(spec, &bytes).unwrap());
    assert_eq!(v["x"], 4.5);
    assert_eq!(v["y"], -6.0);
    assert_eq!(v["z"], 0.0);
}

/// Big-endian CDR must decode identically.
#[test]
fn decode_big_endian() {
    let r = reg();
    let spec = r.message("std_msgs/msg/Int32").unwrap();
    // CDR_BE header (scheme byte 0x00), then int32 = 258 big-endian.
    let bytes = [0x00, 0x00, 0x00, 0x00, 0x00, 0x00, 0x01, 0x02];
    let v = to_document(&Codec::new(&r).decode(spec, &bytes).unwrap());
    assert_eq!(v["data"], 258);
}

#[test]
fn array_of_messages_roundtrip() {
    let r = reg();
    let codec = Codec::with_now(&r, Some((0, 0)));
    let v = json(
        r#"{
        "header": {"frame_id": "map"},
        "poses": [
            {"header":{"frame_id":"a"}, "pose":{"position":{"x":1.0,"y":0.0,"z":0.0},
                "orientation":{"x":0.0,"y":0.0,"z":0.0,"w":1.0}}},
            {"header":{"frame_id":"b"}, "pose":{"position":{"x":2.0,"y":0.0,"z":0.0},
                "orientation":{"x":0.0,"y":0.0,"z":0.0,"w":1.0}}}
        ]
    }"#,
    );
    let back = round_trip(&codec, "nav_msgs/msg/Path", &v, &r);
    assert_eq!(back["poses"].as_array().unwrap().len(), 2);
    assert_eq!(back["poses"][1]["pose"]["position"]["x"], 2.0);
    assert_eq!(back["poses"][0]["header"]["frame_id"], "a");
}

#[test]
fn fixed_array_covariance() {
    let r = reg();
    let codec = Codec::new(&r);
    let cov: Vec<f64> = (0..36).map(|i| i as f64).collect();
    let v = json(&format!(
        r#"{{"pose": {{"position":{{"x":0.0,"y":0.0,"z":0.0}},
                 "orientation":{{"x":0.0,"y":0.0,"z":0.0,"w":1.0}}}},
        "covariance": {cov:?}}}"#
    ));
    let back = round_trip(&codec, "geometry_msgs/msg/PoseWithCovariance", &v, &r);
    assert_eq!(back["covariance"].as_array().unwrap().len(), 36);
    assert_eq!(back["covariance"][35], 35.0);
}

#[test]
fn nonfinite_float_becomes_null() {
    let r = reg();
    let codec = Codec::new(&r);
    // Encode NaN via null, decode back to null.
    let back = round_trip(&codec, "std_msgs/msg/Float64", &json(r#"{"data": null}"#), &r);
    assert_eq!(back["data"], Value::Null);
}

#[test]
fn float_array_roundtrip() {
    let r = reg();
    let codec = Codec::new(&r);
    let v = json(r#"{"layout": {"dim": [], "data_offset": 0}, "data": [1.5, 2.5, 3.5]}"#);
    let back = round_trip(&codec, "std_msgs/msg/Float64MultiArray", &v, &r);
    assert_eq!(back["data"], Value::from(vec![1.5, 2.5, 3.5]));
}

#[test]
fn integer_extremes_roundtrip() {
    let r = reg();
    let codec = Codec::new(&r);
    for (ty, val) in [
        ("std_msgs/msg/Int64", Value::from(i64::MIN)),
        ("std_msgs/msg/UInt64", Value::from(u64::MAX)),
        ("std_msgs/msg/Int8", Value::from(-128)),
        ("std_msgs/msg/UInt8", Value::from(255)),
        ("std_msgs/msg/UInt32", Value::from(u32::MAX)),
    ] {
        let v = json(&format!(r#"{{"data": {val}}}"#));
        let back = round_trip(&codec, ty, &v, &r);
        assert_eq!(back["data"], val, "type {ty}");
    }
}

#[test]
fn out_of_range_int_is_rejected() {
    let r = reg();
    let spec = r.message("std_msgs/msg/UInt8").unwrap();
    let err = Codec::new(&r).encode(spec, &json(r#"{"data": 256}"#));
    assert!(err.is_err());
}

#[test]
fn string_sequence_roundtrip() {
    let r = reg();
    let codec = Codec::with_now(&r, Some((0, 0)));
    let v = json(
        r#"{
        "header": {"frame_id": ""},
        "name": ["j1", "j2", "j3"],
        "position": [0.1, 0.2, 0.3],
        "velocity": [],
        "effort": []
    }"#,
    );
    let back = round_trip(&codec, "sensor_msgs/msg/JointState", &v, &r);
    assert_eq!(back["name"], Value::from(vec!["j1", "j2", "j3"]));
    assert_eq!(back["position"][2], 0.3);
    assert_eq!(back["velocity"], Value::Array(vec![]));
}

#[test]
fn empty_message_roundtrip() {
    let r = reg();
    let codec = Codec::new(&r);
    let back = round_trip(&codec, "std_msgs/msg/Empty", &json("{}"), &r);
    assert_eq!(back, Value::Object(serde_json::Map::new()));
}

#[test]
fn service_request_response_roundtrip() {
    let r = reg();
    let svc = r.service("example_interfaces/srv/AddTwoInts").unwrap();
    let codec = Codec::new(&r);
    let req = codec.encode(&svc.request, &json(r#"{"a": 40, "b": 2}"#)).unwrap();
    assert_eq!(to_document(&codec.decode(&svc.request, &req).unwrap())["b"], 2);
    let resp = codec.encode(&svc.response, &json(r#"{"sum": 42}"#)).unwrap();
    assert_eq!(to_document(&codec.decode(&svc.response, &resp).unwrap())["sum"], 42);
}

#[test]
fn bool_field_accepts_int() {
    let r = reg();
    let codec = Codec::new(&r);
    let back = round_trip(&codec, "std_msgs/msg/Bool", &json(r#"{"data": 1}"#), &r);
    assert_eq!(back["data"], true);
}

#[test]
fn malicious_sequence_length_is_rejected_not_panicking() {
    let r = reg();
    let spec = r.message("std_msgs/msg/String").unwrap();
    // A String's length prefix claims ~4 billion bytes in a tiny buffer.
    let bytes = [0x00, 0x01, 0x00, 0x00, 0xFF, 0xFF, 0xFF, 0xFF, 0x00];
    let res = Codec::new(&r).decode(spec, &bytes);
    assert!(res.is_err(), "huge length must error, not panic/allocate");
}

#[test]
fn truncated_buffer_errors_gracefully() {
    let r = reg();
    let spec = r.message("geometry_msgs/msg/Point").unwrap();
    // Only 4 of the 24 required payload bytes are present.
    let bytes = [0x00, 0x01, 0x00, 0x00, 0x01, 0x02, 0x03, 0x04];
    assert!(Codec::new(&r).decode(spec, &bytes).is_err());
}

#[test]
fn time_accepts_ros1_aliases() {
    let r = reg();
    let codec = Codec::with_now(&r, Some((0, 0)));
    // ROS1-style secs/nsecs must be accepted.
    let v = json(r#"{"stamp": {"secs": 7, "nsecs": 8}, "frame_id": "x"}"#);
    let back = round_trip(&codec, "std_msgs/msg/Header", &v, &r);
    assert_eq!(back["stamp"]["sec"], 7);
    assert_eq!(back["stamp"]["nanosec"], 8);
}

#[test]
fn each_conversion_error_has_its_cause() {
    let r = reg();
    let codec = Codec::new(&r);
    let spec = r.message("std_msgs/msg/Int32").unwrap();
    assert!(matches!(
        codec.encode(spec, &json(r#"{"data": "x"}"#)),
        Err(CodecError::TypeMismatch { .. })
    ));
    assert!(matches!(
        codec.encode(spec, &json(r#"{"data": 3000000000}"#)),
        Err(CodecError::OutOfRange { .. })
    ));
    let spec = r.message("geometry_msgs/msg/PoseWithCovariance").unwrap();
    assert!(matches!(
        codec.encode(spec, &json(r#"{"covariance": [1.0]}"#)),
        Err(CodecError::ArrayLen { expected: 36, got: 1, .. })
    ));
    let spec = r.message("sensor_msgs/msg/CompressedImage").unwrap();
    assert!(matches!(
        codec.encode(spec, &json(r#"{"data": "***"}"#)),
        Err(CodecError::Base64 { .. })
    ));
    let spec = r.message("std_msgs/msg/Int32").unwrap();
    assert!(matches!(codec.decode(spec, &[9, 9, 9, 9]), Err(CodecError::Cdr(CdrError::BadEncapsulation))));
    let mut own = Registry::new();
    own.add_message("p/msg/A", "p/Missing m\n").unwrap();
    let spec = own.message("p/msg/A").unwrap();
    let res = Codec::new(&own).encode(spec, &json("{}"));
    assert!(matches!(res, Err(CodecError::UnknownType(_)) | Err(CodecError::Registry(_))), "{res:?}");
}

#[test]
fn defaults_of_fields_are_encoded() {
    let mut own = Registry::new();
    own.add_message("p/msg/D", "float64 y 3.5\nint32 n -4\nstring s \"hi\"\nbool b true\n").unwrap();
    let codec = Codec::new(&own);
    let back = round_trip(&codec, "p/msg/D", &json("{}"), &own);
    assert_eq!(back["y"], 3.5);
    assert_eq!(back["n"], -4);
    assert_eq!(back["b"], true);
}

#[test]
fn endless_nesting_is_told_apart() {
    let r = reg();
    let codec = Codec::new(&r);
    let spec = r.message("std_msgs/msg/String").unwrap();
    let bytes = codec.try_encode(spec, &json(r#"{"data": "ab"}"#)).unwrap().unwrap();
    assert_eq!(bytes, [0, 1, 0, 0, 3, 0, 0, 0, b'a', b'b', 0]);
    assert_eq!(to_document(&codec.try_decode(spec, &bytes).unwrap().unwrap())["data"], "ab");

    let mut own = Registry::new();
    own.add_message("p/msg/Loop", "p/Loop again\n").unwrap();
    let codec = Codec::new(&own);
    let spec = own.message("p/msg/Loop").unwrap();
    assert!(codec.try_encode(spec, &json("{}")).is_none());
    assert!(codec.try_decode(spec, &[0, 1, 0, 0]).is_none());
    assert!(!own.is_grounded(spec));
    assert!(r.is_grounded(r.message("std_msgs/msg/Header").unwrap()));

    // Other types of the same registry are not held up, nor are lists of themselves.
    own.add_message("p/msg/Plain", "int8 a\n").unwrap();
    own.add_message("p/msg/Tree", "Plain value\nTree[] children\n").unwrap();
    own.add_message("p/msg/Through", "Tree t\nLoop[] l\n").unwrap();
    let codec = Codec::new(&own);
    let tree = own.message("p/msg/Tree").unwrap();
    let v = json(r#"{"value":{"a":1},"children":[{"value":{"a":2}}]}"#);
    let bytes = codec.try_encode(tree, &v).unwrap().unwrap();
    let back = to_document(&codec.try_decode(tree, &bytes).unwrap().unwrap());
    assert_eq!(back["children"][0]["value"]["a"], 2);
    assert!(codec.try_encode(own.message("p/msg/Plain").unwrap(), &json("{}")).is_some());
    assert!(!own.is_grounded(own.message("p/msg/Through").unwrap()));
}

#[test]
fn plain_messages_come_back() {
    let mut r = Registry::new();
    r.add_message("p/msg/P", "int8 a\nuint8 b\nint64 c\nuint64 d\nuint32 e\nbool f\nstring g\nwstring h\n")
        .unwrap();
    let codec = Codec::new(&r);
    for text in [
        r#"{"a":-128,"b":255,"c":-9223372036854775808,"d":18446744073709551615,"e":4294967295,"f":true,"g":"x","h":"y"}"#,
        r#"{"a":127,"b":0,"c":9223372036854775807,"d":0,"e":0,"f":false,"g":"","h":""}"#,
    ] {
        let v: Value = serde_json::from_str(text).unwrap();
        assert_eq!(round_trip(&codec, "p/msg/P", &json(text), &r), v);
    }
}

#[test]
fn errors_have_their_words() {
    let r = reg();
    let codec = Codec::new(&r);
    let words = |ty: &str, v: &str| {
        codec.encode(r.message(ty).unwrap(), &json(v)).unwrap_err().message()
    };
    assert_eq!(words("std_msgs/msg/Int32", r#"{"data": "x"}"#), "field 'data': expected i32, found string");
    assert_eq!(words("std_msgs/msg/UInt8", r#"{"data": 256}"#), "field 'data': value out of range for uint8");
    assert_eq!(
        words("geometry_msgs/msg/PoseWithCovariance", r#"{"covariance": []}"#),
        "fixed array 'covariance' expects 36 elements, got 0"
    );
    assert_eq!(
        words("sensor_msgs/msg/CompressedImage", r#"{"data": "*"}"#),
        "invalid base64 in byte field 'data'"
    );
    assert_eq!(
        words("geometry_msgs/msg/Pose", r#"{"position": {"x": "far"}}"#),
        "field 'position.x': expected float64, found string"
    );
    let cut = codec.decode(r.message("std_msgs/msg/Int32").unwrap(), &[0, 1, 0, 0, 1, 2]);
    assert_eq!(cut.unwrap_err().message(), "unexpected end of CDR buffer (needed 4 bytes at offset 0)");
    assert_eq!(CodecError::UnknownType("a".into()).message(), "unknown nested type 'a'");
    assert_eq!(CdrError::BadEncapsulation.message(), "invalid encapsulation header");
    assert_eq!(CdrError::Utf8.message(), "invalid UTF-8 in CDR string");
    assert_eq!(CdrError::BadLength { len: 7 }.message(), "sequence length 7 exceeds remaining buffer");
    assert_eq!(r.message("a/B").unwrap_err().message(), "unknown message type: a/msg/B");
    assert_eq!(r.service("a/B").unwrap_err().message(), "unknown service type: a/srv/B");
    assert_eq!(r.action("a/B").unwrap_err().message(), "unknown action type: a/action/B");
}

#[test]
fn unknown_names_are_reported() {
    let r = reg();
    assert!(matches!(r.message("no/msg/Such"), Err(RegistryError::UnknownType(s)) if s == "no/msg/Such"));
    assert!(matches!(r.service("no/srv/Such"), Err(RegistryError::UnknownService(_))));
    assert!(matches!(r.action("no/action/Such"), Err(RegistryError::UnknownAction(_))));
}

#[test]
fn wide_strings_are_utf16() {
    let mut r = Registry::new();
    r.add_message("p/msg/W", "wstring data\nuint8 after\n").unwrap();
    let codec = Codec::new(&r);
    let spec = r.message("p/msg/W").unwrap();
    let bytes = codec.encode(spec, &json(r#"{"data":"hi","after":7}"#)).unwrap();
    assert_eq!(bytes, [0, 1, 0, 0, 2, 0, 0, 0, 0x68, 0, 0x69, 0, 7]);
    for text in ["", "hi", "\u{20ac}\u{fffd}", "a\u{1f600}b\u{10ffff}"] {
        let v = JsonValue::Object({
            let mut d = Dict::new();
            d.insert("data".to_string(), JsonValue::text(text));
            d.insert("after".to_string(), JsonValue::from_u64(9));
            d
        });
        let back = round_trip(&codec, "p/msg/W", &v, &r);
        assert_eq!(back["data"], text);
        assert_eq!(back["after"], 9);
    }
    // A pair of surrogates, in the other byte order.
    let big = [0, 0, 0, 0, 0, 0, 0, 2, 0xd8, 0x3d, 0xde, 0x00, 1];
    assert_eq!(to_document(&codec.decode(spec, &big).unwrap())["data"], "\u{1f600}");
    let single = [0, 1, 0, 0, 1, 0, 0, 0, 0x3d, 0xd8, 1];
    assert_eq!(codec.decode(spec, &single).unwrap_err(), CodecError::Cdr(CdrError::Utf16));
    let cut = [0, 1, 0, 0, 3, 0, 0, 0, 0x68, 0];
    assert!(matches!(codec.decode(spec, &cut), Err(CodecError::Cdr(CdrError::Eof { .. }))));
    assert_eq!(CdrError::Utf16.message(), "invalid UTF-16 in CDR wide string");
}
