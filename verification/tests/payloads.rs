//! Compression, documents, and defaults of payloads.
use base64::Engine;
use rosbridge::compression::{cbor_raw_frame, image_of, png_encode, to_cbor, Compression};
use rosbridge::dict::Dict;
use rosbridge::document::{binary_document, from_cbor, to_document, to_text};
use rosbridge::float::Float64;
use rosbridge::json::{JsonValue, Number};
use rosbridge::stamp::{args_or_empty, fill_header_stamp};
use serde_json::Value;

fn from(v: &Value) -> JsonValue {
    match v {
        Value::Null => JsonValue::Null,
        Value::Bool(b) => JsonValue::Bool(*b),
        Value::Number(n) => JsonValue::Number(match (n.as_u64(), n.as_i64(), n.as_f64()) {
            (Some(x), _, _) => Number::PosInt(x),
            (_, Some(x), _) => Number::NegInt(x),
            (_, _, x) => Number::Float(Float64 { bits: x.unwrap().to_bits() }),
        }),
        Value::String(s) => JsonValue::text(s),
        Value::Array(a) => JsonValue::Array(a.iter().map(from).collect()),
        Value::Object(o) => {
            let mut d = Dict::new();
            for (k, x) in o {
                d.insert(k.clone(), from(x));
            }
            JsonValue::Object(d)
        }
    }
}

fn json(s: &str) -> JsonValue {
    from(&serde_json::from_str(s).unwrap())
}

#[test]
fn compression_precedence() {
    assert!(Compression::CborRaw.rank() > Compression::Cbor.rank());
    assert!(Compression::Cbor.rank() > Compression::Png.rank());
    assert!(Compression::Png.rank() > Compression::Plain.rank());
}

#[test]
fn compression_names() {
    assert_eq!(Compression::parse("png"), Compression::Png);
    assert_eq!(Compression::parse("cbor"), Compression::Cbor);
    assert_eq!(Compression::parse("cbor-raw"), Compression::CborRaw);
    assert_eq!(Compression::parse("none"), Compression::Plain);
    assert_eq!(Compression::parse("other"), Compression::Plain);
}

#[test]
fn cbor_roundtrips_via_ciborium() {
    let text = r#"{"op":"publish","topic":"/t","msg":{"data":42}}"#;
    let v: Value = serde_json::from_str(text).unwrap();
    let bytes = to_cbor(&json(text));
    let back: Value = ciborium::from_reader(&bytes[..]).unwrap();
    assert_eq!(back, v);
}

#[test]
fn cbor_raw_has_byte_string() {
    let frame = cbor_raw_frame("/t", &[1, 2, 3, 4], 5, 6);
    let back: ciborium::value::Value = ciborium::from_reader(&frame[..]).unwrap();
    // Navigate to msg.bytes and confirm it's a CBOR byte string.
    let map = back.as_map().unwrap();
    let msg = map
        .iter()
        .find(|(k, _)| k.as_text() == Some("msg"))
        .map(|(_, v)| v)
        .unwrap();
    let msg_map = msg.as_map().unwrap();
    let bytes = msg_map
        .iter()
        .find(|(k, _)| k.as_text() == Some("bytes"))
        .map(|(_, v)| v)
        .unwrap();
    assert_eq!(bytes.as_bytes().unwrap(), &[1, 2, 3, 4]);
}

#[test]
fn cbor_raw_carries_time_and_topic() {
    let frame = cbor_raw_frame("/topic", &[0u8; 300], -5, 70_000);
    let back: ciborium::value::Value = ciborium::from_reader(&frame[..]).unwrap();
    let text = format!("{back:?}");
    assert!(text.contains("/topic") && text.contains("-5") && text.contains("70000"), "{text}");
}

#[test]
fn png_encodes_valid_image() {
    let s = r#"{"op":"publish","topic":"/t","msg":{"data":"hello"}}"#;
    let b64 = png_encode(s).unwrap();
    let raw = base64::engine::general_purpose::STANDARD.decode(&b64).unwrap();
    // PNG signature.
    assert_eq!(&raw[..8], &[137, 80, 78, 71, 13, 10, 26, 10]);
}

#[test]
fn png_holds_the_text() {
    let s = r#"{"a":"some text that is longer than a few pixels"}"#;
    let raw = base64::engine::general_purpose::STANDARD.decode(png_encode(s).unwrap()).unwrap();
    let mut reader = png::Decoder::new(&raw[..]).read_info().unwrap();
    let mut buf = vec![0; reader.output_buffer_size()];
    let info = reader.next_frame(&mut buf).unwrap();
    let text = std::str::from_utf8(&buf[..info.buffer_size()]).unwrap();
    assert_eq!(text.trim_end_matches('\n'), s);
    let (w, h, pixels) = image_of(s.as_bytes());
    assert_eq!((info.width as usize, info.height as usize), (w, h));
    assert_eq!(&buf[..], &pixels[..]);
}

#[test]
fn images_are_near_square() {
    let (w, h, pixels) = image_of(&[]);
    assert_eq!((w, h, pixels), (1, 1, vec![10, 10, 10]));
    let (w, h, pixels) = image_of(&[1, 2, 3, 4]);
    assert_eq!((w, h), (2, 1));
    assert_eq!(pixels, vec![1, 2, 3, 4, 10, 10]);
}

#[test]
fn documents_hold_the_value() {
    let text = r#"{"a":[1,-2,0.5,true,null,"x"],"b":{}}"#;
    let v = json(text);
    assert_eq!(to_document(&v), serde_json::from_str::<Value>(text).unwrap());
    assert_eq!(to_text(&v), text);
}

#[test]
fn the_first_of_equal_keys_counts() {
    let v = JsonValue::Object(Dict {
        entries: vec![
            ("k".to_string(), JsonValue::Bool(true)),
            ("k".to_string(), JsonValue::Bool(false)),
        ],
    });
    assert_eq!(to_text(&v), r#"{"k":true}"#);
}

#[test]
fn missing_payloads_are_empty_objects() {
    assert_eq!(to_text(&args_or_empty(None)), "{}");
    assert_eq!(to_text(&args_or_empty(Some(JsonValue::Null))), "{}");
    assert_eq!(to_text(&args_or_empty(Some(json("[1]")))), "[1]");
}

#[test]
fn headers_are_stamped_where_they_ask() {
    let now = (12, 34);
    let filled = r#"{"header":{"frame_id":"a","stamp":{"nanosec":34,"sec":12}},"x":1}"#;
    for asking in [
        r#"{"header":{"frame_id":"a"},"x":1}"#,
        r#"{"header":{"frame_id":"a","stamp":null},"x":1}"#,
        r#"{"header":{"frame_id":"a","stamp":"now"},"x":1}"#,
    ] {
        let once = fill_header_stamp(json(asking), now);
        assert_eq!(to_text(&once), filled);
        assert_eq!(to_text(&fill_header_stamp(once, (99, 99))), filled);
    }
    for other in [
        r#"{"header":{"stamp":"later"}}"#,
        r#"{"header":{"stamp":{"sec":1}}}"#,
        r#"{"header":7}"#,
        r#"{"x":1}"#,
        "[1]",
    ] {
        assert_eq!(to_text(&fill_header_stamp(json(other), now)), other);
    }
}

#[test]
fn binary_frames_are_read_or_refused() {
    let bytes = to_cbor(&json(r#"{"op":"x","n":[1,-2,0.5]}"#));
    assert_eq!(from_cbor(&bytes).unwrap()["n"][2], 0.5);
    let fault = ciborium::from_reader::<Value, _>(&[0xffu8][..]).unwrap_err().to_string();
    let refused = from_cbor(&[0xff]).unwrap_err();
    assert_eq!(refused.msg, format!("invalid CBOR: {fault}"));
    assert_eq!(binary_document(Err("why".to_string())).unwrap_err().msg, "invalid CBOR: why");
    assert_eq!(binary_document(Ok(Value::Bool(true))).unwrap(), true);
}

/// Arrays nested as deep as given, round null.
fn nested(depth: usize) -> JsonValue {
    let mut v = JsonValue::Null;
    for _ in 0..depth {
        v = JsonValue::Array(vec![v]);
    }
    v
}

/// An object with one member of a long key.
fn long_key(length: usize) -> JsonValue {
    let mut d = Dict::new();
    d.insert("k".repeat(length), JsonValue::Bool(true));
    JsonValue::Object(d)
}

#[test]
fn cbor_is_read_back_within_its_limits() {
    let long = format!("{{\"s\":\"{}\",\"z\":-0.0}}", "\u{fc}\u{20ac}".repeat(5000));
    for v in [
        json(r#"{"a":[null,true,18446744073709551615,-9223372036854775808],"b":{"c":1.1}}"#),
        json(r#"[0.5,1.0,1e300,-1e-310,3.4028234663852886e38,65504.0,"",{},[]]"#),
        json(&long),
        nested(256),
        long_key(4096),
    ] {
        let back = from_cbor(&to_cbor(&v)).unwrap();
        assert_eq!(from(&back), v);
    }
    for v in [nested(257), long_key(4097)] {
        assert!(from_cbor(&to_cbor(&v)).is_err());
    }
}
