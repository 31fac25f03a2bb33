//! Payloads on their way to ROS: defaults for what a client leaves out.
use vstd::prelude::*;
use crate::dict::Dict;
use crate::effect::optional_value;
use crate::json::{integer_number, members, set_member, Json, JsonValue};
use crate::text::same_text;

verus! {

/// A payload; a missing one, or null, is the empty object.
pub open spec fn payload(args: Option<Json>) -> Json {
    match args {
        Some(Json::Null) => Json::Object(Map::empty()),
        None => Json::Object(Map::empty()),
        Some(v) => v,
    }
}

/// Normalizes an optional `args`/`values` payload, defaulting missing/null to an
/// empty object. (ROS serialization expects a structured object; positional
/// array args are passed through and validated by the backend.)
pub fn args_or_empty(args: Option<JsonValue>) -> (r: JsonValue)
    ensures
        r@ == payload(optional_value(args)),
{
    match args {
        Some(JsonValue::Null) => JsonValue::empty_object(),
        None => JsonValue::empty_object(),
        Some(v) => v,
    }
}

/// A time as ROS has it.
pub open spec fn stamp_json(now: (i32, u32)) -> Json {
    Json::Object(
        Map::<Seq<char>, Json>::empty().insert(
            "sec"@,
            Json::Number(integer_number(now.0 as int)),
        ).insert("nanosec"@, Json::Number(integer_number(now.1 as int))),
    )
}

/// Whether a header asks for the current time: its stamp is absent, null or the
/// string `"now"`.
pub open spec fn wants_stamp(header: Map<Seq<char>, Json>) -> bool {
    !header.dom().contains("stamp"@) || header["stamp"@] == Json::Null || header["stamp"@]
        == Json::String("now"@)
}

/// The header of a message, where it has one that is an object.
pub open spec fn header_of(v: Json) -> Option<Map<Seq<char>, Json>> {
    match v {
        Json::Object(m) => if m.dom().contains("header"@) {
            match m["header"@] {
                Json::Object(h) => Some(h),
                _ => None,
            }
        } else {
            None
        },
        _ => None,
    }
}

/// A message with the current time in its header, where that asks for it.
pub open spec fn stamped(v: Json, now: (i32, u32)) -> Json {
    match header_of(v) {
        Some(h) => if wants_stamp(h) {
            Json::Object(
                v->Object_0.insert("header"@, Json::Object(h.insert("stamp"@, stamp_json(now)))),
            )
        } else {
            v
        },
        None => v,
    }
}

fn stamp_value(now: (i32, u32)) -> (r: JsonValue)
    ensures
        r@ == stamp_json(now),
{
    let mut d: Dict<JsonValue> = Dict::new();
    proof {
        crate::json::empty_has_no_members(d);
    }
    set_member(&mut d, "sec", JsonValue::from_i64(now.0 as i64));
    set_member(&mut d, "nanosec", JsonValue::from_u64(now.1 as u64));
    JsonValue::Object(d)
}

fn asks_for_stamp(header: &Dict<JsonValue>) -> (r: bool)
    ensures
        r == wants_stamp(members(*header)),
{
    match crate::json::member(header, "stamp") {
        None => true,
        Some(JsonValue::Null) => true,
        Some(JsonValue::String(s)) => same_text(s.as_str(), "now"),
        _ => false,
    }
}

/// Auto-fills `header.stamp` with the current time when a message carries a
/// `header` object whose `stamp` is absent, null, or the string `"now"`.
pub fn fill_header_stamp(value: JsonValue, now: (i32, u32)) -> (r: JsonValue)
    ensures
        r@ == stamped(value@, now),
{
    match value {
        JsonValue::Object(mut d) => {
            let ghost before = members(d);
            let header = match crate::json::member(&d, "header") {
                Some(v) => match v {
                    JsonValue::Object(h) if asks_for_stamp(h) => Some(v.copy()),
                    _ => None,
                },
                None => None,
            };
            if let Some(JsonValue::Object(mut h)) = header {
                let ghost head = members(h);
                set_member(&mut h, "stamp", stamp_value(now));
                set_member(&mut d, "header", JsonValue::Object(h));
                assert(members(d) =~= before.insert(
                    "header"@,
                    Json::Object(head.insert("stamp"@, stamp_json(now))),
                ));
            }
            JsonValue::Object(d)
        },
        other => other,
    }
}

/// A message that was stamped is not stamped again.
pub proof fn stamping_is_idempotent(v: Json, first: (i32, u32), second: (i32, u32))
    ensures
        stamped(stamped(v, first), second) == stamped(v, first),
{
    if header_of(v) is Some && wants_stamp(header_of(v).unwrap()) {
        let h = header_of(v).unwrap().insert("stamp"@, stamp_json(first));
        let w = stamped(v, first);
        assert(w->Object_0["header"@] == Json::Object(h));
        assert(header_of(w) == Some(h));
        assert(h["stamp"@] == stamp_json(first));
        assert(!wants_stamp(h));
    }
}

/// Stamping changes nothing of a message but the stamp of its header.
pub proof fn stamping_keeps_the_rest(m: Map<Seq<char>, Json>, now: (i32, u32), key: Seq<char>)
    requires
        key != "header"@,
    ensures
        stamped(Json::Object(m), now) is Object,
        stamped(Json::Object(m), now)->Object_0.dom() == m.dom(),
        m.dom().contains(key) ==> stamped(Json::Object(m), now)->Object_0[key] == m[key],
        header_of(Json::Object(m)) matches Some(h) ==> (header_of(stamped(Json::Object(m), now)) matches Some(g)
            && g.remove("stamp"@) == h.remove("stamp"@)),
{
    let v = Json::Object(m);
    if header_of(v) is Some && wants_stamp(header_of(v).unwrap()) {
        let h = header_of(v).unwrap();
        let g = h.insert("stamp"@, stamp_json(now));
        let w = stamped(v, now);
        assert(w->Object_0["header"@] == Json::Object(g));
        assert(header_of(w) == Some(g));
        assert(w->Object_0.dom() =~= m.dom());
        assert(g.remove("stamp"@) =~= h.remove("stamp"@));
    }
}

} // verus!
