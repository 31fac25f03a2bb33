//! The mathematics of message conversion.
//!
//! A message stands on the wire as a [`Wire`] value. Encoding JSON is to resolve
//! it into a wire value, driven by the schema, and to put that into a buffer;
//! decoding is to get a wire value from a buffer and to show it as JSON.
//!
//! A schema may nest messages without end. What resolves or is got within a
//! number of nested messages is the same within any larger number.
use vstd::prelude::*;
use crate::cdr::{
    from_twos_complement, get_raw, get_seq_len, get_string, get_uint, header, put_string, put_uint,
    twos_complement, zeros, CdrError, Endian,
};
use crate::datatype::{BaseModel, Multiplicity, Primitive, TypeModel};
use crate::encoding::{base64_bytes, base64_text, double_literal};
use crate::float::{Float32, Float64};
use crate::interface::{FieldModel, MessageModel};
use crate::json::{integer_number, Json, Number};
use crate::registry::{with_kind, RegistryFault};
use crate::text::{decimal, signed_value, unsigned_value};
use crate::wide::{get_wide, put_wide};

verus! {

/// A value as it stands on the wire.
pub ghost enum Wire {
    /// A primitive, as the unsigned number with the same bytes.
    Prim(Primitive, nat),
    /// A string.
    Text(Seq<char>),
    /// A wide string.
    Wide(Seq<char>),
    /// A fixed number of bytes.
    FixedBytes(Seq<u8>),
    /// Bytes with their number in front.
    Bytes(Seq<u8>),
    /// A fixed number of values.
    Array(Seq<Wire>),
    /// Values with their number in front.
    List(Seq<Wire>),
    /// The fields of a message, each with its name.
    Record(Seq<(Seq<char>, Wire)>),
}

/// A buffer with a value written at its end.
pub open spec fn put(b: Seq<u8>, e: Endian, w: Wire) -> Seq<u8>
    decreases w,
{
    match w {
        Wire::Prim(p, u) => put_uint(b, e, u, p.width()),
        Wire::Text(s) => put_string(b, e, s),
        Wire::Wide(s) => put_wide(b, e, s),
        Wire::FixedBytes(x) => b + x,
        Wire::Bytes(x) => put_uint(b, e, x.len() % 0x1_0000_0000, 4) + x,
        Wire::Array(v) => put_all(b, e, v),
        Wire::List(v) => put_all(put_uint(b, e, v.len() % 0x1_0000_0000, 4), e, v),
        Wire::Record(v) => put_fields(b, e, v),
    }
}

/// A buffer with values written at its end.
pub open spec fn put_all(b: Seq<u8>, e: Endian, v: Seq<Wire>) -> Seq<u8>
    decreases v,
{
    if v.len() == 0 {
        b
    } else {
        put(put_all(b, e, v.drop_last()), e, v.last())
    }
}

/// A buffer with the fields of a message written at its end.
pub open spec fn put_fields(b: Seq<u8>, e: Endian, v: Seq<(Seq<char>, Wire)>) -> Seq<u8>
    decreases v,
{
    if v.len() == 0 {
        b
    } else {
        put(put_fields(b, e, v.drop_last()), e, v.last().1)
    }
}

/// The JSON form of a number: a double, or null where it is not finite.
pub open spec fn double_json(f: Float64) -> Json {
    if f.finite() {
        Json::Number(Number::Float(f))
    } else {
        Json::Null
    }
}

/// The JSON form of a primitive.
pub open spec fn show_prim(p: Primitive, u: nat) -> Json {
    match p {
        Primitive::Bool => Json::Bool(u != 0),
        Primitive::Byte | Primitive::Char | Primitive::Uint8 | Primitive::Uint16
        | Primitive::Uint32 | Primitive::Uint64 => Json::Number(integer_number(u as int)),
        Primitive::Int8 | Primitive::Int16 | Primitive::Int32 | Primitive::Int64 => Json::Number(
            integer_number(from_twos_complement(u, p.width())),
        ),
        Primitive::Float32 => double_json((Float32 { bits: u as u32 }).widened()),
        Primitive::Float64 => double_json(Float64 { bits: u as u64 }),
    }
}

/// The JSON form of a value: bytes as base64 text, messages as objects.
pub open spec fn show(w: Wire) -> Json
    decreases w,
{
    match w {
        Wire::Prim(p, u) => show_prim(p, u),
        Wire::Text(s) => Json::String(s),
        Wire::Wide(s) => Json::String(s),
        Wire::FixedBytes(x) => Json::String(base64_text(x)),
        Wire::Bytes(x) => Json::String(base64_text(x)),
        Wire::Array(v) => Json::Array(show_all(v)),
        Wire::List(v) => Json::Array(show_all(v)),
        Wire::Record(v) => Json::Object(show_fields(v)),
    }
}

/// The JSON forms of values.
pub open spec fn show_all(v: Seq<Wire>) -> Seq<Json>
    decreases v,
{
    if v.len() == 0 {
        Seq::empty()
    } else {
        show_all(v.drop_last()).push(show(v.last()))
    }
}

/// The members of a message's object; where fields share a name, the last counts.
pub open spec fn show_fields(v: Seq<(Seq<char>, Wire)>) -> Map<Seq<char>, Json>
    decreases v,
{
    if v.len() == 0 {
        Map::empty()
    } else {
        show_fields(v.drop_last()).insert(v.last().0, show(v.last().1))
    }
}

/// An error of a conversion as mathematics.
#[allow(inconsistent_fields)]
pub ghost enum CodecFault {
    TypeMismatch { path: Seq<char>, expected: Seq<char>, found: Seq<char> },
    OutOfRange { path: Seq<char>, ty: Seq<char> },
    UnknownType(Seq<char>),
    ArrayLen { path: Seq<char>, expected: nat, got: nat },
    Base64 { path: Seq<char> },
    Cdr(CdrError),
    Registry(RegistryFault),
    /// Messages are nested more deeply than was allowed for.
    Unsettled,
}

/// The kind of a JSON value in words.
pub open spec fn kind_of(v: Json) -> Seq<char> {
    match v {
        Json::Null => "null"@,
        Json::Bool(_) => "bool"@,
        Json::Number(_) => "number"@,
        Json::String(_) => "string"@,
        Json::Array(_) => "array"@,
        Json::Object(_) => "object"@,
    }
}

/// A value is not of the expected kind.
pub open spec fn mismatch(path: Seq<char>, expected: Seq<char>, found: Json) -> CodecFault {
    CodecFault::TypeMismatch { path, expected, found: kind_of(found) }
}

/// The path of a member.
pub open spec fn member_path(path: Seq<char>, name: Seq<char>) -> Seq<char> {
    if path.len() == 0 {
        name
    } else {
        path + "."@ + name
    }
}

/// The path of an element.
pub open spec fn item_path(path: Seq<char>, i: nat) -> Seq<char> {
    path + "["@ + decimal(i) + "]"@
}

/// The integer that a JSON value is, written as one or as a double.
pub open spec fn integer_of(v: Json) -> Option<int> {
    match v {
        Json::Number(Number::PosInt(n)) => Some(n as int),
        Json::Number(Number::NegInt(n)) => Some(n as int),
        Json::Number(Number::Float(f)) => f.integer(),
        _ => None,
    }
}

/// The double that a JSON value is; null is NaN.
pub open spec fn double_of(v: Json) -> Option<Float64> {
    match v {
        Json::Null => Some(Float64 { bits: 0x7ff8_0000_0000_0000 }),
        Json::Number(n) => Some(n.double()),
        _ => None,
    }
}

/// The least and the greatest value of an integer primitive.
pub open spec fn range_of(p: Primitive) -> (int, int) {
    match p {
        Primitive::Int8 => (i8::MIN as int, i8::MAX as int),
        Primitive::Int16 => (i16::MIN as int, i16::MAX as int),
        Primitive::Uint16 => (0, u16::MAX as int),
        Primitive::Int32 => (i32::MIN as int, i32::MAX as int),
        Primitive::Uint32 => (0, u32::MAX as int),
        Primitive::Int64 => (i64::MIN as int, i64::MAX as int),
        Primitive::Uint64 => (0, u64::MAX as int),
        _ => (0, u8::MAX as int),
    }
}

/// What an error message calls an integer primitive.
pub open spec fn machine_name(p: Primitive) -> Seq<char> {
    match p {
        Primitive::Int8 => "i8"@,
        Primitive::Int16 => "i16"@,
        Primitive::Uint16 => "u16"@,
        Primitive::Int32 => "i32"@,
        Primitive::Uint32 => "u32"@,
        Primitive::Int64 => "i64"@,
        Primitive::Uint64 => "u64"@,
        _ => "u8"@,
    }
}

/// The primitive that a JSON value is.
pub open spec fn resolve_prim(p: Primitive, v: Json, path: Seq<char>) -> Result<nat, CodecFault> {
    match p {
        Primitive::Bool => match v {
            Json::Bool(b) => Ok(
                if b {
                    1
                } else {
                    0
                },
            ),
            Json::Number(n) => match n.signed() {
                Some(x) => Ok(
                    if x != 0 {
                        1
                    } else {
                        0
                    },
                ),
                None => Err(mismatch(path, "bool"@, v)),
            },
            _ => Err(mismatch(path, "bool"@, v)),
        },
        Primitive::Float32 => match double_of(v) {
            Some(f) => Ok(f.narrowed().bits as nat),
            None => Err(mismatch(path, "float32"@, v)),
        },
        Primitive::Float64 => match double_of(v) {
            Some(f) => Ok(f.bits as nat),
            None => Err(mismatch(path, "float64"@, v)),
        },
        _ => match integer_of(v) {
            None => Err(mismatch(path, machine_name(p), v)),
            Some(x) => if range_of(p).0 <= x <= range_of(p).1 {
                Ok(twos_complement(x, p.width()))
            } else {
                Err(CodecFault::OutOfRange { path, ty: p.token() })
            },
        },
    }
}

/// The default of a primitive, from the literal in the definition where there is
/// one that can be read.
pub open spec fn default_prim(p: Primitive, literal: Option<Seq<char>>) -> Json {
    match p {
        Primitive::Bool => Json::Bool(
            literal matches Some(d) && (d == "true"@ || d == "1"@),
        ),
        Primitive::Float32 | Primitive::Float64 => {
            let bits = match literal {
                Some(d) => double_literal(d),
                None => None,
            };
            match bits {
                Some(bits) => Json::Number(Number::Float(Float64 { bits })),
                None => Json::Number(Number::Float(Float64 { bits: 0 })),
            }
        },
        _ => match literal {
            None => Json::Number(Number::PosInt(0)),
            Some(d) => match signed_value(d, i64::MIN as int, i64::MAX as int) {
                Some(x) => Json::Number(integer_number(x)),
                None => match unsigned_value(d, u64::MAX as nat) {
                    Some(x) => Json::Number(integer_number(x as int)),
                    None => Json::Number(Number::PosInt(0)),
                },
            },
        },
    }
}

/// The byte that a JSON value is.
pub open spec fn byte_of(v: Json) -> Option<u8> {
    match v {
        Json::Number(Number::PosInt(n)) => if n < 256 {
            Some(n as u8)
        } else {
            None
        },
        _ => None,
    }
}

/// The bytes that a JSON value is: base64 text, or an array of bytes.
pub open spec fn bytes_of(v: Json, path: Seq<char>) -> Result<Seq<u8>, CodecFault> {
    match v {
        Json::String(s) => match base64_bytes(s) {
            Some(x) => Ok(x),
            None => Err(CodecFault::Base64 { path }),
        },
        Json::Array(a) => if forall|i: int| 0 <= i < a.len() ==> byte_of(#[trigger] a[i]) is Some {
            Ok(Seq::new(a.len(), |i: int| byte_of(a[i]).unwrap()))
        } else {
            Err(CodecFault::OutOfRange { path, ty: "uint8"@ })
        },
        _ => Err(mismatch(path, "base64 string or array"@, v)),
    }
}

/// What a conversion goes by: the known messages, and the current time.
pub ghost struct Env {
    pub messages: Map<Seq<char>, MessageModel>,
    pub now: Option<(i32, u32)>,
}

/// Whether a message type is a time or a duration.
pub open spec fn time_type(name: Seq<char>) -> bool {
    name == "builtin_interfaces/msg/Time"@ || name == "builtin_interfaces/msg/Duration"@
}

/// A point in time as an object.
pub open spec fn stamp_members(now: Option<(i32, u32)>) -> Map<Seq<char>, Json> {
    let t = match now {
        Some(t) => t,
        None => (0i32, 0u32),
    };
    Map::<Seq<char>, Json>::empty().insert(
        "sec"@,
        Json::Number(integer_number(t.0 as int)),
    ).insert("nanosec"@, Json::Number(integer_number(t.1 as int)))
}

/// `m` with the member `alias` under the name `key` too, where it has no `key`.
pub open spec fn with_alias(m: Map<Seq<char>, Json>, key: Seq<char>, alias: Seq<char>) -> Map<
    Seq<char>,
    Json,
> {
    if !m.dom().contains(key) && m.dom().contains(alias) {
        m.insert(key, m[alias])
    } else {
        m
    }
}

/// The value of a message: for times and durations the text `now` is the current
/// time, and `secs` and `nsecs` are other names of `sec` and `nanosec`.
pub open spec fn timed(env: Env, name: Seq<char>, v: Json) -> Json {
    if time_type(name) && v == Json::String("now"@) {
        Json::Object(stamp_members(env.now))
    } else if time_type(name) && v is Object {
        Json::Object(
            with_alias(with_alias(v->Object_0, "sec"@, "secs"@), "nanosec"@, "nsecs"@),
        )
    } else {
        v
    }
}

/// The member of an object, if the value is an object that has it.
pub open spec fn member_of(v: Json, name: Seq<char>) -> Option<Json> {
    match v {
        Json::Object(m) => if m.dom().contains(name) {
            Some(m[name])
        } else {
            None
        },
        _ => None,
    }
}

/// The message that a name refers to.
pub open spec fn message_of(messages: Map<Seq<char>, MessageModel>, name: Seq<char>) -> Result<
    MessageModel,
    CodecFault,
> {
    let norm = with_kind(name, "msg"@);
    if messages.dom().contains(norm) {
        Ok(messages[norm])
    } else {
        Err(CodecFault::Registry(RegistryFault::UnknownType(norm)))
    }
}

/// What a JSON value is as a value of a base type.
pub open spec fn resolve_scalar(
    env: Env,
    base: BaseModel,
    v: Json,
    path: Seq<char>,
    depth: nat,
) -> Result<Wire, CodecFault>
    decreases depth, 0nat, 0nat,
{
    match base {
        BaseModel::Primitive(p) => match resolve_prim(p, v, path) {
            Ok(u) => Ok(Wire::Prim(p, u)),
            Err(e) => Err(e),
        },
        BaseModel::String(_) => match v {
            Json::String(s) => Ok(Wire::Text(s)),
            _ => Err(mismatch(path, "string"@, v)),
        },
        BaseModel::WString(_) => match v {
            Json::String(s) => Ok(Wire::Wide(s)),
            _ => Err(mismatch(path, "string"@, v)),
        },
        BaseModel::Message(name) => match message_of(env.messages, name) {
            Err(e) => Err(e),
            Ok(m) => if depth == 0 {
                Err(CodecFault::Unsettled)
            } else {
                resolve_message(env, m, timed(env, name, v), path, (depth - 1) as nat)
            },
        },
    }
}

/// What the elements from the `i`-th on are, after `done`.
pub open spec fn resolve_items(
    env: Env,
    base: BaseModel,
    a: Seq<Json>,
    i: nat,
    done: Seq<Wire>,
    path: Seq<char>,
    depth: nat,
) -> Result<Seq<Wire>, CodecFault>
    decreases depth, 1nat, a.len() - i,
{
    if i >= a.len() {
        Ok(done)
    } else {
        match resolve_scalar(env, base, a[i as int], item_path(path, i), depth) {
            Err(e) => Err(e),
            Ok(w) => resolve_items(env, base, a, i + 1, done.push(w), path, depth),
        }
    }
}

/// What a JSON value is as the value of a field.
pub open spec fn resolve_field(
    env: Env,
    ty: TypeModel,
    v: Json,
    path: Seq<char>,
    depth: nat,
) -> Result<Wire, CodecFault>
    decreases depth, 2nat, 0nat,
{
    match ty.multiplicity {
        Multiplicity::Scalar => resolve_scalar(env, ty.base, v, path, depth),
        Multiplicity::FixedArray(n) => if ty.blob() {
            match bytes_of(v, path) {
                Err(e) => Err(e),
                Ok(x) => if x.len() != n {
                    Err(CodecFault::ArrayLen { path, expected: n as nat, got: x.len() })
                } else {
                    Ok(Wire::FixedBytes(x))
                },
            }
        } else {
            match v {
                Json::Array(a) => if a.len() != n {
                    Err(CodecFault::ArrayLen { path, expected: n as nat, got: a.len() })
                } else {
                    match resolve_items(env, ty.base, a, 0, Seq::empty(), path, depth) {
                        Err(e) => Err(e),
                        Ok(w) => Ok(Wire::Array(w)),
                    }
                },
                _ => Err(mismatch(path, "array"@, v)),
            }
        },
        Multiplicity::BoundedSequence(_) | Multiplicity::UnboundedSequence => if ty.blob() {
            match bytes_of(v, path) {
                Err(e) => Err(e),
                Ok(x) => Ok(Wire::Bytes(x)),
            }
        } else {
            match v {
                Json::Array(a) => match resolve_items(env, ty.base, a, 0, Seq::empty(), path, depth) {
                    Err(e) => Err(e),
                    Ok(w) => Ok(Wire::List(w)),
                },
                _ => Err(mismatch(path, "array"@, v)),
            }
        },
    }
}

/// The default of a base type. With `auto` it is a message that gets the current
/// time.
pub open spec fn default_scalar(
    env: Env,
    base: BaseModel,
    literal: Option<Seq<char>>,
    path: Seq<char>,
    auto: bool,
    depth: nat,
) -> Result<Wire, CodecFault>
    decreases depth, 0nat, 0nat,
{
    match base {
        BaseModel::Primitive(p) => match resolve_prim(p, default_prim(p, literal), path) {
            Ok(u) => Ok(Wire::Prim(p, u)),
            Err(e) => Err(e),
        },
        BaseModel::String(_) => Ok(
            Wire::Text(
                match literal {
                    Some(d) => d,
                    None => ""@,
                },
            ),
        ),
        BaseModel::WString(_) => Ok(
            Wire::Wide(
                match literal {
                    Some(d) => d,
                    None => ""@,
                },
            ),
        ),
        BaseModel::Message(name) => match message_of(env.messages, name) {
            Err(e) => Err(e),
            Ok(m) => if depth == 0 {
                Err(CodecFault::Unsettled)
            } else {
                let v = if auto {
                    Json::Object(stamp_members(env.now))
                } else {
                    Json::Object(Map::empty())
                };
                resolve_message(env, m, v, path, (depth - 1) as nat)
            },
        },
    }
}

/// The defaults of the elements from the `i`-th of `n` on, after `done`.
pub open spec fn default_items(
    env: Env,
    base: BaseModel,
    n: nat,
    i: nat,
    done: Seq<Wire>,
    path: Seq<char>,
    depth: nat,
) -> Result<Seq<Wire>, CodecFault>
    decreases depth, 1nat, n - i,
{
    if i >= n {
        Ok(done)
    } else {
        match default_scalar(env, base, None, item_path(path, i), false, depth) {
            Err(e) => Err(e),
            Ok(w) => default_items(env, base, n, i + 1, done.push(w), path, depth),
        }
    }
}

/// The default of a field: sequences are empty, arrays hold the defaults of their
/// elements.
pub open spec fn default_field(
    env: Env,
    ty: TypeModel,
    literal: Option<Seq<char>>,
    path: Seq<char>,
    auto: bool,
    depth: nat,
) -> Result<Wire, CodecFault>
    decreases depth, 2nat, 0nat,
{
    match ty.multiplicity {
        Multiplicity::Scalar => default_scalar(env, ty.base, literal, path, auto, depth),
        Multiplicity::FixedArray(n) => if ty.blob() {
            Ok(Wire::FixedBytes(zeros(n as nat)))
        } else {
            match default_items(env, ty.base, n as nat, 0, Seq::empty(), path, depth) {
                Err(e) => Err(e),
                Ok(w) => Ok(Wire::Array(w)),
            }
        },
        Multiplicity::BoundedSequence(_) | Multiplicity::UnboundedSequence => if ty.blob() {
            Ok(Wire::Bytes(Seq::empty()))
        } else {
            Ok(Wire::List(Seq::empty()))
        },
    }
}

/// Whether a field is the stamp of a header that is to be filled in: it is absent
/// or null.
pub open spec fn auto_stamp(m: MessageModel, f: FieldModel, v: Option<Json>) -> bool {
    &&& m.name == "std_msgs/msg/Header"@
    &&& f.name == "stamp"@
    &&& v is None || v == Some(Json::Null)
}

/// What a field of a message is, given the value of the message.
pub open spec fn resolve_member(
    env: Env,
    m: MessageModel,
    f: FieldModel,
    v: Json,
    path: Seq<char>,
    depth: nat,
) -> Result<Wire, CodecFault>
    decreases depth, 3nat, 0nat,
{
    let given = member_of(v, f.name);
    let auto = auto_stamp(m, f, given);
    let fpath = member_path(path, f.name);
    if given is Some && !auto {
        resolve_field(env, f.ty, given.unwrap(), fpath, depth)
    } else {
        default_field(env, f.ty, f.default, fpath, auto, depth)
    }
}

/// What the fields from the `i`-th on are, after `done`.
pub open spec fn resolve_fields(
    env: Env,
    m: MessageModel,
    v: Json,
    i: nat,
    done: Seq<(Seq<char>, Wire)>,
    path: Seq<char>,
    depth: nat,
) -> Result<Seq<(Seq<char>, Wire)>, CodecFault>
    decreases depth, 4nat, m.fields.len() - i,
{
    if i >= m.fields.len() {
        Ok(done)
    } else {
        let f = m.fields[i as int];
        match resolve_member(env, m, f, v, path, depth) {
            Err(e) => Err(e),
            Ok(w) => resolve_fields(env, m, v, i + 1, done.push((f.name, w)), path, depth),
        }
    }
}

/// What a JSON value is as a message. Members that the message has no field for
/// are passed over, and fields without a member get their defaults.
pub open spec fn resolve_message(
    env: Env,
    m: MessageModel,
    v: Json,
    path: Seq<char>,
    depth: nat,
) -> Result<Wire, CodecFault>
    decreases depth, 5nat, 0nat,
{
    match resolve_fields(env, m, v, 0, Seq::empty(), path, depth) {
        Err(e) => Err(e),
        Ok(w) => Ok(Wire::Record(w)),
    }
}

/// The buffer that a JSON value is encoded to, where messages nest at most `depth`
/// deep.
pub open spec fn encoding(env: Env, m: MessageModel, v: Json, depth: nat) -> Result<
    Seq<u8>,
    CodecFault,
> {
    match resolve_message(env, m, v, Seq::empty(), depth) {
        Err(e) => Err(e),
        Ok(w) => Ok(put(header(Endian::Little), Endian::Little, w)),
    }
}

/// Whether `r` is what encoding a JSON value comes to.
pub open spec fn encodes_to(
    env: Env,
    m: MessageModel,
    v: Json,
    r: Result<Seq<u8>, CodecFault>,
) -> bool {
    &&& r != Err::<Seq<u8>, CodecFault>(CodecFault::Unsettled)
    &&& exists|depth: nat| #[trigger] encoding(env, m, v, depth) == r
}

/// What a value of a base type is at a position, with the position after it.
pub open spec fn take_scalar(
    messages: Map<Seq<char>, MessageModel>,
    base: BaseModel,
    data: Seq<u8>,
    pos: nat,
    e: Endian,
    depth: nat,
) -> Result<(Wire, nat), CodecFault>
    decreases depth, 0nat, 0nat,
{
    match base {
        BaseModel::Primitive(p) => match get_uint(data, pos, e, p.width()) {
            (Ok(u), q) => Ok((Wire::Prim(p, u), q)),
            (Err(x), _) => Err(CodecFault::Cdr(x)),
        },
        BaseModel::String(_) => match get_string(data, pos, e) {
            (Ok(s), q) => Ok((Wire::Text(s), q)),
            (Err(x), _) => Err(CodecFault::Cdr(x)),
        },
        BaseModel::WString(_) => match get_wide(data, pos, e) {
            (Ok(s), q) => Ok((Wire::Wide(s), q)),
            (Err(x), _) => Err(CodecFault::Cdr(x)),
        },
        BaseModel::Message(name) => match message_of(messages, name) {
            Err(x) => Err(x),
            Ok(m) => if depth == 0 {
                Err(CodecFault::Unsettled)
            } else {
                take_message(messages, m, data, pos, e, (depth - 1) as nat)
            },
        },
    }
}

/// What the next `n` elements are, after `done`.
pub open spec fn take_items(
    messages: Map<Seq<char>, MessageModel>,
    base: BaseModel,
    n: nat,
    done: Seq<Wire>,
    data: Seq<u8>,
    pos: nat,
    e: Endian,
    depth: nat,
) -> Result<(Seq<Wire>, nat), CodecFault>
    decreases depth, 1nat, n,
{
    if n == 0 {
        Ok((done, pos))
    } else {
        match take_scalar(messages, base, data, pos, e, depth) {
            Err(x) => Err(x),
            Ok((w, q)) => take_items(
                messages,
                base,
                (n - 1) as nat,
                done.push(w),
                data,
                q,
                e,
                depth,
            ),
        }
    }
}

/// What the value of a field is at a position, with the position after it.
pub open spec fn take_field(
    messages: Map<Seq<char>, MessageModel>,
    ty: TypeModel,
    data: Seq<u8>,
    pos: nat,
    e: Endian,
    depth: nat,
) -> Result<(Wire, nat), CodecFault>
    decreases depth, 2nat, 0nat,
{
    match ty.multiplicity {
        Multiplicity::Scalar => take_scalar(messages, ty.base, data, pos, e, depth),
        Multiplicity::FixedArray(n) => if ty.blob() {
            match get_raw(data, pos, n as nat) {
                (Ok(x), q) => Ok((Wire::FixedBytes(x), q)),
                (Err(x), _) => Err(CodecFault::Cdr(x)),
            }
        } else {
            match take_items(messages, ty.base, n as nat, Seq::empty(), data, pos, e, depth) {
                Ok((w, q)) => Ok((Wire::Array(w), q)),
                Err(x) => Err(x),
            }
        },
        Multiplicity::BoundedSequence(_) | Multiplicity::UnboundedSequence => match get_seq_len(
            data,
            pos,
            e,
        ) {
            (Err(x), _) => Err(CodecFault::Cdr(x)),
            (Ok(n), q) => if ty.blob() {
                match get_raw(data, q, n) {
                    (Ok(x), z) => Ok((Wire::Bytes(x), z)),
                    (Err(x), _) => Err(CodecFault::Cdr(x)),
                }
            } else {
                match take_items(messages, ty.base, n, Seq::empty(), data, q, e, depth) {
                    Ok((w, z)) => Ok((Wire::List(w), z)),
                    Err(x) => Err(x),
                }
            },
        },
    }
}

/// What the fields from the `i`-th on are, after `done`.
pub open spec fn take_fields(
    messages: Map<Seq<char>, MessageModel>,
    m: MessageModel,
    i: nat,
    done: Seq<(Seq<char>, Wire)>,
    data: Seq<u8>,
    pos: nat,
    e: Endian,
    depth: nat,
) -> Result<(Seq<(Seq<char>, Wire)>, nat), CodecFault>
    decreases depth, 3nat, m.fields.len() - i,
{
    if i >= m.fields.len() {
        Ok((done, pos))
    } else {
        let f = m.fields[i as int];
        match take_field(messages, f.ty, data, pos, e, depth) {
            Err(x) => Err(x),
            Ok((w, q)) => take_fields(
                messages,
                m,
                i + 1,
                done.push((f.name, w)),
                data,
                q,
                e,
                depth,
            ),
        }
    }
}

/// What a message is at a position, with the position after it.
pub open spec fn take_message(
    messages: Map<Seq<char>, MessageModel>,
    m: MessageModel,
    data: Seq<u8>,
    pos: nat,
    e: Endian,
    depth: nat,
) -> Result<(Wire, nat), CodecFault>
    decreases depth, 4nat, 0nat,
{
    match take_fields(messages, m, 0, Seq::empty(), data, pos, e, depth) {
        Err(x) => Err(x),
        Ok((w, q)) => Ok((Wire::Record(w), q)),
    }
}

/// The byte order that the header of a buffer announces, if it is a known one.
pub open spec fn announced(bytes: Seq<u8>) -> Option<Endian> {
    if bytes.len() < 4 || bytes[1] > 3 {
        None
    } else if bytes[1] % 2 == 0 {
        Some(Endian::Big)
    } else {
        Some(Endian::Little)
    }
}

/// The JSON value that a buffer is decoded to, where messages nest at most `depth`
/// deep.
pub open spec fn decoding(
    messages: Map<Seq<char>, MessageModel>,
    m: MessageModel,
    bytes: Seq<u8>,
    depth: nat,
) -> Result<Json, CodecFault> {
    match announced(bytes) {
        None => Err(CodecFault::Cdr(CdrError::BadEncapsulation)),
        Some(e) => match take_message(messages, m, bytes.skip(4), 0, e, depth) {
            Err(x) => Err(x),
            Ok((w, _)) => Ok(show(w)),
        },
    }
}

/// Whether `r` is what decoding a buffer comes to.
pub open spec fn decodes_to(
    messages: Map<Seq<char>, MessageModel>,
    m: MessageModel,
    bytes: Seq<u8>,
    r: Result<Json, CodecFault>,
) -> bool {
    &&& r != Err::<Json, CodecFault>(CodecFault::Unsettled)
    &&& exists|depth: nat| #[trigger] decoding(messages, m, bytes, depth) == r
}

/// As many values as elements.
pub proof fn resolved_items_count(
    env: Env,
    base: BaseModel,
    a: Seq<Json>,
    i: nat,
    done: Seq<Wire>,
    path: Seq<char>,
    depth: nat,
)
    requires
        i <= a.len(),
        done.len() == i,
        resolve_items(env, base, a, i, done, path, depth) is Ok,
    ensures
        (resolve_items(env, base, a, i, done, path, depth)->Ok_0).len() == a.len(),
    decreases a.len() - i,
{
    if i < a.len() {
        let w = resolve_scalar(env, base, a[i as int], item_path(path, i), depth);
        resolved_items_count(env, base, a, i + 1, done.push(w->Ok_0), path, depth);
    }
}

} // verus!
