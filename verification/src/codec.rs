//! Schema-driven conversion between JSON values and CDR bytes.
//!
//! This is the rosbridge serialization boundary: ROS 2 carries opaque CDR over
//! DDS, while rosbridge clients speak JSON. Because CDR is not self-describing,
//! every conversion is driven by a parsed [`MessageSpec`] from the [`Registry`].
use vstd::prelude::*;
use crate::cdr::{
    header, one_byte_is_pushed, put_uint, zeros, CdrError, CdrReader, CdrWriter, Endian,
};
use crate::datatype::{BaseModel, BaseType, FieldType, Multiplicity, Primitive};
use crate::dict::Dict;
use crate::encoding::{base64_decode, base64_encode, parse_double};
use crate::float::{clamp_i128, Float64};
use crate::interface::{Field, MessageModel, MessageSpec};
use crate::json::{lemma_array, member, members, set_member, views, Json, JsonValue, Number};
use crate::nesting::{grounded, grounded_decoding_settles, grounded_encoding_settles};
use crate::registry::{Registry, RegistryError};
use crate::text::{
    concat3, decimal, decimal_chars, number_text, parse_signed, parse_unsigned, same_text, to_chars,
    to_text,
};
use crate::wide::{read_wide, write_wide};
use crate::wire::{
    byte_of, bytes_of, decodes_to, decoding, default_field, default_items, default_prim,
    default_scalar, double_json, double_of, encodes_to, encoding, integer_of, item_path, kind_of,
    member_path, message_of, mismatch, put, put_all, put_fields, resolve_field, resolve_fields,
    resolve_items, resolve_member, resolve_message, resolve_prim, resolve_scalar, show, show_all,
    show_fields, stamp_members, take_field, take_fields, take_items, take_message, take_scalar,
    time_type, timed, with_alias, CodecFault, Env, Wire,
};

verus! {

/// A ROS time/duration value: seconds and nanoseconds.
pub type RosTime = (i32, u32);

/// Errors during JSON/CDR conversion.
#[allow(inconsistent_fields)]
#[derive(Debug, PartialEq)]
pub enum CodecError {
    /// A value is not of the expected kind.
    TypeMismatch { path: String, expected: String, found: String },
    /// A number does not fit its type.
    OutOfRange { path: String, ty: String },
    /// A nested type is not known.
    UnknownType(String),
    /// A fixed array has the wrong number of elements.
    ArrayLen { path: String, expected: usize, got: usize },
    /// A byte field holds invalid base64.
    Base64 { path: String },
    /// The buffer is malformed.
    Cdr(CdrError),
    /// A type is not registered.
    Registry(RegistryError),
}

impl CodecError {
    /// The error in words.
    pub open spec fn text(&self) -> Seq<char> {
        match self {
            CodecError::TypeMismatch { path, expected, found } => "field '"@ + path@
                + "': expected "@ + expected@ + ", found "@ + found@,
            CodecError::OutOfRange { path, ty } => "field '"@ + path@
                + "': value out of range for "@ + ty@,
            CodecError::UnknownType(s) => "unknown nested type '"@ + s@ + "'"@,
            CodecError::ArrayLen { path, expected, got } => "fixed array '"@ + path@
                + "' expects "@ + decimal(*expected as nat) + " elements, got "@ + decimal(
                *got as nat,
            ),
            CodecError::Base64 { path } => "invalid base64 in byte field '"@ + path@ + "'"@,
            CodecError::Cdr(e) => e.text(),
            CodecError::Registry(e) => e.text(),
        }
    }

    /// The error in words.
    pub fn message(&self) -> (r: String)
        ensures
            r@ == self.text(),
    {
        match self {
            CodecError::TypeMismatch { path, expected, found } => {
                let mut s = concat3("field '", path.as_str(), "': expected ");
                s.append(expected.as_str());
                s.append(", found ");
                s.append(found.as_str());
                s
            },
            CodecError::OutOfRange { path, ty } => {
                let mut s = concat3("field '", path.as_str(), "': value out of range for ");
                s.append(ty.as_str());
                s
            },
            CodecError::UnknownType(s) => concat3("unknown nested type '", s.as_str(), "'"),
            CodecError::ArrayLen { path, expected, got } => {
                let mut s = concat3("fixed array '", path.as_str(), "' expects ");
                s.append(number_text(*expected).as_str());
                s.append(" elements, got ");
                s.append(number_text(*got).as_str());
                s
            },
            CodecError::Base64 { path } => concat3(
                "invalid base64 in byte field '",
                path.as_str(),
                "'",
            ),
            CodecError::Cdr(e) => e.message(),
            CodecError::Registry(e) => e.message(),
        }
    }
}

impl View for CodecError {
    type V = CodecFault;

    open spec fn view(&self) -> CodecFault {
        match self {
            CodecError::TypeMismatch { path, expected, found } => CodecFault::TypeMismatch {
                path: path@,
                expected: expected@,
                found: found@,
            },
            CodecError::OutOfRange { path, ty } => CodecFault::OutOfRange { path: path@, ty: ty@ },
            CodecError::UnknownType(s) => CodecFault::UnknownType(s@),
            CodecError::ArrayLen { path, expected, got } => CodecFault::ArrayLen {
                path: path@,
                expected: *expected as nat,
                got: *got as nat,
            },
            CodecError::Base64 { path } => CodecFault::Base64 { path: path@ },
            CodecError::Cdr(e) => CodecFault::Cdr(*e),
            CodecError::Registry(e) => CodecFault::Registry(e@),
        }
    }
}

/// Whether `r` reports `step`, with the writer after it as `step` says.
pub open spec fn written(
    step: Result<Wire, CodecFault>,
    before: CdrWriter,
    after: CdrWriter,
    r: Result<(), CodecError>,
) -> bool {
    &&& after.wf()
    &&& after.order() == before.order()
    &&& match step {
        Ok(w) => r is Ok && after.bytes() == put(before.bytes(), before.order(), w),
        Err(e) => r matches Err(x) && x@ == e,
    }
}

fn type_name_of(v: &JsonValue) -> (r: &'static str)
    ensures
        r@ == kind_of(v@),
{
    match v {
        JsonValue::Null => "null",
        JsonValue::Bool(_) => "bool",
        JsonValue::Number(_) => "number",
        JsonValue::String(_) => "string",
        JsonValue::Array(_) => "array",
        JsonValue::Object(_) => "object",
    }
}

fn mismatched(path: &str, expected: &str, found: &JsonValue) -> (r: CodecError)
    ensures
        r@ == mismatch(path@, expected@, found@),
{
    CodecError::TypeMismatch {
        path: path.to_owned(),
        expected: expected.to_owned(),
        found: type_name_of(found).to_owned(),
    }
}

fn is_time_type(name: &str) -> (r: bool)
    ensures
        r == time_type(name@),
{
    same_text(name, "builtin_interfaces/msg/Time") || same_text(
        name,
        "builtin_interfaces/msg/Duration",
    )
}

fn path_of_member(path: &str, name: &str) -> (r: String)
    ensures
        r@ == member_path(path@, name@),
{
    if to_chars(path).len() == 0 {
        name.to_owned()
    } else {
        concat3(path, ".", name)
    }
}

fn path_of_item(path: &str, i: usize) -> (r: String)
    ensures
        r@ == item_path(path@, i as nat),
{
    let index = to_text(decimal_chars(i as u64).as_slice());
    let head = concat3(path, "[", index.as_str());
    let mut out = head;
    out.append("]");
    out
}

/// The point in time as an object.
fn stamp(now: Option<RosTime>) -> (r: JsonValue)
    ensures
        r@ == Json::Object(stamp_members(now)),
{
    let (sec, nsec) = match now {
        Some(t) => t,
        None => (0, 0),
    };
    let mut d: Dict<JsonValue> = Dict::new();
    proof {
        assert(members(d) =~= Map::empty()) by {
            crate::json::empty_has_no_members(d);
        }
    }
    set_member(&mut d, "sec", JsonValue::from_i64(sec as i64));
    set_member(&mut d, "nanosec", JsonValue::from_u64(nsec as u64));
    JsonValue::Object(d)
}

/// A JSON number as an integer (accepts integral floats too).
fn as_i128(v: &JsonValue) -> (r: Option<i128>)
    ensures
        match integer_of(v@) {
            Some(x) => r == Some(clamp_i128(x)),
            None => r is None,
        },
{
    match v {
        JsonValue::Number(Number::PosInt(n)) => Some(*n as i128),
        JsonValue::Number(Number::NegInt(n)) => Some(*n as i128),
        JsonValue::Number(Number::Float(f)) => f.to_integer(),
        _ => None,
    }
}

/// A JSON number as a double, mapping `null` to NaN (rosbridge round-trips
/// non-finite floats as null).
fn as_double_or_nan(v: &JsonValue) -> (r: Option<Float64>)
    ensures
        r == double_of(v@),
{
    match v {
        JsonValue::Null => Some(Float64 { bits: 0x7ff8_0000_0000_0000 }),
        JsonValue::Number(n) => Some(n.as_double()),
        _ => None,
    }
}

/// Decodes a JSON byte blob that may be a base64 string or an array of ints.
fn decode_byte_blob(value: &JsonValue, path: &str) -> (r: Result<Vec<u8>, CodecError>)
    ensures
        match r {
            Ok(x) => bytes_of(value@, path@) == Ok::<Seq<u8>, CodecFault>(x@),
            Err(e) => bytes_of(value@, path@) == Err::<Seq<u8>, CodecFault>(e@),
        },
{
    match value {
        JsonValue::String(s) => match base64_decode(s.as_str()) {
            Some(x) => Ok(x),
            None => Err(CodecError::Base64 { path: path.to_owned() }),
        },
        JsonValue::Array(a) => {
            proof {
                lemma_array(*a);
            }
            let ghost all = views(a@);
            let mut out: Vec<u8> = Vec::new();
            for i in 0..a.len()
                invariant
                    all == views(a@),
                    value@ == Json::Array(all),
                    out@.len() == i,
                    forall|j: int| 0 <= j < i ==> byte_of(#[trigger] all[j]) == Some(out@[j]),
            {
                let byte: Option<u8> = match &a[i] {
                    JsonValue::Number(n) => match n.as_u64() {
                        Some(x) => if x < 256 {
                            Some(x as u8)
                        } else {
                            None
                        },
                        None => None,
                    },
                    _ => None,
                };
                assert(all[i as int] == a@[i as int]@);
                match byte {
                    Some(x) => {
                        out.push(x);
                    },
                    None => {
                        assert(byte_of(all[i as int]) is None);
                        return Err(
                            CodecError::OutOfRange {
                                path: path.to_owned(),
                                ty: "uint8".to_owned(),
                            },
                        );
                    },
                }
            }
            assert(out@ =~= Seq::new(all.len(), |i: int| byte_of(all[i]).unwrap()));
            Ok(out)
        },
        _ => Err(mismatched(path, "base64 string or array", value)),
    }
}

/// Produces a JSON default for a primitive from an optional literal.
fn default_primitive_value(p: Primitive, default: Option<&str>) -> (r: JsonValue)
    ensures
        r@ == default_prim(
            p,
            match default {
                Some(d) => Some(d@),
                None => None,
            },
        ),
{
    match p {
        Primitive::Bool => JsonValue::Bool(
            match default {
                Some(d) => same_text(d, "true") || same_text(d, "1"),
                None => false,
            },
        ),
        Primitive::Float32 | Primitive::Float64 => {
            let bits = match default {
                Some(d) => parse_double(d),
                None => None,
            };
            match bits {
                Some(bits) => JsonValue::Number(Number::Float(Float64 { bits })),
                None => JsonValue::Number(Number::Float(Float64 { bits: 0 })),
            }
        },
        _ => match default {
            None => JsonValue::from_u64(0),
            Some(d) => {
                let chars = to_chars(d);
                if let Some(x) = parse_signed(chars.as_slice()) {
                    return JsonValue::from_i64(x);
                }
                if let Some(x) = parse_unsigned(chars.as_slice(), u64::MAX) {
                    return JsonValue::from_u64(x);
                }
                JsonValue::from_u64(0)
            },
        },
    }
}

/// Writes an integer primitive. Where it is refused, the writer is left as it was.
fn encode_integer(p: Primitive, value: &JsonValue, w: &mut CdrWriter, path: &str) -> (r: Result<
    (),
    CodecError,
>)
    requires
        old(w).wf(),
        !(p is Bool) && !(p is Float32) && !(p is Float64),
    ensures
        final(w).wf(),
        final(w).order() == old(w).order(),
        match resolve_prim(p, value@, path@) {
            Ok(u) => r is Ok && final(w).bytes() == put_uint(
                old(w).bytes(),
                old(w).order(),
                u,
                p.width(),
            ),
            Err(e) => (r matches Err(x) && x@ == e) && final(w).bytes() == old(w).bytes(),
        },
{
    let (lo, hi, machine): (i128, i128, &'static str) = match p {
        Primitive::Int8 => (i8::MIN as i128, i8::MAX as i128, "i8"),
        Primitive::Int16 => (i16::MIN as i128, i16::MAX as i128, "i16"),
        Primitive::Uint16 => (0, u16::MAX as i128, "u16"),
        Primitive::Int32 => (i32::MIN as i128, i32::MAX as i128, "i32"),
        Primitive::Uint32 => (0, u32::MAX as i128, "u32"),
        Primitive::Int64 => (i64::MIN as i128, i64::MAX as i128, "i64"),
        Primitive::Uint64 => (0, u64::MAX as i128, "u64"),
        _ => (0, u8::MAX as i128, "u8"),
    };
    let n = match as_i128(value) {
        Some(n) => n,
        None => {
            return Err(mismatched(path, machine, value));
        },
    };
    if n < lo || n > hi {
        return Err(CodecError::OutOfRange { path: path.to_owned(), ty: p.name().to_owned() });
    }
    match p {
        Primitive::Int8 => w.write_i8(n as i8),
        Primitive::Int16 => w.write_i16(n as i16),
        Primitive::Uint16 => w.write_u16(n as u16),
        Primitive::Int32 => w.write_i32(n as i32),
        Primitive::Uint32 => w.write_u32(n as u32),
        Primitive::Int64 => w.write_i64(n as i64),
        Primitive::Uint64 => w.write_u64(n as u64),
        _ => {
            proof {
                one_byte_is_pushed(w.bytes(), w.order(), n as nat);
            }
            w.write_u8(n as u8)
        },
    }
    Ok(())
}

/// Writes a primitive. Where it is refused, the writer is left as it was.
fn encode_primitive(p: Primitive, value: &JsonValue, w: &mut CdrWriter, path: &str) -> (r: Result<
    (),
    CodecError,
>)
    requires
        old(w).wf(),
    ensures
        final(w).wf(),
        final(w).order() == old(w).order(),
        match resolve_prim(p, value@, path@) {
            Ok(u) => r is Ok && final(w).bytes() == put_uint(
                old(w).bytes(),
                old(w).order(),
                u,
                p.width(),
            ),
            Err(e) => (r matches Err(x) && x@ == e) && final(w).bytes() == old(w).bytes(),
        },
{
    match p {
        Primitive::Bool => {
            let b: Option<bool> = match value {
                JsonValue::Bool(b) => Some(*b),
                JsonValue::Number(n) => match n.as_i64() {
                    Some(x) => Some(x != 0),
                    None => None,
                },
                _ => None,
            };
            match b {
                Some(b) => {
                    proof {
                        one_byte_is_pushed(w.bytes(), w.order(), 0);
                        one_byte_is_pushed(w.bytes(), w.order(), 1);
                    }
                    w.write_bool(b);
                    Ok(())
                },
                None => Err(mismatched(path, "bool", value)),
            }
        },
        Primitive::Float32 => match as_double_or_nan(value) {
            Some(f) => {
                w.write_f32(f.narrow());
                Ok(())
            },
            None => Err(mismatched(path, "float32", value)),
        },
        Primitive::Float64 => match as_double_or_nan(value) {
            Some(f) => {
                w.write_f64(f);
                Ok(())
            },
            None => Err(mismatched(path, "float64", value)),
        },
        _ => encode_integer(p, value, w, path),
    }
}

/// Non-finite floats become JSON `null` (rosbridge behavior).
fn float_to_json(f: Float64) -> (r: JsonValue)
    ensures
        r@ == double_json(f),
{
    if f.is_finite() {
        JsonValue::Number(Number::Float(f))
    } else {
        JsonValue::Null
    }
}

/// Whether `r` reports `step`, with the reader after it as `step` says.
pub open spec fn read_as(
    step: Result<(Wire, nat), CodecFault>,
    before: CdrReader,
    after: CdrReader,
    r: Result<JsonValue, CodecError>,
) -> bool {
    &&& after.wf()
    &&& after.body() == before.body()
    &&& after.order() == before.order()
    &&& match step {
        Ok((w, pos)) => r matches Ok(v) && v@ == show(w) && after.at() == pos,
        Err(e) => r matches Err(x) && x@ == e,
    }
}

fn decode_primitive(p: Primitive, r: &mut CdrReader) -> (v: Result<JsonValue, CodecError>)
    requires
        old(r).wf(),
    ensures
        read_as(
            take_scalar(
                Map::empty(),
                BaseModel::Primitive(p),
                old(r).body(),
                old(r).at(),
                old(r).order(),
                0,
            ),
            *old(r),
            *final(r),
            v,
        ),
{
    match p {
        Primitive::Bool => match r.read_bool() {
            Ok(b) => Ok(JsonValue::Bool(b)),
            Err(e) => Err(CodecError::Cdr(e)),
        },
        Primitive::Byte | Primitive::Uint8 | Primitive::Char => match r.read_u8() {
            Ok(x) => Ok(JsonValue::from_u64(x as u64)),
            Err(e) => Err(CodecError::Cdr(e)),
        },
        Primitive::Int8 => match r.read_i8() {
            Ok(x) => Ok(JsonValue::from_i64(x as i64)),
            Err(e) => Err(CodecError::Cdr(e)),
        },
        Primitive::Int16 => match r.read_i16() {
            Ok(x) => Ok(JsonValue::from_i64(x as i64)),
            Err(e) => Err(CodecError::Cdr(e)),
        },
        Primitive::Uint16 => match r.read_u16() {
            Ok(x) => Ok(JsonValue::from_u64(x as u64)),
            Err(e) => Err(CodecError::Cdr(e)),
        },
        Primitive::Int32 => match r.read_i32() {
            Ok(x) => Ok(JsonValue::from_i64(x as i64)),
            Err(e) => Err(CodecError::Cdr(e)),
        },
        Primitive::Uint32 => match r.read_u32() {
            Ok(x) => Ok(JsonValue::from_u64(x as u64)),
            Err(e) => Err(CodecError::Cdr(e)),
        },
        Primitive::Int64 => match r.read_i64() {
            Ok(x) => Ok(JsonValue::from_i64(x)),
            Err(e) => Err(CodecError::Cdr(e)),
        },
        Primitive::Uint64 => match r.read_u64() {
            Ok(x) => Ok(JsonValue::from_u64(x)),
            Err(e) => Err(CodecError::Cdr(e)),
        },
        Primitive::Float32 => match r.read_f32() {
            Ok(x) => Ok(float_to_json(x.widen())),
            Err(e) => Err(CodecError::Cdr(e)),
        },
        Primitive::Float64 => match r.read_f64() {
            Ok(x) => Ok(float_to_json(x)),
            Err(e) => Err(CodecError::Cdr(e)),
        },
    }
}

/// Context shared across a single encode/decode operation.
pub struct Codec<'a> {
    pub registry: &'a Registry,
    /// Current ROS time, used for `"now"` substitution and header auto-fill.
    pub now: Option<RosTime>,
}

proof fn lemma_put_push(b: Seq<u8>, e: Endian, v: Seq<Wire>, w: Wire)
    ensures
        put_all(b, e, v.push(w)) == put(put_all(b, e, v), e, w),
{
    assert(v.push(w).drop_last() =~= v);
}

proof fn lemma_put_push_field(
    b: Seq<u8>,
    e: Endian,
    v: Seq<(Seq<char>, Wire)>,
    f: (Seq<char>, Wire),
)
    ensures
        put_fields(b, e, v.push(f)) == put(put_fields(b, e, v), e, f.1),
{
    assert(v.push(f).drop_last() =~= v);
}

impl<'a> Codec<'a> {
    /// What the conversions go by.
    pub open spec fn env(&self) -> Env {
        Env { messages: self.registry@.messages, now: self.now }
    }

    /// A codec without a current time.
    pub fn new(registry: &'a Registry) -> (r: Self)
        ensures
            r.registry == registry,
            r.now is None,
    {
        Codec { registry, now: None }
    }

    /// A codec with a current time.
    pub fn with_now(registry: &'a Registry, now: Option<RosTime>) -> (r: Self)
        ensures
            r.registry == registry,
            r.now == now,
    {
        Codec { registry, now }
    }

    /// The message that a name refers to.
    fn lookup(&self, name: &str) -> (r: Result<&MessageSpec, CodecError>)
        ensures
            match r {
                Ok(m) => message_of(self.env().messages, name@) == Ok::<MessageModel, CodecFault>(
                    m@,
                ),
                Err(e) => message_of(self.env().messages, name@) == Err::<MessageModel, CodecFault>(
                    e@,
                ),
            },
    {
        match self.registry.message(name) {
            Ok(m) => Ok(m),
            Err(e) => Err(CodecError::Registry(e)),
        }
    }

    /// If the type is a Time/Duration and the value is `"now"`, returns the
    /// substituted `{sec,nanosec}` object; an object gets its ROS 1 aliases.
    fn resolve_time_value(&self, name: &str, value: &JsonValue) -> (r: Option<JsonValue>)
        ensures
            match r {
                Some(x) => x@ == timed(self.env(), name@, value@),
                None => value@ == timed(self.env(), name@, value@),
            },
    {
        if !is_time_type(name) {
            return None;
        }
        match value {
            JsonValue::String(s) => if same_text(s.as_str(), "now") {
                Some(stamp(self.now))
            } else {
                None
            },
            JsonValue::Object(o) => {
                let copied = value.copy();
                match copied {
                    JsonValue::Object(d) => {
                        let mut d = d;
                        assert(members(d) == members(*o));
                        if member(&d, "sec").is_none() {
                            if let Some(v) = member(o, "secs") {
                                set_member(&mut d, "sec", v.copy());
                            }
                        }
                        assert(members(d) == with_alias(members(*o), "sec"@, "secs"@));
                        proof {
                            reveal_strlit("sec");
                            reveal_strlit("nsecs");
                            assert("sec"@.len() != "nsecs"@.len());
                        }
                        if member(&d, "nanosec").is_none() {
                            if let Some(v) = member(o, "nsecs") {
                                set_member(&mut d, "nanosec", v.copy());
                            }
                        }
                        Some(JsonValue::Object(d))
                    },
                    _ => {
                        assert(false);
                        None
                    },
                }
            },
            _ => None,
        }
    }

    fn encode_scalar(
        &self,
        base: &BaseType,
        value: &JsonValue,
        w: &mut CdrWriter,
        path: &str,
        Ghost(depth): Ghost<nat>,
    ) -> (r: Result<(), CodecError>)
        requires
            old(w).wf(),
            resolve_scalar(self.env(), base@, value@, path@, depth) != Err::<Wire, CodecFault>(
                CodecFault::Unsettled,
            ),
        ensures
            written(
                resolve_scalar(self.env(), base@, value@, path@, depth),
                *old(w),
                *final(w),
                r,
            ),
        decreases depth, 0nat,
    {
        match base {
            BaseType::Primitive(p) => encode_primitive(*p, value, w, path),
            BaseType::String(_) => match value {
                JsonValue::String(s) => {
                    w.write_string(s.as_str());
                    Ok(())
                },
                _ => Err(mismatched(path, "string", value)),
            },
            BaseType::WString(_) => match value {
                JsonValue::String(s) => {
                    write_wide(w, s.as_str());
                    Ok(())
                },
                _ => Err(mismatched(path, "string", value)),
            },
            BaseType::Message(name) => {
                let nested = match self.lookup(name.as_str()) {
                    Ok(m) => m,
                    Err(e) => {
                        return Err(e);
                    },
                };
                let resolved = self.resolve_time_value(name.as_str(), value);
                let v: &JsonValue = match &resolved {
                    Some(x) => x,
                    None => value,
                };
                self.encode_message(nested, v, w, path, Ghost((depth - 1) as nat))
            },
        }
    }

    fn encode_items(
        &self,
        base: &BaseType,
        a: &Vec<JsonValue>,
        w: &mut CdrWriter,
        path: &str,
        Ghost(depth): Ghost<nat>,
    ) -> (r: Result<(), CodecError>)
        requires
            old(w).wf(),
            resolve_items(self.env(), base@, views(a@), 0, Seq::empty(), path@, depth) != Err::<
                Seq<Wire>,
                CodecFault,
            >(CodecFault::Unsettled),
        ensures
            final(w).wf(),
            final(w).order() == old(w).order(),
            match resolve_items(self.env(), base@, views(a@), 0, Seq::empty(), path@, depth) {
                Ok(v) => r is Ok && final(w).bytes() == put_all(old(w).bytes(), old(w).order(), v),
                Err(e) => r matches Err(x) && x@ == e,
            },
        decreases depth, 1nat,
    {
        let ghost all = views(a@);
        let ghost whole = resolve_items(self.env(), base@, all, 0, Seq::empty(), path@, depth);
        let ghost mut done: Seq<Wire> = Seq::empty();
        for i in 0..a.len()
            invariant
                all == views(a@),
                w.wf(),
                w.order() == old(w).order(),
                whole != Err::<Seq<Wire>, CodecFault>(CodecFault::Unsettled),
                whole == resolve_items(self.env(), base@, all, 0, Seq::empty(), path@, depth),
                whole == resolve_items(self.env(), base@, all, i as nat, done, path@, depth),
                w.bytes() == put_all(old(w).bytes(), old(w).order(), done),
        {
            let ipath = path_of_item(path, i);
            assert(all[i as int] == a@[i as int]@);
            let ghost step = resolve_scalar(self.env(), base@, all[i as int], ipath@, depth);
            match self.encode_scalar(base, &a[i], w, ipath.as_str(), Ghost(depth)) {
                Ok(()) => {},
                Err(e) => {
                    return Err(e);
                },
            }
            proof {
                lemma_put_push(old(w).bytes(), old(w).order(), done, step->Ok_0);
                done = done.push(step->Ok_0);
            }
        }
        Ok(())
    }

    fn encode_field(
        &self,
        ty: &FieldType,
        value: &JsonValue,
        w: &mut CdrWriter,
        path: &str,
        Ghost(depth): Ghost<nat>,
    ) -> (r: Result<(), CodecError>)
        requires
            old(w).wf(),
            resolve_field(self.env(), ty@, value@, path@, depth) != Err::<Wire, CodecFault>(
                CodecFault::Unsettled,
            ),
        ensures
            written(
                resolve_field(self.env(), ty@, value@, path@, depth),
                *old(w),
                *final(w),
                r,
            ),
        decreases depth, 2nat,
    {
        match ty.multiplicity {
            Multiplicity::Scalar => self.encode_scalar(&ty.base, value, w, path, Ghost(depth)),
            Multiplicity::FixedArray(n) => {
                // Byte blob fixed arrays may arrive base64-encoded.
                if ty.is_byte_blob() {
                    let bytes = match decode_byte_blob(value, path) {
                        Ok(x) => x,
                        Err(e) => {
                            return Err(e);
                        },
                    };
                    if bytes.len() != n {
                        return Err(
                            CodecError::ArrayLen {
                                path: path.to_owned(),
                                expected: n,
                                got: bytes.len(),
                            },
                        );
                    }
                    w.write_bytes(bytes.as_slice());
                    return Ok(());
                }
                match value {
                    JsonValue::Array(a) => {
                        proof {
                            lemma_array(*a);
                        }
                        if a.len() != n {
                            return Err(
                                CodecError::ArrayLen {
                                    path: path.to_owned(),
                                    expected: n,
                                    got: a.len(),
                                },
                            );
                        }
                        let ghost items = resolve_items(
                            self.env(),
                            ty@.base,
                            views(a@),
                            0,
                            Seq::empty(),
                            path@,
                            depth,
                        );
                        let r = self.encode_items(&ty.base, a, w, path, Ghost(depth));
                        assert(items is Ok ==> w.bytes() == put(
                            old(w).bytes(),
                            old(w).order(),
                            Wire::Array(items->Ok_0),
                        ));
                        r
                    },
                    _ => Err(mismatched(path, "array", value)),
                }
            },
            Multiplicity::BoundedSequence(_) | Multiplicity::UnboundedSequence => {
                if ty.is_byte_blob() {
                    let bytes = match decode_byte_blob(value, path) {
                        Ok(x) => x,
                        Err(e) => {
                            return Err(e);
                        },
                    };
                    w.write_u32(length_prefix(bytes.len()));
                    w.write_bytes(bytes.as_slice());
                    return Ok(());
                }
                match value {
                    JsonValue::Array(a) => {
                        proof {
                            lemma_array(*a);
                        }
                        let ghost items = resolve_items(
                            self.env(),
                            ty@.base,
                            views(a@),
                            0,
                            Seq::empty(),
                            path@,
                            depth,
                        );
                        w.write_u32(length_prefix(a.len()));
                        let r = self.encode_items(&ty.base, a, w, path, Ghost(depth));
                        proof {
                            if items is Ok {
                                crate::wire::resolved_items_count(
                                    self.env(),
                                    ty@.base,
                                    views(a@),
                                    0,
                                    Seq::empty(),
                                    path@,
                                    depth,
                                );
                            }
                        }
                        assert(items is Ok ==> w.bytes() == put(
                            old(w).bytes(),
                            old(w).order(),
                            Wire::List(items->Ok_0),
                        ));
                        r
                    },
                    _ => Err(mismatched(path, "array", value)),
                }
            },
        }
    }

    fn encode_default_scalar(
        &self,
        base: &BaseType,
        default: Option<&str>,
        w: &mut CdrWriter,
        path: &str,
        auto_now: bool,
        Ghost(depth): Ghost<nat>,
    ) -> (r: Result<(), CodecError>)
        requires
            old(w).wf(),
            default_scalar(
                self.env(),
                base@,
                literal_of(default),
                path@,
                auto_now,
                depth,
            ) != Err::<Wire, CodecFault>(CodecFault::Unsettled),
        ensures
            written(
                default_scalar(self.env(), base@, literal_of(default), path@, auto_now, depth),
                *old(w),
                *final(w),
                r,
            ),
        decreases depth, 0nat,
    {
        match base {
            BaseType::Primitive(p) => {
                let v = default_primitive_value(*p, default);
                encode_primitive(*p, &v, w, path)
            },
            BaseType::String(_) => {
                w.write_string(
                    match default {
                        Some(d) => d,
                        None => "",
                    },
                );
                Ok(())
            },
            BaseType::WString(_) => {
                write_wide(
                    w,
                    match default {
                        Some(d) => d,
                        None => "",
                    },
                );
                Ok(())
            },
            BaseType::Message(name) => {
                let nested = match self.lookup(name.as_str()) {
                    Ok(m) => m,
                    Err(e) => {
                        return Err(e);
                    },
                };
                let v = if auto_now {
                    stamp(self.now)
                } else {
                    JsonValue::empty_object()
                };
                self.encode_message(nested, &v, w, path, Ghost((depth - 1) as nat))
            },
        }
    }

    fn encode_default_items(
        &self,
        base: &BaseType,
        n: usize,
        w: &mut CdrWriter,
        path: &str,
        Ghost(depth): Ghost<nat>,
    ) -> (r: Result<(), CodecError>)
        requires
            old(w).wf(),
            default_items(self.env(), base@, n as nat, 0, Seq::empty(), path@, depth) != Err::<
                Seq<Wire>,
                CodecFault,
            >(CodecFault::Unsettled),
        ensures
            final(w).wf(),
            final(w).order() == old(w).order(),
            match default_items(self.env(), base@, n as nat, 0, Seq::empty(), path@, depth) {
                Ok(v) => r is Ok && final(w).bytes() == put_all(old(w).bytes(), old(w).order(), v),
                Err(e) => r matches Err(x) && x@ == e,
            },
        decreases depth, 1nat,
    {
        let ghost whole = default_items(
            self.env(),
            base@,
            n as nat,
            0,
            Seq::empty(),
            path@,
            depth,
        );
        let ghost mut done: Seq<Wire> = Seq::empty();
        for i in 0..n
            invariant
                w.wf(),
                w.order() == old(w).order(),
                whole != Err::<Seq<Wire>, CodecFault>(CodecFault::Unsettled),
                whole == default_items(
                    self.env(),
                    base@,
                    n as nat,
                    0,
                    Seq::empty(),
                    path@,
                    depth,
                ),
                whole == default_items(
                    self.env(),
                    base@,
                    n as nat,
                    i as nat,
                    done,
                    path@,
                    depth,
                ),
                w.bytes() == put_all(old(w).bytes(), old(w).order(), done),
        {
            let ipath = path_of_item(path, i);
            let ghost step = default_scalar(self.env(), base@, None, ipath@, false, depth);
            match self.encode_default_scalar(base, None, w, ipath.as_str(), false, Ghost(depth)) {
                Ok(()) => {},
                Err(e) => {
                    return Err(e);
                },
            }
            proof {
                lemma_put_push(old(w).bytes(), old(w).order(), done, step->Ok_0);
                done = done.push(step->Ok_0);
            }
        }
        Ok(())
    }

    fn encode_default(
        &self,
        ty: &FieldType,
        default: Option<&str>,
        w: &mut CdrWriter,
        path: &str,
        auto_now: bool,
        Ghost(depth): Ghost<nat>,
    ) -> (r: Result<(), CodecError>)
        requires
            old(w).wf(),
            default_field(
                self.env(),
                ty@,
                literal_of(default),
                path@,
                auto_now,
                depth,
            ) != Err::<Wire, CodecFault>(CodecFault::Unsettled),
        ensures
            written(
                default_field(self.env(), ty@, literal_of(default), path@, auto_now, depth),
                *old(w),
                *final(w),
                r,
            ),
        decreases depth, 2nat,
    {
        match ty.multiplicity {
            Multiplicity::Scalar => self.encode_default_scalar(
                &ty.base,
                default,
                w,
                path,
                auto_now,
                Ghost(depth),
            ),
            Multiplicity::FixedArray(n) => {
                if ty.is_byte_blob() {
                    let ghost before = w.bytes();
                    for i in 0..n
                        invariant
                            w.wf(),
                            w.order() == old(w).order(),
                            w.bytes() == before + zeros(i as nat),
                    {
                        w.write_u8(0);
                        assert(w.bytes() =~= before + zeros((i + 1) as nat));
                    }
                    return Ok(());
                }
                self.encode_default_items(&ty.base, n, w, path, Ghost(depth))
            },
            Multiplicity::BoundedSequence(_) | Multiplicity::UnboundedSequence => {
                // Empty sequence by default.
                let ghost before = *w;
                w.write_u32(0);
                assert(w.bytes() =~= w.bytes() + Seq::<u8>::empty());
                Ok(())
            },
        }
    }

    fn encode_message(
        &self,
        m: &MessageSpec,
        value: &JsonValue,
        w: &mut CdrWriter,
        path: &str,
        Ghost(depth): Ghost<nat>,
    ) -> (r: Result<(), CodecError>)
        requires
            old(w).wf(),
            resolve_message(self.env(), m@, value@, path@, depth) != Err::<Wire, CodecFault>(
                CodecFault::Unsettled,
            ),
        ensures
            written(
                resolve_message(self.env(), m@, value@, path@, depth),
                *old(w),
                *final(w),
                r,
            ),
        decreases depth, 4nat,
    {
        let is_header = same_text(m.name.as_str(), "std_msgs/msg/Header");
        let ghost whole = resolve_fields(
            self.env(),
            m@,
            value@,
            0,
            Seq::empty(),
            path@,
            depth,
        );
        let ghost mut done: Seq<(Seq<char>, Wire)> = Seq::empty();
        for i in 0..m.fields.len()
            invariant
                w.wf(),
                w.order() == old(w).order(),
                is_header == (m@.name == "std_msgs/msg/Header"@),
                whole != Err::<Seq<(Seq<char>, Wire)>, CodecFault>(CodecFault::Unsettled),
                whole == resolve_fields(
                    self.env(),
                    m@,
                    value@,
                    0,
                    Seq::empty(),
                    path@,
                    depth,
                ),
                whole == resolve_fields(
                    self.env(),
                    m@,
                    value@,
                    i as nat,
                    done,
                    path@,
                    depth,
                ),
                w.bytes() == put_fields(old(w).bytes(), old(w).order(), done),
        {
            let field = &m.fields[i];
            assert(m@.fields[i as int] == field@);
            let ghost step = resolve_member(self.env(), m@, field@, value@, path@, depth);
            match self.encode_member(field, is_header, value, w, path, Ghost(m@), Ghost(depth)) {
                Ok(()) => {},
                Err(e) => {
                    return Err(e);
                },
            }
            proof {
                lemma_put_push_field(
                    old(w).bytes(),
                    old(w).order(),
                    done,
                    (field@.name, step->Ok_0),
                );
                done = done.push((field@.name, step->Ok_0));
            }
        }
        Ok(())
    }

    fn encode_member(
        &self,
        field: &Field,
        is_header: bool,
        value: &JsonValue,
        w: &mut CdrWriter,
        path: &str,
        Ghost(m): Ghost<MessageModel>,
        Ghost(depth): Ghost<nat>,
    ) -> (r: Result<(), CodecError>)
        requires
            old(w).wf(),
            is_header == (m.name == "std_msgs/msg/Header"@),
            resolve_member(self.env(), m, field@, value@, path@, depth) != Err::<Wire, CodecFault>(
                CodecFault::Unsettled,
            ),
        ensures
            written(
                resolve_member(self.env(), m, field@, value@, path@, depth),
                *old(w),
                *final(w),
                r,
            ),
        decreases depth, 3nat,
    {
        let fpath = path_of_member(path, field.name.as_str());
        let given: Option<&JsonValue> = match value {
            JsonValue::Object(d) => member(d, field.name.as_str()),
            _ => None,
        };
        // Header.stamp is filled with the current time if omitted.
        let absent = match given {
            None => true,
            Some(JsonValue::Null) => true,
            _ => false,
        };
        let auto_now = is_header && same_text(field.name.as_str(), "stamp") && absent;
        if let Some(v) = given {
            if !auto_now {
                return self.encode_field(&field.ty, v, w, fpath.as_str(), Ghost(depth));
            }
        }
        let default: Option<&str> = match &field.default {
            Some(d) => Some(d.as_str()),
            None => None,
        };
        self.encode_default(&field.ty, default, w, fpath.as_str(), auto_now, Ghost(depth))
    }

    /// Encodes a JSON object into a CDR buffer for the given message type. The type
    /// must not hold itself without a sequence in between.
    pub fn encode(&self, m: &MessageSpec, value: &JsonValue) -> (r: Result<Vec<u8>, CodecError>)
        requires
            exists|x: Result<Seq<u8>, CodecFault>| #[trigger]
                encodes_to(self.env(), m@, value@, x),
        ensures
            encodes_to(
                self.env(),
                m@,
                value@,
                match r {
                    Ok(b) => Ok(b@),
                    Err(e) => Err(e@),
                },
            ),
    {
        let ghost x = choose|x: Result<Seq<u8>, CodecFault>| #[trigger]
            encodes_to(self.env(), m@, value@, x);
        let ghost depth = choose|depth: nat| #[trigger]
            encoding(self.env(), m@, value@, depth) == x;
        let mut w = CdrWriter::new(Endian::Little);
        let path = "";
        proof {
            reveal_strlit("");
            assert(path@ =~= Seq::empty());
        }
        match self.encode_message(m, value, &mut w, path, Ghost(depth)) {
            Ok(()) => {
                let b = w.into_bytes();
                assert(encoding(self.env(), m@, value@, depth) == Ok::<Seq<u8>, CodecFault>(b@));
                Ok(b)
            },
            Err(e) => {
                assert(encoding(self.env(), m@, value@, depth) == Err::<Seq<u8>, CodecFault>(e@));
                Err(e)
            },
        }
    }
}

impl<'a> Codec<'a> {
    fn decode_scalar(&self, base: &BaseType, r: &mut CdrReader, Ghost(depth): Ghost<nat>) -> (v:
        Result<JsonValue, CodecError>)
        requires
            old(r).wf(),
            take_scalar(
                self.env().messages,
                base@,
                old(r).body(),
                old(r).at(),
                old(r).order(),
                depth,
            ) != Err::<(Wire, nat), CodecFault>(CodecFault::Unsettled),
        ensures
            read_as(
                take_scalar(
                    self.env().messages,
                    base@,
                    old(r).body(),
                    old(r).at(),
                    old(r).order(),
                    depth,
                ),
                *old(r),
                *final(r),
                v,
            ),
        decreases depth, 0nat,
    {
        match base {
            BaseType::Primitive(p) => decode_primitive(*p, r),
            BaseType::String(_) => match r.read_string() {
                Ok(s) => Ok(JsonValue::String(s)),
                Err(e) => Err(CodecError::Cdr(e)),
            },
            BaseType::WString(_) => match read_wide(r) {
                Ok(s) => Ok(JsonValue::String(s)),
                Err(e) => Err(CodecError::Cdr(e)),
            },
            BaseType::Message(name) => {
                let nested = match self.lookup(name.as_str()) {
                    Ok(m) => m,
                    Err(e) => {
                        return Err(e);
                    },
                };
                self.decode_message(nested, r, Ghost((depth - 1) as nat))
            },
        }
    }

    fn decode_items(
        &self,
        base: &BaseType,
        n: usize,
        r: &mut CdrReader,
        Ghost(depth): Ghost<nat>,
    ) -> (v: Result<Vec<JsonValue>, CodecError>)
        requires
            old(r).wf(),
            take_items(
                self.env().messages,
                base@,
                n as nat,
                Seq::empty(),
                old(r).body(),
                old(r).at(),
                old(r).order(),
                depth,
            ) != Err::<(Seq<Wire>, nat), CodecFault>(CodecFault::Unsettled),
        ensures
            final(r).wf(),
            final(r).body() == old(r).body(),
            final(r).order() == old(r).order(),
            match take_items(
                self.env().messages,
                base@,
                n as nat,
                Seq::empty(),
                old(r).body(),
                old(r).at(),
                old(r).order(),
                depth,
            ) {
                Ok((w, pos)) => v matches Ok(x) && views(x@) == show_all(w) && final(r).at()
                    == pos,
                Err(e) => v matches Err(x) && x@ == e,
            },
        decreases depth, 1nat,
    {
        let ghost whole = take_items(
            self.env().messages,
            base@,
            n as nat,
            Seq::empty(),
            r.body(),
            r.at(),
            r.order(),
            depth,
        );
        let ghost mut done: Seq<Wire> = Seq::empty();
        let mut out: Vec<JsonValue> = Vec::new();
        assert(views(out@) =~= Seq::empty());
        for i in 0..n
            invariant
                r.wf(),
                r.body() == old(r).body(),
                r.order() == old(r).order(),
                whole != Err::<(Seq<Wire>, nat), CodecFault>(CodecFault::Unsettled),
                whole == take_items(
                    self.env().messages,
                    base@,
                    n as nat,
                    Seq::empty(),
                    old(r).body(),
                    old(r).at(),
                    old(r).order(),
                    depth,
                ),
                whole == take_items(
                    self.env().messages,
                    base@,
                    (n - i) as nat,
                    done,
                    r.body(),
                    r.at(),
                    r.order(),
                    depth,
                ),
                views(out@) == show_all(done),
        {
            let ghost step = take_scalar(
                self.env().messages,
                base@,
                r.body(),
                r.at(),
                r.order(),
                depth,
            );
            let ghost before = out@;
            match self.decode_scalar(base, r, Ghost(depth)) {
                Ok(v) => {
                    out.push(v);
                    proof {
                        assert(views(out@) =~= views(before).push(v@));
                        let w = (step->Ok_0).0;
                        assert(done.push(w).drop_last() =~= done);
                        done = done.push(w);
                    }
                },
                Err(e) => {
                    return Err(e);
                },
            }
        }
        Ok(out)
    }

    fn decode_field(&self, ty: &FieldType, r: &mut CdrReader, Ghost(depth): Ghost<nat>) -> (v:
        Result<JsonValue, CodecError>)
        requires
            old(r).wf(),
            take_field(
                self.env().messages,
                ty@,
                old(r).body(),
                old(r).at(),
                old(r).order(),
                depth,
            ) != Err::<(Wire, nat), CodecFault>(CodecFault::Unsettled),
        ensures
            read_as(
                take_field(
                    self.env().messages,
                    ty@,
                    old(r).body(),
                    old(r).at(),
                    old(r).order(),
                    depth,
                ),
                *old(r),
                *final(r),
                v,
            ),
        decreases depth, 2nat,
    {
        match ty.multiplicity {
            Multiplicity::Scalar => self.decode_scalar(&ty.base, r, Ghost(depth)),
            Multiplicity::FixedArray(n) => {
                if ty.is_byte_blob() {
                    return match r.read_raw(n) {
                        Ok(bytes) => Ok(JsonValue::String(base64_encode(bytes))),
                        Err(e) => Err(CodecError::Cdr(e)),
                    };
                }
                match self.decode_items(&ty.base, n, r, Ghost(depth)) {
                    Ok(a) => {
                        proof {
                            lemma_array(a);
                        }
                        Ok(JsonValue::Array(a))
                    },
                    Err(e) => Err(e),
                }
            },
            Multiplicity::BoundedSequence(_) | Multiplicity::UnboundedSequence => {
                let len = match r.read_seq_len() {
                    Ok(n) => n,
                    Err(e) => {
                        return Err(CodecError::Cdr(e));
                    },
                };
                if ty.is_byte_blob() {
                    return match r.read_raw(len) {
                        Ok(bytes) => Ok(JsonValue::String(base64_encode(bytes))),
                        Err(e) => Err(CodecError::Cdr(e)),
                    };
                }
                match self.decode_items(&ty.base, len, r, Ghost(depth)) {
                    Ok(a) => {
                        proof {
                            lemma_array(a);
                        }
                        Ok(JsonValue::Array(a))
                    },
                    Err(e) => Err(e),
                }
            },
        }
    }

    fn decode_message(&self, m: &MessageSpec, r: &mut CdrReader, Ghost(depth): Ghost<nat>) -> (v:
        Result<JsonValue, CodecError>)
        requires
            old(r).wf(),
            take_message(
                self.env().messages,
                m@,
                old(r).body(),
                old(r).at(),
                old(r).order(),
                depth,
            ) != Err::<(Wire, nat), CodecFault>(CodecFault::Unsettled),
        ensures
            read_as(
                take_message(
                    self.env().messages,
                    m@,
                    old(r).body(),
                    old(r).at(),
                    old(r).order(),
                    depth,
                ),
                *old(r),
                *final(r),
                v,
            ),
        decreases depth, 3nat,
    {
        let ghost whole = take_fields(
            self.env().messages,
            m@,
            0,
            Seq::empty(),
            r.body(),
            r.at(),
            r.order(),
            depth,
        );
        let ghost mut done: Seq<(Seq<char>, Wire)> = Seq::empty();
        let mut obj: Dict<JsonValue> = Dict::new();
        proof {
            crate::json::empty_has_no_members(obj);
        }
        for i in 0..m.fields.len()
            invariant
                r.wf(),
                r.body() == old(r).body(),
                r.order() == old(r).order(),
                whole != Err::<(Seq<(Seq<char>, Wire)>, nat), CodecFault>(CodecFault::Unsettled),
                whole == take_fields(
                    self.env().messages,
                    m@,
                    0,
                    Seq::empty(),
                    old(r).body(),
                    old(r).at(),
                    old(r).order(),
                    depth,
                ),
                whole == take_fields(
                    self.env().messages,
                    m@,
                    i as nat,
                    done,
                    r.body(),
                    r.at(),
                    r.order(),
                    depth,
                ),
                members(obj) == show_fields(done),
        {
            let field = &m.fields[i];
            assert(m@.fields[i as int] == field@);
            let ghost step = take_field(
                self.env().messages,
                field@.ty,
                r.body(),
                r.at(),
                r.order(),
                depth,
            );
            match self.decode_field(&field.ty, r, Ghost(depth)) {
                Ok(v) => {
                    set_member(&mut obj, field.name.as_str(), v);
                    proof {
                        let w = (step->Ok_0).0;
                        assert(done.push((field@.name, w)).drop_last() =~= done);
                        done = done.push((field@.name, w));
                    }
                },
                Err(e) => {
                    return Err(e);
                },
            }
        }
        Ok(JsonValue::Object(obj))
    }

    /// Decodes a CDR buffer into a JSON object for the given message type. The type
    /// must not hold itself without a sequence in between.
    pub fn decode(&self, m: &MessageSpec, bytes: &[u8]) -> (r: Result<JsonValue, CodecError>)
        requires
            bytes@.len() <= isize::MAX,
            exists|x: Result<Json, CodecFault>| #[trigger]
                decodes_to(self.env().messages, m@, bytes@, x),
        ensures
            decodes_to(
                self.env().messages,
                m@,
                bytes@,
                match r {
                    Ok(v) => Ok(v@),
                    Err(e) => Err(e@),
                },
            ),
    {
        let ghost x = choose|x: Result<Json, CodecFault>| #[trigger]
            decodes_to(self.env().messages, m@, bytes@, x);
        let ghost depth = choose|depth: nat| #[trigger]
            decoding(self.env().messages, m@, bytes@, depth) == x;
        let mut r = match CdrReader::new(bytes) {
            Ok(r) => r,
            Err(e) => {
                assert(decoding(self.env().messages, m@, bytes@, depth) == Err::<Json, CodecFault>(
                    CodecFault::Cdr(e),
                ));
                return Err(CodecError::Cdr(e));
            },
        };
        let out = self.decode_message(m, &mut r, Ghost(depth));
        assert(decoding(self.env().messages, m@, bytes@, depth) == (match out {
            Ok(v) => Ok::<Json, CodecFault>(v@),
            Err(e) => Err::<Json, CodecFault>(e@),
        }));
        out
    }
}

impl<'a> Codec<'a> {
    /// Encodes a JSON object, where no message that the type names, directly or through
    /// others, nests without end.
    pub fn try_encode(&self, m: &MessageSpec, value: &JsonValue) -> (r: Option<
        Result<Vec<u8>, CodecError>,
    >)
        ensures
            match r {
                Some(out) => grounded(self.env().messages, m@) && encodes_to(
                    self.env(),
                    m@,
                    value@,
                    match out {
                        Ok(b) => Ok(b@),
                        Err(e) => Err(e@),
                    },
                ),
                None => !grounded(self.env().messages, m@),
            },
    {
        if self.registry.is_grounded(m) {
            proof {
                grounded_encoding_settles(self.env(), m@, *value);
            }
            Some(self.encode(m, value))
        } else {
            None
        }
    }

    /// Decodes a CDR buffer, where no message that the type names, directly or through
    /// others, nests without end.
    pub fn try_decode(&self, m: &MessageSpec, bytes: &[u8]) -> (r: Option<
        Result<JsonValue, CodecError>,
    >)
        requires
            bytes@.len() <= isize::MAX,
        ensures
            match r {
                Some(out) => grounded(self.env().messages, m@) && decodes_to(
                    self.env().messages,
                    m@,
                    bytes@,
                    match out {
                        Ok(v) => Ok(v@),
                        Err(e) => Err(e@),
                    },
                ),
                None => !grounded(self.env().messages, m@),
            },
    {
        if self.registry.is_grounded(m) {
            proof {
                grounded_decoding_settles(self.env().messages, m@, bytes@);
            }
            Some(self.decode(m, bytes))
        } else {
            None
        }
    }
}

/// The literal of a default as mathematics.
pub open spec fn literal_of(default: Option<&str>) -> Option<Seq<char>> {
    match default {
        Some(d) => Some(d@),
        None => None,
    }
}

/// `len`, modulo `2^32`.
fn length_prefix(len: usize) -> (r: u32)
    ensures
        r == len as nat % 0x1_0000_0000,
{
    ((len as u64) % 0x1_0000_0000) as u32
}

} // verus!
