//! Laws of message conversion for nested messages, arrays and byte blobs, for the other
//! forms that a value may be written in, and for what is left out.
use vstd::prelude::*;
use vstd::arithmetic::power2::{lemma2_to64, pow2};
use crate::cdr::{byte_range, header, lemma_byte_ranges, twos_complement, zeros, Endian};
use crate::datatype::{BaseModel, Multiplicity, Primitive, TypeModel};
use crate::encoding::{base64_bytes, base64_text, double_literal};
use crate::float::{Float32, Float64};
use crate::float_laws::{
    double_units, gap, is_number, narrowing_is_to_the_nearest, single_units, widening_is_exact,
};
use crate::interface::{FieldModel, MessageModel};
use crate::json::{integer_number, Json, Number};
use crate::plain_laws::{held_as_written, lemma_scalar_comes_back};
use crate::text::{decimal, decimal_reads_back, digit, digits_value};
use crate::wire::{
    byte_of, bytes_of, decodes_to, default_items, default_scalar, encodes_to, item_path,
    machine_name, member_of, member_path, message_of, mismatch, put, range_of, resolve_field,
    resolve_fields, resolve_items, resolve_member, resolve_message, resolve_prim, resolve_scalar, show, show_all, show_fields, time_type, timed,
    CodecFault, Env, Wire,
};
use crate::wire_laws::{
    decoding_inverts_encoding, decoding_is_unique, encoding_is_unique, lengths_fit,
};

verus! {

/// Whether a text is the base64 text of bytes, in the form in which they are shown.
pub open spec fn shown_bytes(v: Json, x: Seq<u8>) -> bool {
    v matches Json::String(s) && base64_bytes(s) == Some(x) && base64_text(x) == s
}

/// Whether a value is written as one of a base type is shown.
pub open spec fn fits_base(
    messages: Map<Seq<char>, MessageModel>,
    base: BaseModel,
    v: Json,
    depth: nat,
) -> bool
    decreases depth, 0nat,
{
    match base {
        BaseModel::Message(name) => {
            &&& depth > 0
            &&& message_of(messages, name) matches Ok(m)
            &&& v matches Json::Object(o)
            &&& time_type(name) ==> o.dom().contains("sec"@) && o.dom().contains("nanosec"@)
            &&& fits_message(messages, m, o, (depth - 1) as nat)
        },
        _ => held_as_written(base, v),
    }
}

/// Whether a value is written as one of a field's type is shown: an array of such values,
/// or for a row of bytes its base64 text.
pub open spec fn fits_type(
    messages: Map<Seq<char>, MessageModel>,
    ty: TypeModel,
    v: Json,
    depth: nat,
) -> bool
    decreases depth, 1nat,
{
    match ty.multiplicity {
        Multiplicity::Scalar => fits_base(messages, ty.base, v, depth),
        Multiplicity::FixedArray(n) => if ty.blob() {
            exists|x: Seq<u8>| x.len() == n && #[trigger] shown_bytes(v, x)
        } else {
            v matches Json::Array(a) && a.len() == n && forall|i: int|
                0 <= i < a.len() ==> fits_base(messages, ty.base, #[trigger] a[i], depth)
        },
        _ => if ty.blob() {
            exists|x: Seq<u8>| #[trigger] shown_bytes(v, x)
        } else {
            v matches Json::Array(a) && forall|i: int|
                0 <= i < a.len() ==> fits_base(messages, ty.base, #[trigger] a[i], depth)
        },
    }
}

/// Whether an object has such a value for every field of a message, and nothing else.
pub open spec fn fits_message(
    messages: Map<Seq<char>, MessageModel>,
    m: MessageModel,
    o: Map<Seq<char>, Json>,
    depth: nat,
) -> bool
    decreases depth, 2nat,
{
    &&& forall|i: int|
        0 <= i < m.fields.len() ==> {
            let f = #[trigger] m.fields[i];
            o.dom().contains(f.name) && fits_type(messages, f.ty, o[f.name], depth)
        }
    &&& forall|k: Seq<char>| #[trigger]
        o.dom().contains(k) ==> exists|i: int|
            0 <= i < m.fields.len() && (#[trigger] m.fields[i]).name == k
}

proof fn lemma_base_fits(env: Env, base: BaseModel, v: Json, path: Seq<char>, depth: nat)
    requires
        fits_base(env.messages, base, v, depth),
    ensures
        resolve_scalar(env, base, v, path, depth) matches Ok(w) && show(w) == v,
        v != Json::Null,
    decreases depth, 0nat, 0nat,
{
    match base {
        BaseModel::Message(name) => {
            let m = message_of(env.messages, name)->Ok_0;
            assert(timed(env, name, v) == v);
            lemma_message_fits(env, m, v->Object_0, path, (depth - 1) as nat);
        },
        _ => {
            lemma_scalar_comes_back(env, base, v, path, depth);
        },
    }
}

proof fn lemma_items_fit(
    env: Env,
    base: BaseModel,
    a: Seq<Json>,
    i: nat,
    done: Seq<Wire>,
    path: Seq<char>,
    depth: nat,
)
    requires
        i <= a.len(),
        show_all(done) == a.take(i as int),
        forall|j: int| 0 <= j < a.len() ==> fits_base(env.messages, base, #[trigger] a[j], depth),
    ensures
        resolve_items(env, base, a, i, done, path, depth) matches Ok(w) && show_all(w) == a,
    decreases depth, 1nat, a.len() - i,
{
    if i < a.len() {
        lemma_base_fits(env, base, a[i as int], item_path(path, i), depth);
        let w = resolve_scalar(env, base, a[i as int], item_path(path, i), depth)->Ok_0;
        let next = done.push(w);
        assert(next.drop_last() =~= done);
        assert(show_all(next) == show_all(done).push(show(w)));
        assert(a.take(i as int + 1) =~= a.take(i as int).push(a[i as int]));
        lemma_items_fit(env, base, a, i + 1, next, path, depth);
    } else {
        assert(a.take(i as int) =~= a);
    }
}

proof fn lemma_type_fits(env: Env, ty: TypeModel, v: Json, path: Seq<char>, depth: nat)
    requires
        fits_type(env.messages, ty, v, depth),
    ensures
        resolve_field(env, ty, v, path, depth) matches Ok(w) && show(w) == v,
        v != Json::Null,
    decreases depth, 2nat, 0nat,
{
    if ty.multiplicity == Multiplicity::Scalar {
        lemma_base_fits(env, ty.base, v, path, depth);
    } else if !ty.blob() {
        let a = v->Array_0;
        assert(show_all(Seq::empty()) =~= a.take(0));
        lemma_items_fit(env, ty.base, a, 0, Seq::empty(), path, depth);
    }
}

proof fn lemma_fields_fit(
    env: Env,
    m: MessageModel,
    o: Map<Seq<char>, Json>,
    i: nat,
    done: Seq<(Seq<char>, Wire)>,
    path: Seq<char>,
    depth: nat,
)
    requires
        i <= m.fields.len(),
        fits_message(env.messages, m, o, depth),
        show_fields(done).submap_of(o),
        forall|j: int|
            0 <= j < i ==> show_fields(done).dom().contains((#[trigger] m.fields[j]).name),
    ensures
        resolve_fields(env, m, Json::Object(o), i, done, path, depth) matches Ok(w) && show_fields(
            w,
        ) == o,
    decreases depth, 4nat, m.fields.len() - i,
{
    if i < m.fields.len() {
        let f = m.fields[i as int];
        let v = Json::Object(o);
        lemma_type_fits(env, f.ty, o[f.name], member_path(path, f.name), depth);
        let w = resolve_member(env, m, f, v, path, depth)->Ok_0;
        let next = done.push((f.name, w));
        assert(next.drop_last() =~= done);
        assert(show_fields(next) == show_fields(done).insert(f.name, o[f.name]));
        lemma_fields_fit(env, m, o, i + 1, next, path, depth);
    } else {
        assert forall|k: Seq<char>| #[trigger]
            o.dom().contains(k) implies show_fields(done).dom().contains(k) by {
            let j = choose|j: int| 0 <= j < m.fields.len() && (#[trigger] m.fields[j]).name == k;
        }
        assert(show_fields(done) =~= o);
    }
}

proof fn lemma_message_fits(
    env: Env,
    m: MessageModel,
    o: Map<Seq<char>, Json>,
    path: Seq<char>,
    depth: nat,
)
    requires
        fits_message(env.messages, m, o, depth),
    ensures
        resolve_message(env, m, Json::Object(o), path, depth) matches Ok(w) && show(w)
            == Json::Object(o),
    decreases depth, 5nat, 0nat,
{
    let none = Seq::<(Seq<char>, Wire)>::empty();
    assert(show_fields(none) =~= Map::empty());
    lemma_fields_fit(env, m, o, 0, none, path, depth);
}

/// A message of any shape that is written as it is shown, with nested messages, arrays,
/// lists and rows of bytes, is encoded, and decoding gives back the very object that was
/// encoded. The lengths in it must fit their prefixes, and no list may have more elements
/// than the bytes that follow its length.
pub proof fn message_comes_back(
    env: Env,
    m: MessageModel,
    o: Map<Seq<char>, Json>,
    depth: nat,
    r: Result<Seq<u8>, CodecFault>,
)
    requires
        fits_message(env.messages, m, o, depth),
        resolve_message(env, m, Json::Object(o), Seq::empty(), depth) matches Ok(w) ==> lengths_fit(
            w,
            header(Endian::Little),
            Endian::Little,
            put(header(Endian::Little), Endian::Little, w).len(),
        ),
    ensures
        exists|b: Seq<u8>| #[trigger] encodes_to(env, m, Json::Object(o), Ok(b)),
        encodes_to(env, m, Json::Object(o), r) ==> (r matches Ok(b) && decodes_to(
            env.messages,
            m,
            b,
            Ok(Json::Object(o)),
        )),
{
    let v = Json::Object(o);
    lemma_message_fits(env, m, o, Seq::empty(), depth);
    let w = resolve_message(env, m, v, Seq::empty(), depth)->Ok_0;
    let b = put(header(Endian::Little), Endian::Little, w);
    decoding_inverts_encoding(env, m, v, w, depth);
    assert(encodes_to(env, m, v, Ok(b)));
    if encodes_to(env, m, v, r) {
        encoding_is_unique(env, m, v, r, Ok(b));
    }
}

/// Two such objects that differ are encoded to different bytes.
pub proof fn different_messages_differ_in_bytes(
    env: Env,
    m: MessageModel,
    a: Map<Seq<char>, Json>,
    b: Map<Seq<char>, Json>,
    depth: nat,
    bytes: Seq<u8>,
)
    requires
        fits_message(env.messages, m, a, depth),
        fits_message(env.messages, m, b, depth),
        forall|o: Map<Seq<char>, Json>|
            (#[trigger] resolve_message(env, m, Json::Object(o), Seq::empty(), depth) matches Ok(w))
                && (o == a || o == b) ==> lengths_fit(
                resolve_message(env, m, Json::Object(o), Seq::empty(), depth)->Ok_0,
                header(Endian::Little),
                Endian::Little,
                put(
                    header(Endian::Little),
                    Endian::Little,
                    resolve_message(env, m, Json::Object(o), Seq::empty(), depth)->Ok_0,
                ).len(),
            ),
        encodes_to(env, m, Json::Object(a), Ok(bytes)),
        encodes_to(env, m, Json::Object(b), Ok(bytes)),
    ensures
        a == b,
{
    message_comes_back(env, m, a, depth, Ok(bytes));
    message_comes_back(env, m, b, depth, Ok(bytes));
    decoding_is_unique(env.messages, m, bytes, Ok(Json::Object(a)), Ok(Json::Object(b)));
}

/// A number in a field of single precision is written as the four bytes of the single that
/// is nearest to it, and in one of double precision as the eight bytes of its double.
pub proof fn number_is_written_as_the_nearest(
    env: Env,
    n: Number,
    g: Float32,
    path: Seq<char>,
    depth: nat,
)
    requires
        n.double().finite(),
        is_number(g),
    ensures
        resolve_scalar(
            env,
            BaseModel::Primitive(Primitive::Float32),
            Json::Number(n),
            path,
            depth,
        ) matches Ok(Wire::Prim(Primitive::Float32, u)) && u < 0x1_0000_0000 && {
            let f = Float32 { bits: u as u32 };
            let x = double_units(n.double());
            &&& f.negative() == n.double().negative()
            &&& is_number(f)
            &&& gap(x, single_units(f)) <= gap(x, single_units(g)) || (f.magnitude() == 0x7f80_0000
                && x >= single_units(f))
            &&& gap(x, single_units(f)) == gap(x, single_units(g)) && single_units(g)
                != single_units(f) ==> u % 2 == 0
        },
        resolve_scalar(
            env,
            BaseModel::Primitive(Primitive::Float64),
            Json::Number(n),
            path,
            depth,
        ) == Ok::<Wire, CodecFault>(Wire::Prim(Primitive::Float64, n.double().bits as nat)),
{
    narrowing_is_to_the_nearest(n.double(), g);
}

/// Whether a primitive is an integer type, with this number of bytes and this sign.
pub open spec fn integer_type(p: Primitive, bytes: nat, signed: bool) -> bool {
    match p {
        Primitive::Byte | Primitive::Char | Primitive::Uint8 => bytes == 1 && !signed,
        Primitive::Int8 => bytes == 1 && signed,
        Primitive::Uint16 => bytes == 2 && !signed,
        Primitive::Int16 => bytes == 2 && signed,
        Primitive::Uint32 => bytes == 4 && !signed,
        Primitive::Int32 => bytes == 4 && signed,
        Primitive::Uint64 => bytes == 8 && !signed,
        Primitive::Int64 => bytes == 8 && signed,
        _ => false,
    }
}

/// Whether an integer can be held in a number of bytes.
pub open spec fn in_range(x: int, bytes: nat, signed: bool) -> bool {
    if signed {
        -(byte_range(bytes) as int) <= 2 * x < byte_range(bytes)
    } else {
        0 <= x < byte_range(bytes)
    }
}

/// An integer is written exactly where it can be held in the bytes of the field's type,
/// and then as its two's complement; any other is refused, and so is what is no integer.
/// A double that is an integer counts as that integer.
pub proof fn integers_are_written_in_range(
    p: Primitive,
    bytes: nat,
    signed: bool,
    x: int,
    f: Float64,
    v: Json,
    path: Seq<char>,
)
    requires
        integer_type(p, bytes, signed),
        i64::MIN <= x <= u64::MAX,
    ensures
        in_range(x, bytes, signed) ==> (resolve_prim(p, Json::Number(integer_number(x)), path)
            matches Ok(u) && u < byte_range(bytes) && (u - x) % byte_range(bytes) as int == 0),
        !in_range(x, bytes, signed) ==> (resolve_prim(p, Json::Number(integer_number(x)), path)
            matches Err(CodecFault::OutOfRange { path: at, .. }) && at == path),
        f.integer() == Some(x) ==> resolve_prim(p, Json::Number(Number::Float(f)), path)
            == resolve_prim(p, Json::Number(integer_number(x)), path),
        f.integer() is None ==> resolve_prim(p, Json::Number(Number::Float(f)), path) is Err,
        !(v is Number) ==> resolve_prim(p, v, path) is Err,
{
    lemma_byte_ranges();
    if in_range(x, bytes, signed) {
        let u = twos_complement(x, bytes);
        assert((u - x) % byte_range(bytes) as int == 0) by {
            if x < 0 {
                assert(u - x == byte_range(bytes));
            } else {
                assert(u - x == 0);
            }
        }
    }
}

/// A boolean may be written as a number: zero is false, and any other integer is true.
pub proof fn booleans_may_be_numbers(x: int, path: Seq<char>)
    requires
        i64::MIN <= x <= i64::MAX,
    ensures
        resolve_prim(Primitive::Bool, Json::Number(integer_number(x)), path) == resolve_prim(
            Primitive::Bool,
            Json::Bool(x != 0),
            path,
        ),
        resolve_prim(Primitive::Bool, Json::Bool(true), path) == Ok::<nat, CodecFault>(1),
        resolve_prim(Primitive::Bool, Json::Bool(false), path) == Ok::<nat, CodecFault>(0),
{
}

/// A null in a field of either precision is written as a number that is none, and read back
/// as null.
pub proof fn null_is_no_number(p: Primitive, path: Seq<char>)
    requires
        p is Float32 || p is Float64,
    ensures
        resolve_prim(p, Json::Null, path) matches Ok(u) && show(Wire::Prim(p, u)) == Json::Null,
{
    let nan = Float64 { bits: 0x7ff8_0000_0000_0000 };
    assert(nan.fraction() == 0x8_0000_0000_0000);
    assert(nan.narrowed().bits == 0x7fc0_0000) by {
        assert(nan.fraction() / 0x2000_0000 == 0x40_0000);
    }
    let g = Float32 { bits: 0x7fc0_0000 };
    assert(g.fraction() == 0x40_0000 && g.exponent() == 255);
    assert(g.widened().bits == 0x7ff8_0000_0000_0000);
}

/// A row of bytes may be written as an array of numbers: it is encoded as the base64 text
/// of the same bytes is.
pub proof fn bytes_may_be_numbers(text: Seq<char>, x: Seq<u8>, path: Seq<char>)
    requires
        base64_bytes(text) == Some(x),
    ensures
        bytes_of(Json::String(text), path) == Ok::<Seq<u8>, CodecFault>(x),
        bytes_of(
            Json::Array(Seq::new(x.len(), |i: int| Json::Number(Number::PosInt(x[i] as u64)))),
            path,
        ) == Ok::<Seq<u8>, CodecFault>(x),
{
    let a = Seq::new(x.len(), |i: int| Json::Number(Number::PosInt(x[i] as u64)));
    assert forall|i: int| 0 <= i < a.len() implies byte_of(#[trigger] a[i]) == Some(x[i]) by {
    }
    assert(Seq::new(a.len(), |i: int| byte_of(a[i]).unwrap()) =~= x);
}

/// What is encoded of an object is what its members for the message's fields say: two
/// objects that have the same of these are encoded alike.
proof fn lemma_fields_same(
    env: Env,
    m: MessageModel,
    a: Map<Seq<char>, Json>,
    b: Map<Seq<char>, Json>,
    i: nat,
    done: Seq<(Seq<char>, Wire)>,
    path: Seq<char>,
    depth: nat,
)
    requires
        forall|j: int|
            0 <= j < m.fields.len() ==> member_of(
                Json::Object(a),
                (#[trigger] m.fields[j]).name,
            ) == member_of(Json::Object(b), m.fields[j].name),
    ensures
        resolve_fields(env, m, Json::Object(a), i, done, path, depth) == resolve_fields(
            env,
            m,
            Json::Object(b),
            i,
            done,
            path,
            depth,
        ),
    decreases m.fields.len() - i,
{
    if i < m.fields.len() {
        let f = m.fields[i as int];
        assert(resolve_member(env, m, f, Json::Object(a), path, depth) == resolve_member(
            env,
            m,
            f,
            Json::Object(b),
            path,
            depth,
        ));
        if let Ok(w) = resolve_member(env, m, f, Json::Object(a), path, depth) {
            lemma_fields_same(env, m, a, b, i + 1, done.push((f.name, w)), path, depth);
        }
    }
}

/// A member that a message has no field for is passed over.
pub proof fn unknown_members_are_passed_over(
    env: Env,
    m: MessageModel,
    o: Map<Seq<char>, Json>,
    key: Seq<char>,
    v: Json,
    path: Seq<char>,
    depth: nat,
)
    requires
        forall|j: int| 0 <= j < m.fields.len() ==> (#[trigger] m.fields[j]).name != key,
    ensures
        resolve_message(env, m, Json::Object(o.insert(key, v)), path, depth) == resolve_message(
            env,
            m,
            Json::Object(o),
            path,
            depth,
        ),
{
    lemma_fields_same(env, m, o.insert(key, v), o, 0, Seq::empty(), path, depth);
}

/// The value of a time or a duration may be the text `now`, which is the current time, and
/// its parts may be called `secs` and `nsecs`.
pub proof fn times_may_be_written_otherwise(
    env: Env,
    name: Seq<char>,
    sec: Json,
    nanosec: Json,
    now: (i32, u32),
    path: Seq<char>,
    depth: nat,
)
    requires
        name == "builtin_interfaces/msg/Time"@ || name == "builtin_interfaces/msg/Duration"@,
        message_of(env.messages, name) matches Ok(m) ==> forall|j: int|
            0 <= j < m.fields.len() ==> (#[trigger] m.fields[j]).name == "sec"@ || m.fields[j].name
                == "nanosec"@,
        env.now == Some(now),
    ensures
        ({
            let base = BaseModel::Message(name);
            let o = Map::<Seq<char>, Json>::empty();
            &&& resolve_scalar(env, base, Json::String("now"@), path, depth) == resolve_scalar(
                env,
                base,
                Json::Object(
                    o.insert("sec"@, Json::Number(integer_number(now.0 as int))).insert(
                        "nanosec"@,
                        Json::Number(integer_number(now.1 as int)),
                    ),
                ),
                path,
                depth,
            )
            &&& resolve_scalar(
                env,
                base,
                Json::Object(o.insert("secs"@, sec).insert("nsecs"@, nanosec)),
                path,
                depth,
            ) == resolve_scalar(
                env,
                base,
                Json::Object(o.insert("sec"@, sec).insert("nanosec"@, nanosec)),
                path,
                depth,
            )
        }),
{
    reveal_strlit("sec");
    reveal_strlit("nanosec");
    reveal_strlit("secs");
    reveal_strlit("nsecs");
    assert("sec"@.len() == 3 && "nanosec"@.len() == 7 && "secs"@.len() == 4 && "nsecs"@.len() == 5);
    let o = Map::<Seq<char>, Json>::empty();
    if let Ok(m) = message_of(env.messages, name) {
        if depth > 0 {
            let a = o.insert("secs"@, sec).insert("nsecs"@, nanosec);
            let b = o.insert("sec"@, sec).insert("nanosec"@, nanosec);
            let x = timed(env, name, Json::Object(a))->Object_0;
            assert(timed(env, name, Json::Object(b))->Object_0 == b);
            lemma_fields_same(env, m, x, b, 0, Seq::empty(), path, (depth - 1) as nat);
        }
    }
}

/// The stamp of a header that is left out, or null, is the current time.
pub proof fn open_stamp_is_the_current_time(
    env: Env,
    m: MessageModel,
    f: FieldModel,
    o: Map<Seq<char>, Json>,
    name: Seq<char>,
    now: (i32, u32),
    path: Seq<char>,
    depth: nat,
)
    requires
        m.name == "std_msgs/msg/Header"@,
        f.name == "stamp"@,
        f.ty == (TypeModel {
            base: BaseModel::Message(name),
            multiplicity: Multiplicity::Scalar,
        }),
        name == "builtin_interfaces/msg/Time"@,
        env.now == Some(now),
    ensures
        ({
            let stamp = Json::Object(
                Map::<Seq<char>, Json>::empty().insert(
                    "sec"@,
                    Json::Number(integer_number(now.0 as int)),
                ).insert("nanosec"@, Json::Number(integer_number(now.1 as int))),
            );
            let given = resolve_member(
                env,
                m,
                f,
                Json::Object(o.insert(f.name, stamp)),
                path,
                depth,
            );
            &&& resolve_member(env, m, f, Json::Object(o.remove(f.name)), path, depth) == given
            &&& resolve_member(env, m, f, Json::Object(o.insert(f.name, Json::Null)), path, depth)
                == given
        }),
{
    reveal_strlit("sec");
    reveal_strlit("nanosec");
    assert("sec"@.len() == 3 && "nanosec"@.len() == 7);
}

/// The value that a field of one primitive or string has where nothing is said of it.
pub open spec fn nothing_said(base: BaseModel) -> Json {
    match base {
        BaseModel::Primitive(Primitive::Bool) => Json::Bool(false),
        BaseModel::Primitive(Primitive::Float32) | BaseModel::Primitive(Primitive::Float64) => {
            Json::Number(Number::Float(Float64 { bits: 0 }))
        },
        BaseModel::Primitive(_) => Json::Number(Number::PosInt(0)),
        BaseModel::String(_) | BaseModel::WString(_) => Json::String(Seq::empty()),
        BaseModel::Message(_) => Json::Object(Map::empty()),
    }
}

/// A field that is left out is encoded as if its zero were given: false, 0, the empty text,
/// a nested message with all of its fields left out, as many of these as an array has, and
/// a sequence without elements.
pub proof fn what_is_left_out_is_zero(
    env: Env,
    m: MessageModel,
    f: FieldModel,
    o: Map<Seq<char>, Json>,
    path: Seq<char>,
    depth: nat,
)
    requires
        !o.dom().contains(f.name),
        f.default is None,
        !(m.name == "std_msgs/msg/Header"@ && f.name == "stamp"@),
        f.ty.base matches BaseModel::Message(name) ==> !time_type(name),
    ensures
        ({
            let zero = nothing_said(f.ty.base);
            let given = match f.ty.multiplicity {
                Multiplicity::Scalar => zero,
                Multiplicity::FixedArray(n) => Json::Array(Seq::new(n as nat, |i: int| zero)),
                _ => Json::Array(Seq::empty()),
            };
            resolve_member(env, m, f, Json::Object(o), path, depth) == resolve_member(
                env,
                m,
                f,
                Json::Object(o.insert(f.name, given)),
                path,
                depth,
            )
        }),
{
    let zero = nothing_said(f.ty.base);
    let fpath = member_path(path, f.name);
    reveal_strlit("");
    assert(""@ =~= Seq::<char>::empty());
    match f.ty.multiplicity {
        Multiplicity::Scalar => {
            lemma_zero(env, f.ty.base, fpath, depth);
        },
        Multiplicity::FixedArray(n) => {
            let a = Seq::new(n as nat, |i: int| zero);
            if f.ty.blob() {
                assert forall|i: int| 0 <= i < a.len() implies byte_of(#[trigger] a[i]) == Some(
                    0u8,
                ) by {
                }
                assert(Seq::new(a.len(), |i: int| byte_of(a[i]).unwrap()) =~= zeros(n as nat));
            } else {
                lemma_zeros(env, f.ty.base, a, 0, Seq::empty(), fpath, depth);
            }
        },
        _ => {
            if f.ty.blob() {
                let a = Seq::<Json>::empty();
                assert(Seq::new(a.len(), |i: int| byte_of(a[i]).unwrap()) =~= Seq::<u8>::empty());
            }
        },
    }
}

proof fn lemma_zero(env: Env, base: BaseModel, path: Seq<char>, depth: nat)
    requires
        base matches BaseModel::Message(name) ==> !time_type(name),
    ensures
        default_scalar(env, base, None, path, false, depth) == resolve_scalar(
            env,
            base,
            nothing_said(base),
            path,
            depth,
        ),
{
    reveal_strlit("");
    assert(""@ =~= Seq::<char>::empty());
}

proof fn lemma_zeros(
    env: Env,
    base: BaseModel,
    a: Seq<Json>,
    i: nat,
    done: Seq<Wire>,
    path: Seq<char>,
    depth: nat,
)
    requires
        base matches BaseModel::Message(name) ==> !time_type(name),
        forall|j: int| 0 <= j < a.len() ==> #[trigger] a[j] == nothing_said(base),
    ensures
        default_items(env, base, a.len(), i, done, path, depth) == resolve_items(
            env,
            base,
            a,
            i,
            done,
            path,
            depth,
        ),
    decreases a.len() - i,
{
    if i < a.len() {
        lemma_zero(env, base, item_path(path, i), depth);
        assert(a[i as int] == nothing_said(base));
        if let Ok(w) = resolve_scalar(env, base, a[i as int], item_path(path, i), depth) {
            lemma_zeros(env, base, a, i + 1, done.push(w), path, depth);
        }
    }
}

/// The default in a definition counts where a field is left out: it is encoded as if the
/// number, the boolean or the text that the default is were given.
pub proof fn default_counts_where_left_out(
    env: Env,
    m: MessageModel,
    f: FieldModel,
    o: Map<Seq<char>, Json>,
    n: nat,
    path: Seq<char>,
    depth: nat,
)
    requires
        !o.dom().contains(f.name),
        f.ty.multiplicity == Multiplicity::Scalar,
        f.default is Some,
        n <= u64::MAX,
    ensures
        ({
            let d = f.default.unwrap();
            let left = resolve_member(env, m, f, Json::Object(o), path, depth);
            let given = |v: Json|
                resolve_member(env, m, f, Json::Object(o.insert(f.name, v)), path, depth);
            match f.ty.base {
                BaseModel::Primitive(Primitive::Bool) => left == given(
                    Json::Bool(d == "true"@ || d == "1"@),
                ),
                BaseModel::Primitive(Primitive::Float32)
                | BaseModel::Primitive(Primitive::Float64) => double_literal(d) matches Some(bits)
                    ==> left == given(Json::Number(Number::Float(Float64 { bits }))),
                BaseModel::Primitive(_) => {
                    &&& d == decimal(n) ==> left == given(Json::Number(integer_number(n as int)))
                    &&& d == seq!['-'] + decimal(n) && 0 < n <= i64::MAX ==> left == given(
                        Json::Number(integer_number(-(n as int))),
                    )
                },
                BaseModel::String(_) | BaseModel::WString(_) => left == given(Json::String(d)),
                BaseModel::Message(_) => true,
            }
        }),
{
    let d = f.default.unwrap();
    decimal_reads_back(n);
    let digits = decimal(n);
    assert(digit(digits[0]) is Some);
    if d == seq!['-'] + digits {
        assert(d.drop_first() =~= digits);
        assert(d[0] == '-');
    }
}

/// An array must have as many values as its type says, and a row of bytes as many bytes;
/// any other number is refused.
pub proof fn arrays_have_their_number(
    env: Env,
    ty: TypeModel,
    v: Json,
    n: usize,
    path: Seq<char>,
    depth: nat,
)
    requires
        ty.multiplicity == Multiplicity::FixedArray(n),
    ensures
        !ty.blob() && (v matches Json::Array(a) && a.len() != n) ==> resolve_field(
            env,
            ty,
            v,
            path,
            depth,
        ) == Err::<Wire, CodecFault>(
            CodecFault::ArrayLen { path, expected: n as nat, got: v->Array_0.len() },
        ),
        ty.blob() && (bytes_of(v, path) matches Ok(x) && x.len() != n) ==> resolve_field(
            env,
            ty,
            v,
            path,
            depth,
        ) is Err,
        !ty.blob() && !(v is Array) ==> resolve_field(env, ty, v, path, depth) is Err,
{
}

/// An array of numbers is a row of bytes exactly where each of them is a byte.
pub proof fn bytes_are_in_range(a: Seq<Json>, path: Seq<char>)
    ensures
        bytes_of(Json::Array(a), path) is Ok <==> forall|i: int|
            0 <= i < a.len() ==> ((#[trigger] a[i]) matches Json::Number(Number::PosInt(n)) && n
                < 256),
        bytes_of(Json::Array(a), path) matches Ok(x) ==> x.len() == a.len() && forall|i: int|
            0 <= i < a.len() ==> #[trigger] a[i] == Json::Number(Number::PosInt(x[i] as u64)),
{
    if bytes_of(Json::Array(a), path) is Ok {
        let x = bytes_of(Json::Array(a), path)->Ok_0;
        assert forall|i: int| 0 <= i < a.len() implies #[trigger] a[i] == Json::Number(
            Number::PosInt(x[i] as u64),
        ) by {
            assert(byte_of(a[i]) is Some);
        }
        assert forall|i: int| 0 <= i < a.len() implies ((#[trigger] a[i]) matches Json::Number(
            Number::PosInt(n),
        ) && n < 256) by {
            assert(byte_of(a[i]) is Some);
        }
    } else {
        let i = choose|i: int| 0 <= i < a.len() && !(byte_of(#[trigger] a[i]) is Some);
    }
}

/// An error says where it was found: the names of the members on the way with dots between
/// them, and the number of an element in brackets.
pub proof fn paths_tell_the_way(path: Seq<char>, name: Seq<char>, i: nat)
    ensures
        member_path(Seq::empty(), name) == name,
        path.len() > 0 ==> member_path(path, name) == path + "."@ + name,
        item_path(path, i) == path + "["@ + decimal(i) + "]"@,
{
}

/// A number that is none, or is infinite, is shown as null.
pub proof fn infinities_are_shown_as_null(f: Float64, g: Float32)
    ensures
        !f.finite() ==> show(Wire::Prim(Primitive::Float64, f.bits as nat)) == Json::Null,
        f.finite() ==> show(Wire::Prim(Primitive::Float64, f.bits as nat)) == Json::Number(
            Number::Float(f),
        ),
        g.exponent() == 255 && g.fraction() == 0 ==> show(
            Wire::Prim(Primitive::Float32, g.bits as nat),
        ) == Json::Null,
{
    if g.exponent() == 255 && g.fraction() == 0 {
        assert(is_number(g));
        widening_is_exact(g);
        assert(Float32 { bits: g.bits as nat as u32 } == g);
        assert(!g.widened().finite());
    }
}

/// An error tells the kind of the value that it is about, and each kind has its name.
pub proof fn kinds_have_names(v: Json, path: Seq<char>, expected: Seq<char>)
    ensures
        mismatch(path, expected, v) matches CodecFault::TypeMismatch { path: p, expected: x, found }
            && p == path && x == expected && match v {
            Json::Null => found == "null"@,
            Json::Bool(_) => found == "bool"@,
            Json::Number(_) => found == "number"@,
            Json::String(_) => found == "string"@,
            Json::Array(_) => found == "array"@,
            Json::Object(_) => found == "object"@,
        },
{
}

/// An integer type is called by a letter that says whether it has a sign, and by the number of
/// its bits.
pub proof fn integers_are_called_by_their_bits(p: Primitive)
    requires
        !(p is Bool) && !(p is Float32) && !(p is Float64),
    ensures
        machine_name(p).len() > 0,
        machine_name(p)[0] == 'i' <==> range_of(p).0 < 0,
        machine_name(p)[0] == 'u' <==> range_of(p).0 == 0,
        digits_value(machine_name(p).drop_first()) == Some(8 * p.width()),
        range_of(p).1 - range_of(p).0 + 1 == pow2(8 * p.width()),
{
    reveal_strlit("i8");
    reveal_strlit("i16");
    reveal_strlit("i32");
    reveal_strlit("i64");
    reveal_strlit("u8");
    reveal_strlit("u16");
    reveal_strlit("u32");
    reveal_strlit("u64");
    lemma2_to64();
    let s = machine_name(p).drop_first();
    reveal_with_fuel(digits_value, 3);
    if s.len() == 2 {
        assert(s.drop_last().drop_last().len() == 0);
        assert(s.drop_last().last() == s[0]);
    } else {
        assert(s.drop_last().len() == 0);
    }
}

} // verus!
