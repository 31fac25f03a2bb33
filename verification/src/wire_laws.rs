//! Laws of message conversion: a conversion comes to one result, and decoding
//! gives back what was encoded.
use vstd::prelude::*;
use vstd::utf8::encode_utf8;
use crate::cdr::{
    byte_range, get_raw, get_seq_len, header, lemma_byte_ranges, put_uint, string_reads_back,
    uint_reads_back, CdrError, Endian,
};
use crate::datatype::{BaseModel, Multiplicity, Primitive, TypeModel};
use crate::interface::{FieldModel, MessageModel};
use crate::json::Json;
use crate::wire::{
    announced, auto_stamp, decodes_to, decoding, default_items, default_prim, default_scalar,
    encodes_to, encoding, item_path, member_of, member_path, message_of, put, put_all, put_fields,
    resolve_field, resolve_fields, resolve_items, resolve_member, resolve_message, resolve_prim,
    resolve_scalar, show, stamp_members, take_field, take_fields, take_items, take_message,
    take_scalar, timed, CodecFault, Env, Wire,
};
use crate::wide::{put_units_extends, wide_string_reads_back, wide_units};

verus! {

proof fn lemma_scalar_more(
    env: Env,
    base: BaseModel,
    v: Json,
    path: Seq<char>,
    d: nat,
    more: nat,
)
    requires
        d <= more,
        resolve_scalar(env, base, v, path, d) != Err::<Wire, CodecFault>(CodecFault::Unsettled),
    ensures
        resolve_scalar(env, base, v, path, more) == resolve_scalar(env, base, v, path, d),
    decreases d, 0nat, 0nat,
{
    if let BaseModel::Message(name) = base {
        if let Ok(m) = message_of(env.messages, name) {
            lemma_message_more(
                env,
                m,
                timed(env, name, v),
                path,
                (d - 1) as nat,
                (more - 1) as nat,
            );
        }
    }
}

proof fn lemma_items_more(
    env: Env,
    base: BaseModel,
    a: Seq<Json>,
    i: nat,
    done: Seq<Wire>,
    path: Seq<char>,
    d: nat,
    more: nat,
)
    requires
        d <= more,
        resolve_items(env, base, a, i, done, path, d) != Err::<Seq<Wire>, CodecFault>(
            CodecFault::Unsettled,
        ),
    ensures
        resolve_items(env, base, a, i, done, path, more) == resolve_items(
            env,
            base,
            a,
            i,
            done,
            path,
            d,
        ),
    decreases d, 1nat, a.len() - i,
{
    if i < a.len() {
        lemma_scalar_more(env, base, a[i as int], item_path(path, i), d, more);
        if let Ok(w) = resolve_scalar(env, base, a[i as int], item_path(path, i), d) {
            lemma_items_more(env, base, a, i + 1, done.push(w), path, d, more);
        }
    }
}

proof fn lemma_field_more(
    env: Env,
    ty: TypeModel,
    v: Json,
    path: Seq<char>,
    d: nat,
    more: nat,
)
    requires
        d <= more,
        resolve_field(env, ty, v, path, d) != Err::<Wire, CodecFault>(CodecFault::Unsettled),
    ensures
        resolve_field(env, ty, v, path, more) == resolve_field(env, ty, v, path, d),
    decreases d, 2nat, 0nat,
{
    if ty.multiplicity == Multiplicity::Scalar {
        lemma_scalar_more(env, ty.base, v, path, d, more);
    } else if !ty.blob() {
        if let Json::Array(a) = v {
            let counted = match ty.multiplicity {
                Multiplicity::FixedArray(n) => a.len() == n,
                _ => true,
            };
            if counted {
                lemma_items_more(env, ty.base, a, 0, Seq::empty(), path, d, more);
            }
        }
    }
}

proof fn lemma_default_scalar_more(
    env: Env,
    base: BaseModel,
    literal: Option<Seq<char>>,
    path: Seq<char>,
    auto: bool,
    d: nat,
    more: nat,
)
    requires
        d <= more,
        default_scalar(env, base, literal, path, auto, d) != Err::<Wire, CodecFault>(
            CodecFault::Unsettled,
        ),
    ensures
        default_scalar(env, base, literal, path, auto, more) == default_scalar(
            env,
            base,
            literal,
            path,
            auto,
            d,
        ),
    decreases d, 0nat, 0nat,
{
    if let BaseModel::Message(name) = base {
        if let Ok(m) = message_of(env.messages, name) {
            let v = if auto {
                Json::Object(stamp_members(env.now))
            } else {
                Json::Object(Map::empty())
            };
            lemma_message_more(env, m, v, path, (d - 1) as nat, (more - 1) as nat);
        }
    }
}

proof fn lemma_default_items_more(
    env: Env,
    base: BaseModel,
    n: nat,
    i: nat,
    done: Seq<Wire>,
    path: Seq<char>,
    d: nat,
    more: nat,
)
    requires
        d <= more,
        default_items(env, base, n, i, done, path, d) != Err::<Seq<Wire>, CodecFault>(
            CodecFault::Unsettled,
        ),
    ensures
        default_items(env, base, n, i, done, path, more) == default_items(
            env,
            base,
            n,
            i,
            done,
            path,
            d,
        ),
    decreases d, 1nat, n - i,
{
    if i < n {
        lemma_default_scalar_more(env, base, None, item_path(path, i), false, d, more);
        if let Ok(w) = default_scalar(env, base, None, item_path(path, i), false, d) {
            lemma_default_items_more(env, base, n, i + 1, done.push(w), path, d, more);
        }
    }
}

proof fn lemma_member_more(
    env: Env,
    m: MessageModel,
    f: FieldModel,
    v: Json,
    path: Seq<char>,
    d: nat,
    more: nat,
)
    requires
        d <= more,
        resolve_member(env, m, f, v, path, d) != Err::<Wire, CodecFault>(CodecFault::Unsettled),
    ensures
        resolve_member(env, m, f, v, path, more) == resolve_member(env, m, f, v, path, d),
    decreases d, 3nat, 0nat,
{
    let given = member_of(v, f.name);
    let auto = auto_stamp(m, f, given);
    let fpath = member_path(path, f.name);
    if given is Some && !auto {
        lemma_field_more(env, f.ty, given.unwrap(), fpath, d, more);
    } else {
        match f.ty.multiplicity {
            Multiplicity::Scalar => {
                lemma_default_scalar_more(env, f.ty.base, f.default, fpath, auto, d, more);
            },
            Multiplicity::FixedArray(n) => {
                if !f.ty.blob() {
                    lemma_default_items_more(
                        env,
                        f.ty.base,
                        n as nat,
                        0,
                        Seq::empty(),
                        fpath,
                        d,
                        more,
                    );
                }
            },
            _ => {},
        }
    }
}

proof fn lemma_fields_more(
    env: Env,
    m: MessageModel,
    v: Json,
    i: nat,
    done: Seq<(Seq<char>, Wire)>,
    path: Seq<char>,
    d: nat,
    more: nat,
)
    requires
        d <= more,
        resolve_fields(env, m, v, i, done, path, d) != Err::<Seq<(Seq<char>, Wire)>, CodecFault>(
            CodecFault::Unsettled,
        ),
    ensures
        resolve_fields(env, m, v, i, done, path, more) == resolve_fields(
            env,
            m,
            v,
            i,
            done,
            path,
            d,
        ),
    decreases d, 4nat, m.fields.len() - i,
{
    if i < m.fields.len() {
        let f = m.fields[i as int];
        lemma_member_more(env, m, f, v, path, d, more);
        if let Ok(w) = resolve_member(env, m, f, v, path, d) {
            lemma_fields_more(env, m, v, i + 1, done.push((f.name, w)), path, d, more);
        }
    }
}

proof fn lemma_message_more(
    env: Env,
    m: MessageModel,
    v: Json,
    path: Seq<char>,
    d: nat,
    more: nat,
)
    requires
        d <= more,
        resolve_message(env, m, v, path, d) != Err::<Wire, CodecFault>(CodecFault::Unsettled),
    ensures
        resolve_message(env, m, v, path, more) == resolve_message(env, m, v, path, d),
    decreases d, 5nat, 0nat,
{
    lemma_fields_more(env, m, v, 0, Seq::empty(), path, d, more);
}

/// What a JSON value is encoded to does not depend on how deep messages may nest,
/// where they may nest deep enough: encoding comes to one result.
pub proof fn encoding_is_unique(
    env: Env,
    m: MessageModel,
    v: Json,
    a: Result<Seq<u8>, CodecFault>,
    b: Result<Seq<u8>, CodecFault>,
)
    requires
        encodes_to(env, m, v, a),
        encodes_to(env, m, v, b),
    ensures
        a == b,
{
    let i = choose|d: nat| #[trigger] encoding(env, m, v, d) == a;
    let j = choose|d: nat| #[trigger] encoding(env, m, v, d) == b;
    if i <= j {
        lemma_message_more(env, m, v, Seq::empty(), i, j);
    } else {
        lemma_message_more(env, m, v, Seq::empty(), j, i);
    }
}

proof fn lemma_take_scalar_more(
    messages: Map<Seq<char>, MessageModel>,
    base: BaseModel,
    data: Seq<u8>,
    pos: nat,
    e: Endian,
    d: nat,
    more: nat,
)
    requires
        d <= more,
        take_scalar(messages, base, data, pos, e, d) != Err::<(Wire, nat), CodecFault>(
            CodecFault::Unsettled,
        ),
    ensures
        take_scalar(messages, base, data, pos, e, more) == take_scalar(
            messages,
            base,
            data,
            pos,
            e,
            d,
        ),
    decreases d, 0nat, 0nat,
{
    if let BaseModel::Message(name) = base {
        if let Ok(m) = message_of(messages, name) {
            lemma_take_message_more(
                messages,
                m,
                data,
                pos,
                e,
                (d - 1) as nat,
                (more - 1) as nat,
            );
        }
    }
}

proof fn lemma_take_items_more(
    messages: Map<Seq<char>, MessageModel>,
    base: BaseModel,
    n: nat,
    done: Seq<Wire>,
    data: Seq<u8>,
    pos: nat,
    e: Endian,
    d: nat,
    more: nat,
)
    requires
        d <= more,
        take_items(messages, base, n, done, data, pos, e, d) != Err::<(Seq<Wire>, nat), CodecFault>(
            CodecFault::Unsettled,
        ),
    ensures
        take_items(messages, base, n, done, data, pos, e, more) == take_items(
            messages,
            base,
            n,
            done,
            data,
            pos,
            e,
            d,
        ),
    decreases d, 1nat, n,
{
    if n > 0 {
        lemma_take_scalar_more(messages, base, data, pos, e, d, more);
        if let Ok((w, q)) = take_scalar(messages, base, data, pos, e, d) {
            lemma_take_items_more(
                messages,
                base,
                (n - 1) as nat,
                done.push(w),
                data,
                q,
                e,
                d,
                more,
            );
        }
    }
}

proof fn lemma_take_field_more(
    messages: Map<Seq<char>, MessageModel>,
    ty: TypeModel,
    data: Seq<u8>,
    pos: nat,
    e: Endian,
    d: nat,
    more: nat,
)
    requires
        d <= more,
        take_field(messages, ty, data, pos, e, d) != Err::<(Wire, nat), CodecFault>(
            CodecFault::Unsettled,
        ),
    ensures
        take_field(messages, ty, data, pos, e, more) == take_field(messages, ty, data, pos, e, d),
    decreases d, 2nat, 0nat,
{
    match ty.multiplicity {
        Multiplicity::Scalar => {
            lemma_take_scalar_more(messages, ty.base, data, pos, e, d, more);
        },
        Multiplicity::FixedArray(n) => {
            if !ty.blob() {
                lemma_take_items_more(
                    messages,
                    ty.base,
                    n as nat,
                    Seq::empty(),
                    data,
                    pos,
                    e,
                    d,
                    more,
                );
            }
        },
        _ => {
            if let (Ok(n), q) = get_seq_len(data, pos, e) {
                if !ty.blob() {
                    lemma_take_items_more(
                        messages,
                        ty.base,
                        n,
                        Seq::empty(),
                        data,
                        q,
                        e,
                        d,
                        more,
                    );
                }
            }
        },
    }
}

proof fn lemma_take_fields_more(
    messages: Map<Seq<char>, MessageModel>,
    m: MessageModel,
    i: nat,
    done: Seq<(Seq<char>, Wire)>,
    data: Seq<u8>,
    pos: nat,
    e: Endian,
    d: nat,
    more: nat,
)
    requires
        d <= more,
        take_fields(messages, m, i, done, data, pos, e, d) != Err::<
            (Seq<(Seq<char>, Wire)>, nat),
            CodecFault,
        >(CodecFault::Unsettled),
    ensures
        take_fields(messages, m, i, done, data, pos, e, more) == take_fields(
            messages,
            m,
            i,
            done,
            data,
            pos,
            e,
            d,
        ),
    decreases d, 3nat, m.fields.len() - i,
{
    if i < m.fields.len() {
        let f = m.fields[i as int];
        lemma_take_field_more(messages, f.ty, data, pos, e, d, more);
        if let Ok((w, q)) = take_field(messages, f.ty, data, pos, e, d) {
            lemma_take_fields_more(
                messages,
                m,
                i + 1,
                done.push((f.name, w)),
                data,
                q,
                e,
                d,
                more,
            );
        }
    }
}

proof fn lemma_take_message_more(
    messages: Map<Seq<char>, MessageModel>,
    m: MessageModel,
    data: Seq<u8>,
    pos: nat,
    e: Endian,
    d: nat,
    more: nat,
)
    requires
        d <= more,
        take_message(messages, m, data, pos, e, d) != Err::<(Wire, nat), CodecFault>(
            CodecFault::Unsettled,
        ),
    ensures
        take_message(messages, m, data, pos, e, more) == take_message(
            messages,
            m,
            data,
            pos,
            e,
            d,
        ),
    decreases d, 4nat, 0nat,
{
    lemma_take_fields_more(messages, m, 0, Seq::empty(), data, pos, e, d, more);
}

/// What a buffer is decoded to does not depend on how deep messages may nest,
/// where they may nest deep enough: decoding comes to one result.
pub proof fn decoding_is_unique(
    messages: Map<Seq<char>, MessageModel>,
    m: MessageModel,
    bytes: Seq<u8>,
    a: Result<Json, CodecFault>,
    b: Result<Json, CodecFault>,
)
    requires
        decodes_to(messages, m, bytes, a),
        decodes_to(messages, m, bytes, b),
    ensures
        a == b,
{
    let i = choose|d: nat| #[trigger] decoding(messages, m, bytes, d) == a;
    let j = choose|d: nat| #[trigger] decoding(messages, m, bytes, d) == b;
    if let Some(e) = announced(bytes) {
        if i <= j {
            lemma_take_message_more(messages, m, bytes.skip(4), 0, e, i, j);
        } else {
            lemma_take_message_more(messages, m, bytes.skip(4), 0, e, j, i);
        }
    }
}

/// Whether a value is a value of a base type.
pub open spec fn of_base(
    messages: Map<Seq<char>, MessageModel>,
    base: BaseModel,
    w: Wire,
    depth: nat,
) -> bool
    decreases depth, 0nat,
{
    match base {
        BaseModel::Primitive(p) => w matches Wire::Prim(q, u) && p == q && u < byte_range(
            p.width(),
        ),
        BaseModel::String(_) => w is Text,
        BaseModel::WString(_) => w is Wide,
        BaseModel::Message(name) => message_of(messages, name) matches Ok(m) && depth > 0
            && of_message(messages, m, w, (depth - 1) as nat),
    }
}

/// Whether a value is a value of a field type.
pub open spec fn of_type(
    messages: Map<Seq<char>, MessageModel>,
    ty: TypeModel,
    w: Wire,
    depth: nat,
) -> bool
    decreases depth, 1nat,
{
    match ty.multiplicity {
        Multiplicity::Scalar => of_base(messages, ty.base, w, depth),
        Multiplicity::FixedArray(n) => if ty.blob() {
            w matches Wire::FixedBytes(x) && x.len() == n
        } else {
            w matches Wire::Array(v) && v.len() == n && forall|i: int|
                0 <= i < v.len() ==> of_base(messages, ty.base, #[trigger] v[i], depth)
        },
        _ => if ty.blob() {
            w is Bytes
        } else {
            w matches Wire::List(v) && forall|i: int|
                0 <= i < v.len() ==> of_base(messages, ty.base, #[trigger] v[i], depth)
        },
    }
}

/// Whether a value is a message: it has the message's fields, in their order.
pub open spec fn of_message(
    messages: Map<Seq<char>, MessageModel>,
    m: MessageModel,
    w: Wire,
    depth: nat,
) -> bool
    decreases depth, 2nat,
{
    w matches Wire::Record(v) && v.len() == m.fields.len() && forall|i: int|
        0 <= i < v.len() ==> (#[trigger] v[i]).0 == m.fields[i].name && of_type(
            messages,
            m.fields[i].ty,
            v[i].1,
            depth,
        )
}

proof fn lemma_prim_in_range(p: Primitive, v: Json, path: Seq<char>)
    ensures
        resolve_prim(p, v, path) matches Ok(u) ==> u < byte_range(p.width()),
{
    lemma_byte_ranges();
}

proof fn lemma_scalar_typed(env: Env, base: BaseModel, v: Json, path: Seq<char>, d: nat)
    ensures
        resolve_scalar(env, base, v, path, d) matches Ok(w) ==> of_base(env.messages, base, w, d),
    decreases d, 0nat, 0nat,
{
    match base {
        BaseModel::Primitive(p) => {
            lemma_prim_in_range(p, v, path);
        },
        BaseModel::Message(name) => {
            if let Ok(m) = message_of(env.messages, name) {
                if d > 0 {
                    lemma_message_typed(env, m, timed(env, name, v), path, (d - 1) as nat);
                }
            }
        },
        _ => {},
    }
}

proof fn lemma_items_typed(
    env: Env,
    base: BaseModel,
    a: Seq<Json>,
    i: nat,
    done: Seq<Wire>,
    path: Seq<char>,
    d: nat,
)
    requires
        i <= a.len(),
        done.len() == i,
        forall|j: int| 0 <= j < done.len() ==> of_base(env.messages, base, #[trigger] done[j], d),
    ensures
        resolve_items(env, base, a, i, done, path, d) matches Ok(v) ==> v.len() == a.len()
            && forall|j: int|
            0 <= j < v.len() ==> of_base(env.messages, base, #[trigger] v[j], d),
    decreases d, 1nat, a.len() - i,
{
    if i < a.len() {
        lemma_scalar_typed(env, base, a[i as int], item_path(path, i), d);
        if let Ok(w) = resolve_scalar(env, base, a[i as int], item_path(path, i), d) {
            lemma_items_typed(env, base, a, i + 1, done.push(w), path, d);
        }
    }
}

proof fn lemma_default_scalar_typed(
    env: Env,
    base: BaseModel,
    literal: Option<Seq<char>>,
    path: Seq<char>,
    auto: bool,
    d: nat,
)
    ensures
        default_scalar(env, base, literal, path, auto, d) matches Ok(w) ==> of_base(
            env.messages,
            base,
            w,
            d,
        ),
    decreases d, 0nat, 0nat,
{
    match base {
        BaseModel::Primitive(p) => {
            lemma_prim_in_range(p, default_prim(p, literal), path);
        },
        BaseModel::Message(name) => {
            if let Ok(m) = message_of(env.messages, name) {
                if d > 0 {
                    let v = if auto {
                        Json::Object(stamp_members(env.now))
                    } else {
                        Json::Object(Map::empty())
                    };
                    lemma_message_typed(env, m, v, path, (d - 1) as nat);
                }
            }
        },
        _ => {},
    }
}

proof fn lemma_default_items_typed(
    env: Env,
    base: BaseModel,
    n: nat,
    i: nat,
    done: Seq<Wire>,
    path: Seq<char>,
    d: nat,
)
    requires
        i <= n,
        done.len() == i,
        forall|j: int| 0 <= j < done.len() ==> of_base(env.messages, base, #[trigger] done[j], d),
    ensures
        default_items(env, base, n, i, done, path, d) matches Ok(v) ==> v.len() == n && forall|
            j: int,
        |
            0 <= j < v.len() ==> of_base(env.messages, base, #[trigger] v[j], d),
    decreases d, 1nat, n - i,
{
    if i < n {
        lemma_default_scalar_typed(env, base, None, item_path(path, i), false, d);
        if let Ok(w) = default_scalar(env, base, None, item_path(path, i), false, d) {
            lemma_default_items_typed(env, base, n, i + 1, done.push(w), path, d);
        }
    }
}

proof fn lemma_member_typed(
    env: Env,
    m: MessageModel,
    f: FieldModel,
    v: Json,
    path: Seq<char>,
    d: nat,
)
    ensures
        resolve_member(env, m, f, v, path, d) matches Ok(w) ==> of_type(env.messages, f.ty, w, d),
    decreases d, 3nat, 0nat,
{
    let given = member_of(v, f.name);
    let auto = auto_stamp(m, f, given);
    let fpath = member_path(path, f.name);
    if given is Some && !auto {
        let x = given.unwrap();
        if f.ty.multiplicity == Multiplicity::Scalar {
            lemma_scalar_typed(env, f.ty.base, x, fpath, d);
        } else if !f.ty.blob() {
            if let Json::Array(a) = x {
                lemma_items_typed(env, f.ty.base, a, 0, Seq::empty(), fpath, d);
            }
        }
    } else {
        match f.ty.multiplicity {
            Multiplicity::Scalar => {
                lemma_default_scalar_typed(env, f.ty.base, f.default, fpath, auto, d);
            },
            Multiplicity::FixedArray(n) => {
                lemma_default_items_typed(env, f.ty.base, n as nat, 0, Seq::empty(), fpath, d);
            },
            _ => {},
        }
    }
}

proof fn lemma_fields_typed(
    env: Env,
    m: MessageModel,
    v: Json,
    i: nat,
    done: Seq<(Seq<char>, Wire)>,
    path: Seq<char>,
    d: nat,
)
    requires
        i <= m.fields.len(),
        done.len() == i,
        forall|j: int|
            0 <= j < done.len() ==> (#[trigger] done[j]).0 == m.fields[j].name && of_type(
                env.messages,
                m.fields[j].ty,
                done[j].1,
                d,
            ),
    ensures
        resolve_fields(env, m, v, i, done, path, d) matches Ok(w) ==> of_message(
            env.messages,
            m,
            Wire::Record(w),
            d,
        ),
    decreases d, 4nat, m.fields.len() - i,
{
    if i < m.fields.len() {
        let f = m.fields[i as int];
        lemma_member_typed(env, m, f, v, path, d);
        if let Ok(w) = resolve_member(env, m, f, v, path, d) {
            lemma_fields_typed(env, m, v, i + 1, done.push((f.name, w)), path, d);
        }
    }
}

proof fn lemma_message_typed(env: Env, m: MessageModel, v: Json, path: Seq<char>, d: nat)
    ensures
        resolve_message(env, m, v, path, d) matches Ok(w) ==> of_message(env.messages, m, w, d),
    decreases d, 5nat, 0nat,
{
    lemma_fields_typed(env, m, v, 0, Seq::empty(), path, d);
}

/// Whether `c` begins with `b`.
pub open spec fn extends(b: Seq<u8>, c: Seq<u8>) -> bool {
    b.len() <= c.len() && c.take(b.len() as int) == b
}

proof fn lemma_extends_transitive(a: Seq<u8>, b: Seq<u8>, c: Seq<u8>)
    requires
        extends(a, b),
        extends(b, c),
    ensures
        extends(a, c),
{
    assert(c.take(a.len() as int) =~= c.take(b.len() as int).take(a.len() as int));
}

proof fn lemma_put_uint_extends(b: Seq<u8>, e: Endian, v: nat, n: nat)
    ensures
        extends(b, put_uint(b, e, v, n)),
{
    assert(put_uint(b, e, v, n).take(b.len() as int) =~= b);
}

/// Writing a value only adds to the buffer.
pub proof fn put_extends(b: Seq<u8>, e: Endian, w: Wire)
    ensures
        extends(b, put(b, e, w)),
    decreases w,
{
    match w {
        Wire::Prim(p, u) => {
            lemma_put_uint_extends(b, e, u, p.width());
        },
        Wire::Text(s) => {
            let len = (encode_utf8(s).len() + 1) % 0x1_0000_0000;
            lemma_put_uint_extends(b, e, len, 4);
            assert(put(b, e, w).take(b.len() as int) =~= put_uint(b, e, len, 4).take(
                b.len() as int,
            ));
        },
        Wire::Wide(s) => {
            let u = wide_units(s);
            let len = u.len() % 0x1_0000_0000;
            lemma_put_uint_extends(b, e, len, 4);
            put_units_extends(put_uint(b, e, len, 4), e, u);
            assert(put(b, e, w).take(b.len() as int) =~= put_uint(b, e, len, 4).take(
                b.len() as int,
            ));
        },
        Wire::FixedBytes(x) => {
            assert(put(b, e, w).take(b.len() as int) =~= b);
        },
        Wire::Bytes(x) => {
            let len = x.len() % 0x1_0000_0000;
            lemma_put_uint_extends(b, e, len, 4);
            assert(put(b, e, w).take(b.len() as int) =~= put_uint(b, e, len, 4).take(
                b.len() as int,
            ));
        },
        Wire::Array(v) => {
            lemma_put_all_extends(b, e, v);
        },
        Wire::List(v) => {
            let c = put_uint(b, e, v.len() % 0x1_0000_0000, 4);
            lemma_put_uint_extends(b, e, v.len() % 0x1_0000_0000, 4);
            lemma_put_all_extends(c, e, v);
            lemma_extends_transitive(b, c, put_all(c, e, v));
        },
        Wire::Record(v) => {
            lemma_put_fields_extends(b, e, v);
        },
    }
}

proof fn lemma_put_all_extends(b: Seq<u8>, e: Endian, v: Seq<Wire>)
    ensures
        extends(b, put_all(b, e, v)),
    decreases v,
{
    if v.len() == 0 {
        assert(b.take(b.len() as int) =~= b);
    } else {
        let c = put_all(b, e, v.drop_last());
        lemma_put_all_extends(b, e, v.drop_last());
        put_extends(c, e, v.last());
        lemma_extends_transitive(b, c, put_all(b, e, v));
    }
}

proof fn lemma_put_fields_extends(b: Seq<u8>, e: Endian, v: Seq<(Seq<char>, Wire)>)
    ensures
        extends(b, put_fields(b, e, v)),
    decreases v,
{
    if v.len() == 0 {
        assert(b.take(b.len() as int) =~= b);
    } else {
        let c = put_fields(b, e, v.drop_last());
        lemma_put_fields_extends(b, e, v.drop_last());
        put_extends(c, e, v.last().1);
        lemma_extends_transitive(b, c, put_fields(b, e, v));
    }
}

proof fn lemma_put_all_prefix(b: Seq<u8>, e: Endian, v: Seq<Wire>, j: int)
    requires
        0 <= j <= v.len(),
    ensures
        extends(put_all(b, e, v.take(j)), put_all(b, e, v)),
    decreases v.len() - j,
{
    let c = put_all(b, e, v.take(j));
    if j == v.len() {
        assert(v.take(j) =~= v);
        assert(c.take(c.len() as int) =~= c);
    } else {
        assert(v.take(j + 1).drop_last() =~= v.take(j));
        put_extends(c, e, v[j]);
        lemma_put_all_prefix(b, e, v, j + 1);
        lemma_extends_transitive(c, put_all(b, e, v.take(j + 1)), put_all(b, e, v));
    }
}

proof fn lemma_put_fields_prefix(b: Seq<u8>, e: Endian, v: Seq<(Seq<char>, Wire)>, j: int)
    requires
        0 <= j <= v.len(),
    ensures
        extends(put_fields(b, e, v.take(j)), put_fields(b, e, v)),
    decreases v.len() - j,
{
    let c = put_fields(b, e, v.take(j));
    if j == v.len() {
        assert(v.take(j) =~= v);
        assert(c.take(c.len() as int) =~= c);
    } else {
        assert(v.take(j + 1).drop_last() =~= v.take(j));
        put_extends(c, e, v[j].1);
        lemma_put_fields_prefix(b, e, v, j + 1);
        lemma_extends_transitive(c, put_fields(b, e, v.take(j + 1)), put_fields(b, e, v));
    }
}

/// Whether the lengths in a value can be told on the wire, where it is written
/// behind `b` in a buffer of `total` bytes: each length fits its prefix, and no
/// list has more elements than the buffer has bytes left.
pub open spec fn lengths_fit(w: Wire, b: Seq<u8>, e: Endian, total: nat) -> bool
    decreases w,
{
    match w {
        Wire::Prim(_, _) => true,
        Wire::Text(s) => encode_utf8(s).len() + 1 < 0x1_0000_0000,
        Wire::Wide(s) => wide_units(s).len() < 0x1_0000_0000,
        Wire::FixedBytes(_) => true,
        Wire::Bytes(x) => x.len() < 0x1_0000_0000,
        Wire::Array(v) => forall|i: int|
            0 <= i < v.len() ==> lengths_fit(#[trigger] v[i], put_all(b, e, v.take(i)), e, total),
        Wire::List(v) => {
            let c = put_uint(b, e, v.len(), 4);
            &&& v.len() < 0x1_0000_0000
            &&& c.len() + v.len() <= total
            &&& forall|i: int|
                0 <= i < v.len() ==> lengths_fit(
                    #[trigger] v[i],
                    put_all(c, e, v.take(i)),
                    e,
                    total,
                )
        },
        Wire::Record(v) => forall|i: int|
            0 <= i < v.len() ==> lengths_fit(
                (#[trigger] v[i]).1,
                put_fields(b, e, v.take(i)),
                e,
                total,
            ),
    }
}

proof fn lemma_scalar_reads_back(
    messages: Map<Seq<char>, MessageModel>,
    base: BaseModel,
    w: Wire,
    b: Seq<u8>,
    rest: Seq<u8>,
    e: Endian,
    d: nat,
)
    requires
        b.len() >= 4,
        of_base(messages, base, w, d),
        lengths_fit(w, b, e, (put(b, e, w) + rest).len()),
    ensures
        take_scalar(
            messages,
            base,
            (put(b, e, w) + rest).skip(4),
            (b.len() - 4) as nat,
            e,
            d,
        ) == Ok::<(Wire, nat), CodecFault>((w, (put(b, e, w).len() - 4) as nat)),
    decreases d, 0nat, 0nat,
{
    match base {
        BaseModel::Primitive(p) => {
            let u = w->Prim_1;
            uint_reads_back(b, rest, e, u, p.width());
        },
        BaseModel::String(_) => {
            string_reads_back(b, rest, e, w->Text_0);
        },
        BaseModel::WString(_) => {
            wide_string_reads_back(b, rest, e, w->Wide_0);
        },
        BaseModel::Message(name) => {
            let m = message_of(messages, name)->Ok_0;
            lemma_message_reads_back(messages, m, w, b, rest, e, (d - 1) as nat);
        },
    }
}

proof fn lemma_items_read_back(
    messages: Map<Seq<char>, MessageModel>,
    base: BaseModel,
    v: Seq<Wire>,
    i: nat,
    b: Seq<u8>,
    rest: Seq<u8>,
    e: Endian,
    d: nat,
)
    requires
        b.len() >= 4,
        i <= v.len(),
        forall|j: int| 0 <= j < v.len() ==> of_base(messages, base, #[trigger] v[j], d),
        forall|j: int|
            0 <= j < v.len() ==> lengths_fit(
                #[trigger] v[j],
                put_all(b, e, v.take(j)),
                e,
                (put_all(b, e, v) + rest).len(),
            ),
    ensures
        take_items(
            messages,
            base,
            (v.len() - i) as nat,
            v.take(i as int),
            (put_all(b, e, v) + rest).skip(4),
            (put_all(b, e, v.take(i as int)).len() - 4) as nat,
            e,
            d,
        ) == Ok::<(Seq<Wire>, nat), CodecFault>((v, (put_all(b, e, v).len() - 4) as nat)),
    decreases d, 1nat, v.len() - i,
{
    let full = put_all(b, e, v) + rest;
    if i == v.len() {
        assert(v.take(i as int) =~= v);
    } else {
        let c = put_all(b, e, v.take(i as int));
        let next = put_all(b, e, v.take(i as int + 1));
        assert(v.take(i as int + 1).drop_last() =~= v.take(i as int));
        assert(next == put(c, e, v[i as int]));
        lemma_put_all_extends(b, e, v.take(i as int));
        lemma_put_all_prefix(b, e, v, i as int + 1);
        let tail = full.skip(next.len() as int);
        assert(full =~= next + tail) by {
            assert(full.take(next.len() as int) =~= put_all(b, e, v).take(next.len() as int));
        }
        lemma_scalar_reads_back(messages, base, v[i as int], c, tail, e, d);
        assert(v.take(i as int).push(v[i as int]) =~= v.take(i as int + 1));
        lemma_items_read_back(messages, base, v, i + 1, b, rest, e, d);
    }
}

proof fn lemma_bytes_read_back(x: Seq<u8>, b: Seq<u8>, rest: Seq<u8>, e: Endian)
    requires
        b.len() >= 4,
        x.len() < 0x1_0000_0000,
    ensures
        ({
            let full = put(b, e, Wire::Bytes(x)) + rest;
            let c = put_uint(b, e, x.len(), 4);
            &&& get_seq_len(full.skip(4), (b.len() - 4) as nat, e) == (
                Ok::<nat, CdrError>(x.len()),
                (c.len() - 4) as nat,
            )
            &&& get_raw(full.skip(4), (c.len() - 4) as nat, x.len()) == (
                Ok::<Seq<u8>, CdrError>(x),
                (c.len() - 4 + x.len()) as nat,
            )
            &&& put(b, e, Wire::Bytes(x)).len() == c.len() + x.len()
        }),
{
    lemma_byte_ranges();
    let c = put_uint(b, e, x.len(), 4);
    let full = put(b, e, Wire::Bytes(x)) + rest;
    assert(full =~= c + (x + rest));
    uint_reads_back(b, x + rest, e, x.len(), 4);
    lemma_put_uint_extends(b, e, x.len(), 4);
    let p = c.len() - 4;
    assert(full.skip(4).subrange(p, p + x.len()) =~= x);
}

proof fn lemma_list_length_reads_back(v: Seq<Wire>, b: Seq<u8>, rest: Seq<u8>, e: Endian)
    requires
        b.len() >= 4,
        v.len() < 0x1_0000_0000,
        put_uint(b, e, v.len(), 4).len() + v.len() <= (put(b, e, Wire::List(v)) + rest).len(),
    ensures
        ({
            let full = put(b, e, Wire::List(v)) + rest;
            let c = put_uint(b, e, v.len(), 4);
            &&& get_seq_len(full.skip(4), (b.len() - 4) as nat, e) == (
                Ok::<nat, CdrError>(v.len()),
                (c.len() - 4) as nat,
            )
            &&& put(b, e, Wire::List(v)) == put_all(c, e, v)
            &&& c.len() >= 4
        }),
{
    lemma_byte_ranges();
    let c = put_uint(b, e, v.len(), 4);
    lemma_put_uint_extends(b, e, v.len(), 4);
    lemma_put_all_extends(c, e, v);
    assert(put(b, e, Wire::List(v)) == put_all(c, e, v));
    let full = put(b, e, Wire::List(v)) + rest;
    let tail = full.skip(c.len() as int);
    assert(full =~= c + tail) by {
        assert(full.take(c.len() as int) =~= put_all(c, e, v).take(c.len() as int));
    }
    uint_reads_back(b, tail, e, v.len(), 4);
}

#[verifier::spinoff_prover]
#[verifier::rlimit(60)]
proof fn lemma_field_reads_back(
    messages: Map<Seq<char>, MessageModel>,
    ty: TypeModel,
    w: Wire,
    b: Seq<u8>,
    rest: Seq<u8>,
    e: Endian,
    d: nat,
)
    requires
        b.len() >= 4,
        of_type(messages, ty, w, d),
        lengths_fit(w, b, e, (put(b, e, w) + rest).len()),
    ensures
        take_field(
            messages,
            ty,
            (put(b, e, w) + rest).skip(4),
            (b.len() - 4) as nat,
            e,
            d,
        ) == Ok::<(Wire, nat), CodecFault>((w, (put(b, e, w).len() - 4) as nat)),
    decreases d, 2nat, 0nat,
{
    let data = (put(b, e, w) + rest).skip(4);
    match ty.multiplicity {
        Multiplicity::Scalar => {
            lemma_scalar_reads_back(messages, ty.base, w, b, rest, e, d);
        },
        Multiplicity::FixedArray(n) => {
            if ty.blob() {
                let x = w->FixedBytes_0;
                let p = b.len() - 4;
                assert(data.subrange(p, p + n) =~= x);
            } else {
                let v = w->Array_0;
                assert(v.take(0) =~= Seq::empty());
                lemma_items_read_back(messages, ty.base, v, 0, b, rest, e, d);
            }
        },
        _ => {
            if ty.blob() {
                lemma_bytes_read_back(w->Bytes_0, b, rest, e);
            } else {
                let v = w->List_0;
                let c = put_uint(b, e, v.len(), 4);
                lemma_list_length_reads_back(v, b, rest, e);
                assert(v.take(0) =~= Seq::empty());
                lemma_items_read_back(messages, ty.base, v, 0, c, rest, e, d);
            }
        },
    }
}

proof fn lemma_fields_read_back(
    messages: Map<Seq<char>, MessageModel>,
    m: MessageModel,
    v: Seq<(Seq<char>, Wire)>,
    i: nat,
    b: Seq<u8>,
    rest: Seq<u8>,
    e: Endian,
    d: nat,
)
    requires
        b.len() >= 4,
        i <= v.len(),
        of_message(messages, m, Wire::Record(v), d),
        lengths_fit(Wire::Record(v), b, e, (put_fields(b, e, v) + rest).len()),
    ensures
        take_fields(
            messages,
            m,
            i,
            v.take(i as int),
            (put_fields(b, e, v) + rest).skip(4),
            (put_fields(b, e, v.take(i as int)).len() - 4) as nat,
            e,
            d,
        ) == Ok::<(Seq<(Seq<char>, Wire)>, nat), CodecFault>(
            (v, (put_fields(b, e, v).len() - 4) as nat),
        ),
    decreases d, 3nat, v.len() - i,
{
    let full = put_fields(b, e, v) + rest;
    if i == v.len() {
        assert(v.take(i as int) =~= v);
    } else {
        let c = put_fields(b, e, v.take(i as int));
        let next = put_fields(b, e, v.take(i as int + 1));
        let f = v[i as int];
        assert(v.take(i as int + 1).drop_last() =~= v.take(i as int));
        assert(next == put(c, e, f.1));
        lemma_put_fields_extends(b, e, v.take(i as int));
        lemma_put_fields_prefix(b, e, v, i as int + 1);
        let tail = full.skip(next.len() as int);
        assert(full =~= next + tail) by {
            assert(full.take(next.len() as int) =~= put_fields(b, e, v).take(next.len() as int));
        }
        lemma_field_reads_back(messages, m.fields[i as int].ty, f.1, c, tail, e, d);
        assert(v.take(i as int).push(f) =~= v.take(i as int + 1));
        lemma_fields_read_back(messages, m, v, i + 1, b, rest, e, d);
    }
}

proof fn lemma_message_reads_back(
    messages: Map<Seq<char>, MessageModel>,
    m: MessageModel,
    w: Wire,
    b: Seq<u8>,
    rest: Seq<u8>,
    e: Endian,
    d: nat,
)
    requires
        b.len() >= 4,
        of_message(messages, m, w, d),
        lengths_fit(w, b, e, (put(b, e, w) + rest).len()),
    ensures
        take_message(
            messages,
            m,
            (put(b, e, w) + rest).skip(4),
            (b.len() - 4) as nat,
            e,
            d,
        ) == Ok::<(Wire, nat), CodecFault>((w, (put(b, e, w).len() - 4) as nat)),
    decreases d, 4nat, 0nat,
{
    let v = w->Record_0;
    assert(v.take(0) =~= Seq::empty());
    lemma_fields_read_back(messages, m, v, 0, b, rest, e, d);
}

/// A value that was written is read back, in either byte order and whatever
/// follows it.
pub proof fn written_message_reads_back(
    messages: Map<Seq<char>, MessageModel>,
    m: MessageModel,
    w: Wire,
    rest: Seq<u8>,
    e: Endian,
    depth: nat,
)
    requires
        of_message(messages, m, w, depth),
        lengths_fit(w, header(e), e, (put(header(e), e, w) + rest).len()),
    ensures
        decoding(messages, m, put(header(e), e, w) + rest, depth) == Ok::<Json, CodecFault>(
            show(w),
        ),
{
    let full = put(header(e), e, w) + rest;
    put_extends(header(e), e, w);
    assert(full[1] == header(e)[1]) by {
        assert(full[1] == put(header(e), e, w).take(4)[1]);
    }
    lemma_message_reads_back(messages, m, w, header(e), rest, e, depth);
}

/// Decoding gives back what was encoded: the JSON form of what the encoded value is
/// as a message. The lengths in it must fit their prefixes, and no list may have
/// more elements than the bytes that follow its length.
pub proof fn decoding_inverts_encoding(env: Env, m: MessageModel, v: Json, w: Wire, depth: nat)
    requires
        resolve_message(env, m, v, Seq::empty(), depth) == Ok::<Wire, CodecFault>(w),
        lengths_fit(
            w,
            header(Endian::Little),
            Endian::Little,
            put(header(Endian::Little), Endian::Little, w).len(),
        ),
    ensures
        encodes_to(env, m, v, Ok(put(header(Endian::Little), Endian::Little, w))),
        decodes_to(
            env.messages,
            m,
            put(header(Endian::Little), Endian::Little, w),
            Ok(show(w)),
        ),
{
    let b = put(header(Endian::Little), Endian::Little, w);
    lemma_message_typed(env, m, v, Seq::empty(), depth);
    written_message_reads_back(env.messages, m, w, Seq::empty(), Endian::Little, depth);
    assert(b + Seq::<u8>::empty() =~= b);
    assert(encoding(env, m, v, depth) == Ok::<Seq<u8>, CodecFault>(b));
    assert(decoding(env.messages, m, b, depth) == Ok::<Json, CodecFault>(show(w)));
}

} // verus!
