//! Messages that nest without end.
//!
//! A message type that holds itself, directly or through others and without a
//! sequence in between, has no finite value. Where a message names no type of that
//! kind, directly or through others, every conversion of it settles.
use vstd::prelude::*;
use crate::cdr::{get_seq_len, get_string, get_uint, Endian};
use crate::datatype::{BaseModel, Multiplicity, TypeModel};
use crate::interface::{FieldModel, MessageModel};
use crate::json::{entries, Json, JsonValue};
use crate::registry::with_kind;
use crate::wide::{get_units_forward, get_wide};
use crate::wire::{
    announced, auto_stamp, decodes_to, decoding, default_field, default_items, default_scalar,
    encodes_to, encoding, item_path, member_of, member_path, message_of, resolve_field,
    resolve_fields, resolve_items, resolve_member, resolve_message, resolve_scalar, stamp_members,
    take_field, take_fields, take_items, take_message, take_scalar, timed, with_alias, CodecFault,
    Env, Wire,
};

verus! {

/// The message that a field holds at least once, whatever its value.
pub open spec fn held(messages: Map<Seq<char>, MessageModel>, ty: TypeModel) -> Option<
    MessageModel,
> {
    if ty.multiplicity == Multiplicity::Scalar || (ty.multiplicity matches Multiplicity::FixedArray(
        n,
    ) && n > 0) {
        match ty.base {
            BaseModel::Message(name) => match message_of(messages, name) {
                Ok(m) => Some(m),
                Err(_) => None,
            },
            _ => None,
        }
    } else {
        None
    }
}

/// Whether the messages that a message holds nest at most `d` deep.
pub open spec fn shallow(messages: Map<Seq<char>, MessageModel>, m: MessageModel, d: nat) -> bool
    decreases d,
{
    forall|i: int|
        #![trigger m.fields[i]]
        0 <= i < m.fields.len() ==> (held(messages, m.fields[i].ty) matches Some(sub) ==> d > 0
            && shallow(messages, sub, (d - 1) as nat))
}

/// Whether a set of names has the name of the message that a base type names, if that is
/// registered.
pub open spec fn named_in(
    messages: Map<Seq<char>, MessageModel>,
    base: BaseModel,
    r: Set<Seq<char>>,
) -> bool {
    base matches BaseModel::Message(name) ==> (messages.dom().contains(with_kind(name, "msg"@))
        ==> r.contains(with_kind(name, "msg"@)))
}

/// Whether a set of names has all registered messages that the fields of a message name.
pub open spec fn covers(
    messages: Map<Seq<char>, MessageModel>,
    r: Set<Seq<char>>,
    m: MessageModel,
) -> bool {
    forall|i: int|
        #![trigger m.fields[i]]
        0 <= i < m.fields.len() ==> named_in(messages, m.fields[i].ty.base, r)
}

/// Whether a set of names of registered messages has all messages that those name, and
/// they nest at most `top` deep.
pub open spec fn grounded_within(
    messages: Map<Seq<char>, MessageModel>,
    r: Set<Seq<char>>,
    top: nat,
) -> bool {
    forall|k: Seq<char>| #[trigger]
        r.contains(k) ==> messages.dom().contains(k) && shallow(messages, messages[k], top)
            && covers(messages, r, messages[k])
}

/// Whether no message that a message names, directly or through others, nests without
/// end.
pub open spec fn grounded(messages: Map<Seq<char>, MessageModel>, m: MessageModel) -> bool {
    exists|r: Set<Seq<char>>, top: nat| #[trigger]
        grounded_within(messages, r, top) && covers(messages, r, m)
}

/// What nests at most `d` deep nests at most `more` deep.
pub proof fn shallow_more(
    messages: Map<Seq<char>, MessageModel>,
    m: MessageModel,
    d: nat,
    more: nat,
)
    requires
        d <= more,
        shallow(messages, m, d),
    ensures
        shallow(messages, m, more),
    decreases d,
{
    assert forall|i: int|
        #![trigger m.fields[i]]
        0 <= i < m.fields.len() implies (held(messages, m.fields[i].ty) matches Some(sub) ==> more
        > 0 && shallow(messages, sub, (more - 1) as nat)) by {
        if let Some(sub) = held(messages, m.fields[i].ty) {
            shallow_more(messages, sub, (d - 1) as nat, (more - 1) as nat);
        }
    }
}

proof fn lemma_any_message(
    messages: Map<Seq<char>, MessageModel>,
    m: MessageModel,
    r: Set<Seq<char>>,
    top: nat,
)
    requires
        grounded_within(messages, r, top),
        covers(messages, r, m),
    ensures
        shallow(messages, m, top + 1),
{
}

/// The nested messages that are allowed for, where arrays nest `k` deep.
spec fn budget(k: nat, top: nat) -> nat
    decreases k,
{
    if k == 0 {
        0
    } else {
        budget((k - 1) as nat, top) + top + 2
    }
}

/// Whether arrays nest at most `k` deep in a value, which itself nests at most `j`
/// deep.
spec fn arrays(v: Json, k: nat, j: nat) -> bool
    decreases j,
{
    match v {
        Json::Array(a) => j > 0 && k > 0 && forall|i: int|
            0 <= i < a.len() ==> arrays(#[trigger] a[i], (k - 1) as nat, (j - 1) as nat),
        Json::Object(m) => j > 0 && forall|x: Seq<char>| #[trigger]
            m.dom().contains(x) ==> arrays(m[x], k, (j - 1) as nat),
        _ => true,
    }
}

proof fn lemma_timed(env: Env, name: Seq<char>, v: Json, k: nat, j: nat)
    requires
        arrays(v, k, j),
    ensures
        arrays(timed(env, name, v), k, j + 1),
{
    lemma_arrays_more(v, k, j, k, j + 1);
    lemma_stamp(env, k, j + 1);
    if let Json::Object(m) = v {
        let a = with_alias(m, "sec"@, "secs"@);
        let b = with_alias(a, "nanosec"@, "nsecs"@);
        assert forall|x: Seq<char>| #[trigger] b.dom().contains(x) implies arrays(b[x], k, j) by {
            if m.dom().contains(x) {
                lemma_arrays_more(m[x], k, (j - 1) as nat, k, j);
            }
            if m.dom().contains("secs"@) {
                lemma_arrays_more(m["secs"@], k, (j - 1) as nat, k, j);
            }
            if m.dom().contains("nsecs"@) {
                lemma_arrays_more(m["nsecs"@], k, (j - 1) as nat, k, j);
            }
        }
    }
}

proof fn lemma_stamp(env: Env, k: nat, j: nat)
    requires
        j > 0,
    ensures
        arrays(Json::Object(stamp_members(env.now)), k, j),
        arrays(Json::Object(Map::empty()), k, j),
{
    let m = stamp_members(env.now);
    assert forall|x: Seq<char>| #[trigger] m.dom().contains(x) implies arrays(
        m[x],
        k,
        (j - 1) as nat,
    ) by {
        assert(m[x] is Number);
    }
}

proof fn lemma_arrays_more(v: Json, k: nat, j: nat, k2: nat, j2: nat)
    requires
        arrays(v, k, j),
        k <= k2,
        j <= j2,
    ensures
        arrays(v, k2, j2),
    decreases j,
{
    match v {
        Json::Array(a) => {
            assert forall|i: int| 0 <= i < a.len() implies arrays(
                #[trigger] a[i],
                (k2 - 1) as nat,
                (j2 - 1) as nat,
            ) by {
                lemma_arrays_more(
                    a[i],
                    (k - 1) as nat,
                    (j - 1) as nat,
                    (k2 - 1) as nat,
                    (j2 - 1) as nat,
                );
            }
        },
        Json::Object(m) => {
            assert forall|x: Seq<char>| #[trigger] m.dom().contains(x) implies arrays(
                m[x],
                k2,
                (j2 - 1) as nat,
            ) by {
                lemma_arrays_more(m[x], k, (j - 1) as nat, k2, (j2 - 1) as nat);
            }
        },
        _ => {},
    }
}

/// How deep a value nests.
spec fn height(v: JsonValue) -> nat
    decreases v,
{
    match v {
        JsonValue::Array(a) => 1 + height_all(a@),
        JsonValue::Object(d) => 1 + height_entries(d.entries@),
        _ => 0,
    }
}

spec fn height_all(s: Seq<JsonValue>) -> nat
    decreases s,
{
    if s.len() == 0 {
        0
    } else {
        height(s.last()) + height_all(s.drop_last())
    }
}

spec fn height_entries(s: Seq<(String, JsonValue)>) -> nat
    decreases s,
{
    if s.len() == 0 {
        0
    } else {
        height(s[0].1) + height_entries(s.drop_first())
    }
}

proof fn lemma_height(v: JsonValue)
    ensures
        arrays(v@, height(v), height(v)),
    decreases v,
{
    match v {
        JsonValue::Array(a) => {
            let h = height_all(a@);
            lemma_height_all(a@);
            let b = v@->Array_0;
            assert forall|i: int| 0 <= i < b.len() implies arrays(#[trigger] b[i], h, h) by {
                assert(b[i] == a@[i]@);
            }
        },
        JsonValue::Object(d) => {
            let h = height_entries(d.entries@);
            lemma_height_entries(d.entries@);
            let m = v@->Object_0;
            assert forall|x: Seq<char>| #[trigger] m.dom().contains(x) implies arrays(
                m[x],
                (h + 1) as nat,
                h,
            ) by {
                assert(m == entries(d.entries@));
                assert(entries(d.entries@).dom().contains(x));
                lemma_arrays_more(m[x], h, h, (h + 1) as nat, h);
            }
        },
        _ => {},
    }
}

proof fn lemma_height_all(s: Seq<JsonValue>)
    ensures
        forall|i: int|
            0 <= i < s.len() ==> arrays((#[trigger] s[i])@, height_all(s), height_all(s)),
    decreases s,
{
    if s.len() > 0 {
        let h = height_all(s);
        lemma_height_all(s.drop_last());
        lemma_height(s.last());
        lemma_arrays_more(s.last()@, height(s.last()), height(s.last()), h, h);
        assert forall|i: int| 0 <= i < s.len() implies arrays((#[trigger] s[i])@, h, h) by {
            if i < s.len() - 1 {
                assert(s.drop_last()[i] == s[i]);
                let g = height_all(s.drop_last());
                lemma_arrays_more(s[i]@, g, g, h, h);
            }
        }
    }
}

proof fn lemma_height_entries(s: Seq<(String, JsonValue)>)
    ensures
        forall|x: Seq<char>| #[trigger]
            entries(s).dom().contains(x) ==> arrays(
                entries(s)[x],
                height_entries(s),
                height_entries(s),
            ),
    decreases s,
{
    if s.len() > 0 {
        let h = height_entries(s);
        let t = s.drop_first();
        lemma_height_entries(t);
        lemma_height(s[0].1);
        lemma_arrays_more(s[0].1@, height(s[0].1), height(s[0].1), h, h);
        assert forall|x: Seq<char>| #[trigger] entries(s).dom().contains(x) implies arrays(
            entries(s)[x],
            h,
            h,
        ) by {
            if x != s[0].0@ {
                assert(entries(t).dom().contains(x));
                lemma_arrays_more(entries(t)[x], height_entries(t), height_entries(t), h, h);
            }
        }
    }
}

/// Whether the message that a base type names nests less than `d` deep.
spec fn below(messages: Map<Seq<char>, MessageModel>, base: BaseModel, d: nat) -> bool {
    base matches BaseModel::Message(name) ==> (message_of(messages, name) matches Ok(m) ==> d > 0
        && shallow(messages, m, (d - 1) as nat))
}

proof fn lemma_registered(
    messages: Map<Seq<char>, MessageModel>,
    base: BaseModel,
    r: Set<Seq<char>>,
    top: nat,
)
    requires
        grounded_within(messages, r, top),
        named_in(messages, base, r),
    ensures
        below(messages, base, top + 1),
{
    if let BaseModel::Message(name) = base {
        assert(messages.dom().contains(with_kind(name, "msg"@)) ==> r.contains(
            with_kind(name, "msg"@),
        ));
    }
}

proof fn lemma_scalar_settles(
    env: Env,
    base: BaseModel,
    v: Json,
    path: Seq<char>,
    depth: nat,
    r: Set<Seq<char>>,
    top: nat,
    k: nat,
    j: nat,
    d: nat,
)
    requires
        grounded_within(env.messages, r, top),
        named_in(env.messages, base, r),
        below(env.messages, base, d),
        arrays(v, k, j),
        depth >= budget(k, top) + d,
    ensures
        resolve_scalar(env, base, v, path, depth) != Err::<Wire, CodecFault>(
            CodecFault::Unsettled,
        ),
    decreases depth, 0nat, 0nat,
{
    if let BaseModel::Message(name) = base {
        if let Ok(m) = message_of(env.messages, name) {
            lemma_timed(env, name, v, k, j);
            lemma_message_settles(
                env,
                m,
                timed(env, name, v),
                path,
                (depth - 1) as nat,
                r,
                top,
                k,
                j + 1,
                (d - 1) as nat,
            );
        }
    }
}

proof fn lemma_items_settle(
    env: Env,
    base: BaseModel,
    a: Seq<Json>,
    i: nat,
    done: Seq<Wire>,
    path: Seq<char>,
    depth: nat,
    r: Set<Seq<char>>,
    top: nat,
    k: nat,
    j: nat,
    d: nat,
)
    requires
        grounded_within(env.messages, r, top),
        named_in(env.messages, base, r),
        below(env.messages, base, d),
        forall|x: int| 0 <= x < a.len() ==> arrays(#[trigger] a[x], k, j),
        depth >= budget(k, top) + d,
    ensures
        resolve_items(env, base, a, i, done, path, depth) != Err::<Seq<Wire>, CodecFault>(
            CodecFault::Unsettled,
        ),
    decreases depth, 1nat, a.len() - i,
{
    if i < a.len() {
        lemma_scalar_settles(env, base, a[i as int], item_path(path, i), depth, r, top, k, j, d);
        if let Ok(w) = resolve_scalar(env, base, a[i as int], item_path(path, i), depth) {
            lemma_items_settle(env, base, a, i + 1, done.push(w), path, depth, r, top, k, j, d);
        }
    }
}

proof fn lemma_default_scalar_settles(
    env: Env,
    base: BaseModel,
    literal: Option<Seq<char>>,
    path: Seq<char>,
    auto: bool,
    depth: nat,
    r: Set<Seq<char>>,
    top: nat,
    d: nat,
)
    requires
        grounded_within(env.messages, r, top),
        named_in(env.messages, base, r),
        below(env.messages, base, d),
        depth >= d,
    ensures
        default_scalar(env, base, literal, path, auto, depth) != Err::<Wire, CodecFault>(
            CodecFault::Unsettled,
        ),
    decreases depth, 0nat, 0nat,
{
    if let BaseModel::Message(name) = base {
        if let Ok(m) = message_of(env.messages, name) {
            let v = if auto {
                Json::Object(stamp_members(env.now))
            } else {
                Json::Object(Map::empty())
            };
            lemma_stamp(env, 0, 1);
            lemma_message_settles(
                env,
                m,
                v,
                path,
                (depth - 1) as nat,
                r,
                top,
                0,
                1,
                (d - 1) as nat,
            );
        }
    }
}

proof fn lemma_default_items_settle(
    env: Env,
    base: BaseModel,
    n: nat,
    i: nat,
    done: Seq<Wire>,
    path: Seq<char>,
    depth: nat,
    r: Set<Seq<char>>,
    top: nat,
    d: nat,
)
    requires
        grounded_within(env.messages, r, top),
        named_in(env.messages, base, r),
        below(env.messages, base, d),
        depth >= d,
    ensures
        default_items(env, base, n, i, done, path, depth) != Err::<Seq<Wire>, CodecFault>(
            CodecFault::Unsettled,
        ),
    decreases depth, 1nat, n - i,
{
    if i < n {
        lemma_default_scalar_settles(env, base, None, item_path(path, i), false, depth, r, top, d);
        if let Ok(w) = default_scalar(env, base, None, item_path(path, i), false, depth) {
            lemma_default_items_settle(env, base, n, i + 1, done.push(w), path, depth, r, top, d);
        }
    }
}

proof fn lemma_field_settles(
    env: Env,
    ty: TypeModel,
    v: Json,
    path: Seq<char>,
    depth: nat,
    r: Set<Seq<char>>,
    top: nat,
    k: nat,
    j: nat,
    d: nat,
)
    requires
        grounded_within(env.messages, r, top),
        named_in(env.messages, ty.base, r),
        held(env.messages, ty) matches Some(m) ==> d > 0 && shallow(
            env.messages,
            m,
            (d - 1) as nat,
        ),
        arrays(v, k, j),
        depth >= budget(k, top) + d,
    ensures
        resolve_field(env, ty, v, path, depth) != Err::<Wire, CodecFault>(CodecFault::Unsettled),
    decreases depth, 2nat, 0nat,
{
    if ty.multiplicity == Multiplicity::Scalar {
        lemma_scalar_settles(env, ty.base, v, path, depth, r, top, k, j, d);
    } else if let Json::Array(a) = v {
        lemma_registered(env.messages, ty.base, r, top);
        lemma_items_settle(
            env,
            ty.base,
            a,
            0,
            Seq::empty(),
            path,
            depth,
            r,
            top,
            (k - 1) as nat,
            (j - 1) as nat,
            top + 1,
        );
    }
}

proof fn lemma_default_field_settles(
    env: Env,
    ty: TypeModel,
    literal: Option<Seq<char>>,
    path: Seq<char>,
    auto: bool,
    depth: nat,
    r: Set<Seq<char>>,
    top: nat,
    d: nat,
)
    requires
        grounded_within(env.messages, r, top),
        named_in(env.messages, ty.base, r),
        held(env.messages, ty) matches Some(m) ==> d > 0 && shallow(
            env.messages,
            m,
            (d - 1) as nat,
        ),
        depth >= d,
    ensures
        default_field(env, ty, literal, path, auto, depth) != Err::<Wire, CodecFault>(
            CodecFault::Unsettled,
        ),
    decreases depth, 2nat, 0nat,
{
    match ty.multiplicity {
        Multiplicity::Scalar => {
            lemma_default_scalar_settles(env, ty.base, literal, path, auto, depth, r, top, d);
        },
        Multiplicity::FixedArray(n) => {
            if n > 0 {
                lemma_default_items_settle(
                    env,
                    ty.base,
                    n as nat,
                    0,
                    Seq::empty(),
                    path,
                    depth,
                    r,
                    top,
                    d,
                );
            }
        },
        _ => {},
    }
}

proof fn lemma_member_settles(
    env: Env,
    m: MessageModel,
    f: FieldModel,
    v: Json,
    path: Seq<char>,
    depth: nat,
    r: Set<Seq<char>>,
    top: nat,
    k: nat,
    j: nat,
    d: nat,
)
    requires
        grounded_within(env.messages, r, top),
        named_in(env.messages, f.ty.base, r),
        held(env.messages, f.ty) matches Some(sub) ==> d > 0 && shallow(
            env.messages,
            sub,
            (d - 1) as nat,
        ),
        arrays(v, k, j),
        depth >= budget(k, top) + d,
    ensures
        resolve_member(env, m, f, v, path, depth) != Err::<Wire, CodecFault>(
            CodecFault::Unsettled,
        ),
    decreases depth, 3nat, 0nat,
{
    let given = member_of(v, f.name);
    let auto = auto_stamp(m, f, given);
    let fpath = member_path(path, f.name);
    if given is Some && !auto {
        lemma_field_settles(
            env,
            f.ty,
            given.unwrap(),
            fpath,
            depth,
            r,
            top,
            k,
            (j - 1) as nat,
            d,
        );
    } else {
        lemma_default_field_settles(env, f.ty, f.default, fpath, auto, depth, r, top, d);
    }
}

proof fn lemma_fields_settle(
    env: Env,
    m: MessageModel,
    v: Json,
    i: nat,
    done: Seq<(Seq<char>, Wire)>,
    path: Seq<char>,
    depth: nat,
    r: Set<Seq<char>>,
    top: nat,
    k: nat,
    j: nat,
    d: nat,
)
    requires
        grounded_within(env.messages, r, top),
        covers(env.messages, r, m),
        shallow(env.messages, m, d),
        arrays(v, k, j),
        depth >= budget(k, top) + d,
    ensures
        resolve_fields(env, m, v, i, done, path, depth) != Err::<
            Seq<(Seq<char>, Wire)>,
            CodecFault,
        >(CodecFault::Unsettled),
    decreases depth, 4nat, m.fields.len() - i,
{
    if i < m.fields.len() {
        let f = m.fields[i as int];
        lemma_member_settles(env, m, f, v, path, depth, r, top, k, j, d);
        if let Ok(w) = resolve_member(env, m, f, v, path, depth) {
            lemma_fields_settle(
                env,
                m,
                v,
                i + 1,
                done.push((f.name, w)),
                path,
                depth,
                r,
                top,
                k,
                j,
                d,
            );
        }
    }
}

proof fn lemma_message_settles(
    env: Env,
    m: MessageModel,
    v: Json,
    path: Seq<char>,
    depth: nat,
    r: Set<Seq<char>>,
    top: nat,
    k: nat,
    j: nat,
    d: nat,
)
    requires
        grounded_within(env.messages, r, top),
        covers(env.messages, r, m),
        shallow(env.messages, m, d),
        arrays(v, k, j),
        depth >= budget(k, top) + d,
    ensures
        resolve_message(env, m, v, path, depth) != Err::<Wire, CodecFault>(CodecFault::Unsettled),
    decreases depth, 5nat, 0nat,
{
    lemma_fields_settle(env, m, v, 0, Seq::empty(), path, depth, r, top, k, j, d);
}

/// Where no message that a message names nests without end, every JSON value is encoded
/// to something.
pub proof fn grounded_encoding_settles(env: Env, m: MessageModel, v: JsonValue)
    requires
        grounded(env.messages, m),
    ensures
        exists|x: Result<Seq<u8>, CodecFault>| #[trigger] encodes_to(env, m, v@, x),
{
    let (r, top) = choose|r: Set<Seq<char>>, top: nat| #[trigger]
        grounded_within(env.messages, r, top) && covers(env.messages, r, m);
    lemma_any_message(env.messages, m, r, top);
    lemma_height(v);
    let h = height(v);
    let depth = budget(h, top) + top + 1;
    lemma_message_settles(env, m, v@, Seq::empty(), depth, r, top, h, h, top + 1);
    assert(encodes_to(env, m, v@, encoding(env, m, v@, depth)));
}

proof fn lemma_uint_forward(data: Seq<u8>, pos: nat, e: Endian, n: nat)
    ensures
        get_uint(data, pos, e, n) matches (Ok(_), q) ==> pos + n <= q <= data.len(),
{
}

proof fn lemma_string_forward(data: Seq<u8>, pos: nat, e: Endian)
    ensures
        get_string(data, pos, e) matches (Ok(_), q) ==> pos <= q,
{
}

proof fn lemma_wide_forward(data: Seq<u8>, pos: nat, e: Endian)
    ensures
        get_wide(data, pos, e) matches (Ok(_), q) ==> pos <= q,
{
    lemma_uint_forward(data, pos, e, 4);
    if let (Ok(n), p) = get_uint(data, pos, e, 4) {
        get_units_forward(data, p, e, n, Seq::empty());
    }
}

proof fn lemma_scalar_forward(
    messages: Map<Seq<char>, MessageModel>,
    base: BaseModel,
    data: Seq<u8>,
    pos: nat,
    e: Endian,
    depth: nat,
)
    ensures
        take_scalar(messages, base, data, pos, e, depth) matches Ok((_, q)) ==> pos <= q,
    decreases depth, 0nat, 0nat,
{
    match base {
        BaseModel::Primitive(p) => {
            lemma_uint_forward(data, pos, e, p.width());
        },
        BaseModel::Message(name) => {
            if let Ok(m) = message_of(messages, name) {
                if depth > 0 {
                    reading_moves_forward(messages, m, data, pos, e, (depth - 1) as nat);
                }
            }
        },
        _ => {
            lemma_string_forward(data, pos, e);
            lemma_wide_forward(data, pos, e);
        },
    }
}

proof fn lemma_items_forward(
    messages: Map<Seq<char>, MessageModel>,
    base: BaseModel,
    n: nat,
    done: Seq<Wire>,
    data: Seq<u8>,
    pos: nat,
    e: Endian,
    depth: nat,
)
    ensures
        take_items(messages, base, n, done, data, pos, e, depth) matches Ok((_, q)) ==> pos <= q,
    decreases depth, 1nat, n,
{
    if n > 0 {
        lemma_scalar_forward(messages, base, data, pos, e, depth);
        if let Ok((w, q)) = take_scalar(messages, base, data, pos, e, depth) {
            lemma_items_forward(messages, base, (n - 1) as nat, done.push(w), data, q, e, depth);
        }
    }
}

proof fn lemma_field_forward(
    messages: Map<Seq<char>, MessageModel>,
    ty: TypeModel,
    data: Seq<u8>,
    pos: nat,
    e: Endian,
    depth: nat,
)
    ensures
        take_field(messages, ty, data, pos, e, depth) matches Ok((_, q)) ==> pos <= q,
    decreases depth, 2nat, 0nat,
{
    match ty.multiplicity {
        Multiplicity::Scalar => {
            lemma_scalar_forward(messages, ty.base, data, pos, e, depth);
        },
        Multiplicity::FixedArray(n) => {
            lemma_items_forward(messages, ty.base, n as nat, Seq::empty(), data, pos, e, depth);
        },
        _ => {
            lemma_uint_forward(data, pos, e, 4);
            if let (Ok(n), q) = get_seq_len(data, pos, e) {
                lemma_items_forward(messages, ty.base, n, Seq::empty(), data, q, e, depth);
            }
        },
    }
}

proof fn lemma_fields_forward(
    messages: Map<Seq<char>, MessageModel>,
    m: MessageModel,
    i: nat,
    done: Seq<(Seq<char>, Wire)>,
    data: Seq<u8>,
    pos: nat,
    e: Endian,
    depth: nat,
)
    ensures
        take_fields(messages, m, i, done, data, pos, e, depth) matches Ok((_, q)) ==> pos <= q,
    decreases depth, 3nat, m.fields.len() - i,
{
    if i < m.fields.len() {
        let f = m.fields[i as int];
        lemma_field_forward(messages, f.ty, data, pos, e, depth);
        if let Ok((w, q)) = take_field(messages, f.ty, data, pos, e, depth) {
            lemma_fields_forward(messages, m, i + 1, done.push((f.name, w)), data, q, e, depth);
        }
    }
}

/// Reading a message never moves back.
pub proof fn reading_moves_forward(
    messages: Map<Seq<char>, MessageModel>,
    m: MessageModel,
    data: Seq<u8>,
    pos: nat,
    e: Endian,
    depth: nat,
)
    ensures
        take_message(messages, m, data, pos, e, depth) matches Ok((_, q)) ==> pos <= q,
    decreases depth, 4nat, 0nat,
{
    lemma_fields_forward(messages, m, 0, Seq::empty(), data, pos, e, depth);
}

proof fn lemma_take_scalar_settles(
    messages: Map<Seq<char>, MessageModel>,
    base: BaseModel,
    data: Seq<u8>,
    pos: nat,
    e: Endian,
    depth: nat,
    r: Set<Seq<char>>,
    top: nat,
    k: nat,
    d: nat,
)
    requires
        grounded_within(messages, r, top),
        named_in(messages, base, r),
        below(messages, base, d),
        data.len() <= pos + k,
        depth >= budget(k, top) + d,
    ensures
        take_scalar(messages, base, data, pos, e, depth) != Err::<(Wire, nat), CodecFault>(
            CodecFault::Unsettled,
        ),
    decreases depth, 0nat, 0nat,
{
    if let BaseModel::Message(name) = base {
        if let Ok(m) = message_of(messages, name) {
            lemma_take_message_settles(
                messages,
                m,
                data,
                pos,
                e,
                (depth - 1) as nat,
                r,
                top,
                k,
                (d - 1) as nat,
            );
        }
    }
}

proof fn lemma_take_items_settle(
    messages: Map<Seq<char>, MessageModel>,
    base: BaseModel,
    n: nat,
    done: Seq<Wire>,
    data: Seq<u8>,
    pos: nat,
    e: Endian,
    depth: nat,
    r: Set<Seq<char>>,
    top: nat,
    k: nat,
    d: nat,
)
    requires
        grounded_within(messages, r, top),
        named_in(messages, base, r),
        below(messages, base, d),
        data.len() <= pos + k,
        depth >= budget(k, top) + d,
    ensures
        take_items(messages, base, n, done, data, pos, e, depth) != Err::<
            (Seq<Wire>, nat),
            CodecFault,
        >(CodecFault::Unsettled),
    decreases depth, 1nat, n,
{
    if n > 0 {
        lemma_take_scalar_settles(messages, base, data, pos, e, depth, r, top, k, d);
        lemma_scalar_forward(messages, base, data, pos, e, depth);
        if let Ok((w, q)) = take_scalar(messages, base, data, pos, e, depth) {
            lemma_take_items_settle(
                messages,
                base,
                (n - 1) as nat,
                done.push(w),
                data,
                q,
                e,
                depth,
                r,
                top,
                k,
                d,
            );
        }
    }
}

proof fn lemma_take_field_settles(
    messages: Map<Seq<char>, MessageModel>,
    ty: TypeModel,
    data: Seq<u8>,
    pos: nat,
    e: Endian,
    depth: nat,
    r: Set<Seq<char>>,
    top: nat,
    k: nat,
    d: nat,
)
    requires
        grounded_within(messages, r, top),
        named_in(messages, ty.base, r),
        held(messages, ty) matches Some(m) ==> d > 0 && shallow(messages, m, (d - 1) as nat),
        data.len() <= pos + k,
        depth >= budget(k, top) + d,
    ensures
        take_field(messages, ty, data, pos, e, depth) != Err::<(Wire, nat), CodecFault>(
            CodecFault::Unsettled,
        ),
    decreases depth, 2nat, 0nat,
{
    match ty.multiplicity {
        Multiplicity::Scalar => {
            lemma_take_scalar_settles(messages, ty.base, data, pos, e, depth, r, top, k, d);
        },
        Multiplicity::FixedArray(n) => {
            if n > 0 {
                lemma_take_items_settle(
                    messages,
                    ty.base,
                    n as nat,
                    Seq::empty(),
                    data,
                    pos,
                    e,
                    depth,
                    r,
                    top,
                    k,
                    d,
                );
            }
        },
        _ => {
            lemma_uint_forward(data, pos, e, 4);
            if let (Ok(n), q) = get_seq_len(data, pos, e) {
                lemma_registered(messages, ty.base, r, top);
                lemma_take_items_settle(
                    messages,
                    ty.base,
                    n,
                    Seq::empty(),
                    data,
                    q,
                    e,
                    depth,
                    r,
                    top,
                    (k - 1) as nat,
                    top + 1,
                );
            }
        },
    }
}

proof fn lemma_take_fields_settle(
    messages: Map<Seq<char>, MessageModel>,
    m: MessageModel,
    i: nat,
    done: Seq<(Seq<char>, Wire)>,
    data: Seq<u8>,
    pos: nat,
    e: Endian,
    depth: nat,
    r: Set<Seq<char>>,
    top: nat,
    k: nat,
    d: nat,
)
    requires
        grounded_within(messages, r, top),
        covers(messages, r, m),
        shallow(messages, m, d),
        data.len() <= pos + k,
        depth >= budget(k, top) + d,
    ensures
        take_fields(messages, m, i, done, data, pos, e, depth) != Err::<
            (Seq<(Seq<char>, Wire)>, nat),
            CodecFault,
        >(CodecFault::Unsettled),
    decreases depth, 3nat, m.fields.len() - i,
{
    if i < m.fields.len() {
        let f = m.fields[i as int];
        lemma_take_field_settles(messages, f.ty, data, pos, e, depth, r, top, k, d);
        lemma_field_forward(messages, f.ty, data, pos, e, depth);
        if let Ok((w, q)) = take_field(messages, f.ty, data, pos, e, depth) {
            lemma_take_fields_settle(
                messages,
                m,
                i + 1,
                done.push((f.name, w)),
                data,
                q,
                e,
                depth,
                r,
                top,
                k,
                d,
            );
        }
    }
}

proof fn lemma_take_message_settles(
    messages: Map<Seq<char>, MessageModel>,
    m: MessageModel,
    data: Seq<u8>,
    pos: nat,
    e: Endian,
    depth: nat,
    r: Set<Seq<char>>,
    top: nat,
    k: nat,
    d: nat,
)
    requires
        grounded_within(messages, r, top),
        covers(messages, r, m),
        shallow(messages, m, d),
        data.len() <= pos + k,
        depth >= budget(k, top) + d,
    ensures
        take_message(messages, m, data, pos, e, depth) != Err::<(Wire, nat), CodecFault>(
            CodecFault::Unsettled,
        ),
    decreases depth, 4nat, 0nat,
{
    lemma_take_fields_settle(messages, m, 0, Seq::empty(), data, pos, e, depth, r, top, k, d);
}

/// Where no message that a message names nests without end, every buffer is decoded to
/// something.
pub proof fn grounded_decoding_settles(
    messages: Map<Seq<char>, MessageModel>,
    m: MessageModel,
    bytes: Seq<u8>,
)
    requires
        grounded(messages, m),
    ensures
        exists|x: Result<Json, CodecFault>| #[trigger] decodes_to(messages, m, bytes, x),
{
    let (r, top) = choose|r: Set<Seq<char>>, top: nat| #[trigger]
        grounded_within(messages, r, top) && covers(messages, r, m);
    lemma_any_message(messages, m, r, top);
    let k = bytes.len();
    let depth = budget(k, top) + top + 1;
    if let Some(e) = announced(bytes) {
        lemma_take_message_settles(messages, m, bytes.skip(4), 0, e, depth, r, top, k, top + 1);
    }
    assert(decodes_to(messages, m, bytes, decoding(messages, m, bytes, depth)));
}

} // verus!
