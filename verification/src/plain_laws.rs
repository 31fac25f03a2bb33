//! Messages of numbers, booleans and strings come back as they went in.
use vstd::prelude::*;
use vstd::utf8::encode_utf8;
use crate::cdr::{header, lemma_byte_ranges, Endian};
use crate::datatype::{BaseModel, Multiplicity, Primitive};
use crate::float::{Float32, Float64};
use crate::float_laws::{narrowing_undoes_widening, widening_is_exact};
use crate::interface::{FieldModel, MessageModel};
use crate::json::{integer_number, Json, Number};
use crate::wide::wide_units;
use crate::wire::{
    decodes_to, encodes_to, integer_of, member_path, put, put_fields, range_of, resolve_fields,
    resolve_member, resolve_message, resolve_prim, resolve_scalar, show, show_fields, show_prim,
    CodecFault, Env, Wire,
};
use crate::wire_laws::{decoding_inverts_encoding, encoding_is_unique, lengths_fit};

verus! {

/// Whether a double is the value of a single.
pub open spec fn exact_in_single(f: Float64) -> bool {
    exists|g: Float32| g.exponent() < 255 && #[trigger] g.widened() == f
}

/// Whether a JSON value is a number, a boolean or a string that a base type holds as it is
/// written: an integer in the range of its type, a double that is exact in the precision of
/// its type, and a string whose length fits its prefix.
pub open spec fn held_as_written(base: BaseModel, v: Json) -> bool {
    match base {
        BaseModel::Primitive(Primitive::Bool) => v is Bool,
        BaseModel::Primitive(Primitive::Float32) => v matches Json::Number(Number::Float(f))
            && exact_in_single(f),
        BaseModel::Primitive(Primitive::Float64) => v matches Json::Number(Number::Float(f))
            && f.finite(),
        BaseModel::Primitive(p) => {
            &&& v matches Json::Number(n) && n.valid() && !(n is Float)
            &&& integer_of(v) matches Some(x) && range_of(p).0 <= x <= range_of(p).1
        },
        BaseModel::String(_) => v matches Json::String(s) && encode_utf8(s).len() + 1
            < 0x1_0000_0000,
        BaseModel::WString(_) => v matches Json::String(s) && wide_units(s).len() < 0x1_0000_0000,
        BaseModel::Message(_) => false,
    }
}

/// Whether an object has a value that is held as it is written for each field of a
/// message of single numbers, booleans and strings, and nothing else.
pub open spec fn plain_object(m: MessageModel, o: Map<Seq<char>, Json>) -> bool {
    &&& forall|i: int|
        0 <= i < m.fields.len() ==> {
            let f = #[trigger] m.fields[i];
            &&& f.ty.multiplicity == Multiplicity::Scalar
            &&& o.dom().contains(f.name)
            &&& held_as_written(f.ty.base, o[f.name])
        }
    &&& forall|k: Seq<char>| #[trigger]
        o.dom().contains(k) ==> exists|i: int|
            0 <= i < m.fields.len() && (#[trigger] m.fields[i]).name == k
}

/// Whether a value on the wire is shown as `v`, and its length can be told wherever it
/// stands.
pub open spec fn stands_for(w: Wire, v: Json) -> bool {
    &&& show(w) == v
    &&& w is Prim || (w matches Wire::Text(s) && encode_utf8(s).len() + 1 < 0x1_0000_0000) || (
    w matches Wire::Wide(s) && wide_units(s).len() < 0x1_0000_0000)
}

proof fn lemma_double_comes_back(p: Primitive, v: Json, path: Seq<char>)
    requires
        held_as_written(BaseModel::Primitive(p), v),
        p is Float32 || p is Float64,
    ensures
        resolve_prim(p, v, path) matches Ok(u) && show_prim(p, u) == v,
{
    let f = v->Number_0->Float_0;
    if p is Float32 {
        let g = choose|g: Float32| g.exponent() < 255 && #[trigger] g.widened() == f;
        narrowing_undoes_widening(g);
        widening_is_exact(g);
    }
}

proof fn lemma_integer_comes_back(p: Primitive, v: Json)
    requires
        held_as_written(BaseModel::Primitive(p), v),
        !(p is Bool),
        !(p is Float32),
        !(p is Float64),
    ensures
        v == Json::Number(integer_number(integer_of(v).unwrap())),
{
    match v {
        Json::Number(Number::PosInt(n)) => {},
        Json::Number(Number::NegInt(n)) => {},
        _ => {},
    }
}

pub proof fn lemma_scalar_comes_back(
    env: Env,
    base: BaseModel,
    v: Json,
    path: Seq<char>,
    depth: nat,
)
    requires
        held_as_written(base, v),
    ensures
        resolve_scalar(env, base, v, path, depth) matches Ok(w) && stands_for(w, v),
{
    lemma_byte_ranges();
    if let BaseModel::Primitive(p) = base {
        if p is Float32 || p is Float64 {
            lemma_double_comes_back(p, v, path);
        } else if !(p is Bool) {
            lemma_integer_comes_back(p, v);
        }
    }
}

proof fn lemma_member_comes_back(
    env: Env,
    m: MessageModel,
    f: FieldModel,
    o: Map<Seq<char>, Json>,
    path: Seq<char>,
    depth: nat,
)
    requires
        f.ty.multiplicity == Multiplicity::Scalar,
        o.dom().contains(f.name),
        held_as_written(f.ty.base, o[f.name]),
    ensures
        resolve_member(env, m, f, Json::Object(o), path, depth) matches Ok(w) && stands_for(
            w,
            o[f.name],
        ),
{
    lemma_scalar_comes_back(env, f.ty.base, o[f.name], member_path(path, f.name), depth);
}

/// Whether fields on the wire are the first fields of a message, each standing for its
/// member.
spec fn stand_for_members(
    done: Seq<(Seq<char>, Wire)>,
    m: MessageModel,
    o: Map<Seq<char>, Json>,
) -> bool {
    &&& done.len() <= m.fields.len()
    &&& forall|i: int|
        0 <= i < done.len() ==> (#[trigger] done[i]).0 == m.fields[i].name && stands_for(
            done[i].1,
            o[m.fields[i].name],
        )
}

proof fn lemma_fields_come_back(
    env: Env,
    m: MessageModel,
    o: Map<Seq<char>, Json>,
    done: Seq<(Seq<char>, Wire)>,
    path: Seq<char>,
    depth: nat,
)
    requires
        plain_object(m, o),
        stand_for_members(done, m, o),
    ensures
        resolve_fields(env, m, Json::Object(o), done.len(), done, path, depth) matches Ok(all)
            && all.len() == m.fields.len() && stand_for_members(all, m, o),
    decreases m.fields.len() - done.len(),
{
    if done.len() < m.fields.len() {
        let f = m.fields[done.len() as int];
        lemma_member_comes_back(env, m, f, o, path, depth);
        let w = resolve_member(env, m, f, Json::Object(o), path, depth)->Ok_0;
        let next = done.push((f.name, w));
        assert forall|i: int| 0 <= i < next.len() implies (#[trigger] next[i]).0 == m.fields[i].name
            && stands_for(next[i].1, o[m.fields[i].name]) by {
            if i < done.len() {
                assert(next[i] == done[i]);
            }
        }
        lemma_fields_come_back(env, m, o, next, path, depth);
    }
}

proof fn lemma_shown_members(
    v: Seq<(Seq<char>, Wire)>,
    m: MessageModel,
    o: Map<Seq<char>, Json>,
    k: Seq<char>,
)
    requires
        stand_for_members(v, m, o),
    ensures
        show_fields(v).dom().contains(k) <==> exists|i: int|
            0 <= i < v.len() && (#[trigger] m.fields[i]).name == k,
        show_fields(v).dom().contains(k) ==> show_fields(v)[k] == o[k],
    decreases v.len(),
{
    if v.len() > 0 {
        let t = v.drop_last();
        let n = v.len() - 1;
        assert(stand_for_members(t, m, o)) by {
            assert forall|i: int| 0 <= i < t.len() implies (#[trigger] t[i]).0 == m.fields[i].name
                && stands_for(t[i].1, o[m.fields[i].name]) by {
                assert(t[i] == v[i]);
            }
        }
        lemma_shown_members(t, m, o, k);
        assert(v[n].0 == m.fields[n].name);
        if show_fields(v).dom().contains(k) {
            if m.fields[n].name != k {
                let i = choose|i: int| 0 <= i < t.len() && (#[trigger] m.fields[i]).name == k;
                assert(0 <= i < v.len() && m.fields[i].name == k);
            }
        }
        if exists|i: int| 0 <= i < v.len() && (#[trigger] m.fields[i]).name == k {
            let i = choose|i: int| 0 <= i < v.len() && (#[trigger] m.fields[i]).name == k;
            if i < n {
                assert(0 <= i < t.len() && m.fields[i].name == k);
            }
        }
    }
}

/// A message of single numbers, booleans and strings is encoded, and decoding gives back
/// the very object that was encoded, up to the extremes of each type.
pub proof fn plain_message_comes_back(
    env: Env,
    m: MessageModel,
    o: Map<Seq<char>, Json>,
    r: Result<Seq<u8>, CodecFault>,
)
    requires
        plain_object(m, o),
    ensures
        exists|b: Seq<u8>| #[trigger] encodes_to(env, m, Json::Object(o), Ok(b)),
        encodes_to(env, m, Json::Object(o), r) ==> (r matches Ok(b) && decodes_to(
            env.messages,
            m,
            b,
            Ok(Json::Object(o)),
        )),
{
    let v = Json::Object(o);
    let empty = Seq::<(Seq<char>, Wire)>::empty();
    lemma_fields_come_back(env, m, o, empty, Seq::empty(), 0);
    let all = resolve_fields(env, m, v, 0, empty, Seq::empty(), 0)->Ok_0;
    let w = Wire::Record(all);
    assert(resolve_message(env, m, v, Seq::empty(), 0) == Ok::<Wire, CodecFault>(w));
    assert forall|k: Seq<char>| #[trigger]
        show_fields(all).dom().contains(k) == o.dom().contains(k) by {
        lemma_shown_members(all, m, o, k);
        if o.dom().contains(k) {
            let i = choose|i: int| 0 <= i < m.fields.len() && (#[trigger] m.fields[i]).name == k;
            assert(0 <= i < all.len() && m.fields[i].name == k);
        }
    }
    assert forall|k: Seq<char>| show_fields(all).dom().contains(k) implies #[trigger] show_fields(
        all,
    )[k] == o[k] by {
        lemma_shown_members(all, m, o, k);
    }
    assert(show_fields(all) =~= o);
    assert(show(w) == v);
    let e = Endian::Little;
    let b = put(header(e), e, w);
    assert(lengths_fit(w, header(e), e, b.len())) by {
        assert forall|i: int| 0 <= i < all.len() implies lengths_fit(
            (#[trigger] all[i]).1,
            put_fields(header(e), e, all.take(i)),
            e,
            b.len(),
        ) by {
            assert(stands_for(all[i].1, o[m.fields[i].name]));
        }
    }
    decoding_inverts_encoding(env, m, v, w, 0);
    assert(encodes_to(env, m, v, Ok(b)));
    if encodes_to(env, m, v, r) {
        encoding_is_unique(env, m, v, r, Ok(b));
    }
}

} // verus!
