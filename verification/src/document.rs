//! JSON values as `serde_json` documents, which are written as text and as CBOR.
use vstd::prelude::*;
use vstd::utf8::encode_utf8;
use crate::cdr::{uint_bytes, Endian};
use crate::dict::{lemma_dict_dom, lemma_dict_first, no_key, Dict};
use crate::float::Float64;
use crate::json::{
    empty_has_no_members, entries, json_of, lemma_array, lemma_entries_dict, lemma_members, members,
    set_member, views, Json, JsonValue, Number,
};
use crate::outgoing::{status, Status, StatusLevel};
use crate::text::concat2;

verus! {

/// A `serde_json` value.
#[verifier::external_type_specification]
#[verifier::external_body]
pub struct ExDocument(serde_json::Value);

/// What a `serde_json` value holds.
pub uninterp spec fn content(doc: serde_json::Value) -> Json;

/// What the values of a list hold.
pub open spec fn contents(docs: Seq<serde_json::Value>) -> Seq<Json> {
    Seq::new(docs.len(), |i: int| content(docs[i]))
}

/// `serde_json::Value::Null` holds null.
#[verifier::external_body]
fn null_document() -> (r: serde_json::Value)
    ensures
        content(r) == Json::Null,
{
    serde_json::Value::Null
}

/// `serde_json::Value::from` of a boolean holds that boolean.
#[verifier::external_body]
fn bool_document(b: bool) -> (r: serde_json::Value)
    ensures
        content(r) == Json::Bool(b),
{
    serde_json::Value::from(b)
}

/// `serde_json::Value::from` of an unsigned integer holds that integer.
#[verifier::external_body]
fn unsigned_document(n: u64) -> (r: serde_json::Value)
    ensures
        content(r) == Json::Number(Number::PosInt(n)),
{
    serde_json::Value::from(n)
}

/// `serde_json::Value::from` of a signed integer holds that integer; here it is a
/// negative one.
#[verifier::external_body]
fn negative_document(n: i64) -> (r: serde_json::Value)
    requires
        n < 0,
    ensures
        content(r) == Json::Number(Number::NegInt(n)),
{
    serde_json::Value::from(n)
}

/// What CBOR bytes are read as, or the words in which they are refused.
pub uninterp spec fn cbor_reading(bytes: Seq<u8>) -> Result<Json, Seq<char>>;

/// The CBOR item of a double: the byte `0xfb` and then the bits of the double, most
/// significant byte first.
pub open spec fn double_item(f: Float64) -> Seq<u8> {
    seq![0xfbu8] + uint_bytes(f.bits as nat, 8, Endian::Big)
}

/// `ciborium::from_reader` of a byte slice, into a `serde_json` value. What it reads,
/// or in which words it refuses, depends on the bytes alone. The item of a finite
/// double is read as a number that holds it.
#[verifier::external_body]
fn read_cbor(data: &[u8]) -> (r: Result<serde_json::Value, String>)
    ensures
        match r {
            Ok(doc) => cbor_reading(data@) == Ok::<Json, Seq<char>>(content(doc)),
            Err(e) => cbor_reading(data@) == Err::<Json, Seq<char>>(e@),
        },
        forall|f: Float64|
            f.finite() && data@ == #[trigger] double_item(f) ==> (r is Ok && content(r->Ok_0)
                == Json::Number(Number::Float(f))),
{
    ciborium::from_reader(data).map_err(|e| e.to_string())
}

/// `serde_json::Value::from` of a string holds that string.
#[verifier::external_body]
fn text_document(s: &str) -> (r: serde_json::Value)
    ensures
        content(r) == Json::String(s@),
{
    serde_json::Value::from(s)
}

/// `serde_json::Value::from` of a vector holds what the elements hold.
#[verifier::external_body]
fn array_document(docs: Vec<serde_json::Value>) -> (r: serde_json::Value)
    ensures
        content(r) == Json::Array(contents(docs@)),
{
    serde_json::Value::from(docs)
}

/// `serde_json::Value::from` of the empty `serde_json::Map` holds an object without
/// members.
#[verifier::external_body]
fn object_document() -> (r: serde_json::Value)
    ensures
        content(r) == Json::Object(Map::empty()),
{
    serde_json::Value::from(serde_json::Map::new())
}

/// `serde_json::Map::insert`, on the map of an object: the object holds the new
/// member, in the place of one with the same key.
#[verifier::external_body]
fn insert_document(object: &mut serde_json::Value, key: &str, doc: serde_json::Value)
    requires
        content(*old(object)) is Object,
    ensures
        content(*final(object)) == Json::Object(
            content(*old(object))->Object_0.insert(key@, content(doc)),
        ),
{
    if let Some(map) = object.as_object_mut() {
        map.insert(key.to_string(), doc);
    }
}

/// The JSON text of a value.
pub uninterp spec fn json_text(v: Json) -> Seq<char>;

/// `serde_json::to_string`: a `serde_json` value is always written, and the text
/// depends on what the value holds alone.
#[verifier::external_body]
fn write_text(doc: &serde_json::Value) -> (r: Option<String>)
    ensures
        r is Some,
        r.unwrap()@ == json_text(content(*doc)),
{
    serde_json::to_string(doc).ok()
}

/// The CBOR bytes of a value.
pub uninterp spec fn cbor_bytes(v: Json) -> Seq<u8>;

/// How deep arrays and objects can be nested in what is read as CBOR.
pub const MAX_CBOR_DEPTH: u64 = 256;

/// How many bytes the keys of objects can have in what is read as CBOR.
pub const MAX_CBOR_KEY: u64 = 4096;

/// Whether a value is nested at most `depth` deep, with keys that are not too long to
/// be read as CBOR.
pub open spec fn cbor_readable(v: Json, depth: nat) -> bool
    decreases depth,
{
    match v {
        Json::Array(a) => depth > 0 && forall|i: int|
            0 <= i < a.len() ==> cbor_readable(#[trigger] a[i], (depth - 1) as nat),
        Json::Object(m) => depth > 0 && forall|k: Seq<char>| #[trigger]
            m.dom().contains(k) ==> encode_utf8(k).len() <= MAX_CBOR_KEY && cbor_readable(
                m[k],
                (depth - 1) as nat,
            ),
        _ => true,
    }
}

/// Whether CBOR bytes are read as a value, if that can be read at all.
pub open spec fn reads_back(bytes: Seq<u8>, v: Json) -> bool {
    cbor_readable(v, MAX_CBOR_DEPTH as nat) ==> cbor_reading(bytes) == Ok::<Json, Seq<char>>(v)
}

/// `ciborium::into_writer` to a vector: a `serde_json` value is always written, and
/// the bytes depend on what the value holds alone. `ciborium::from_reader` reads the
/// value back from them, where it is not nested deeper than that reads and has no key
/// longer than its buffer.
#[verifier::external_body]
fn write_cbor(doc: &serde_json::Value) -> (r: Option<Vec<u8>>)
    ensures
        r is Some,
        r.unwrap()@ == cbor_bytes(content(*doc)),
        reads_back(r.unwrap()@, content(*doc)),
{
    let mut out = Vec::with_capacity(256);
    ciborium::into_writer(doc, &mut out).ok().map(|_| out)
}

/// What is done about what came of reading a binary frame: the document that it holds,
/// or the words in which it is refused.
pub fn binary_document(read: Result<serde_json::Value, String>) -> (r: Result<
    serde_json::Value,
    Status,
>)
    ensures
        match read {
            Ok(doc) => r == Ok::<serde_json::Value, Status>(doc),
            Err(e) => r is Err && r->Err_0@ == status(
                StatusLevel::Error,
                "invalid CBOR: "@ + e@,
                None,
            ),
        },
{
    match read {
        Ok(doc) => Ok(doc),
        Err(e) => Err(Status::error(concat2("invalid CBOR: ", e.as_str()).as_str(), None)),
    }
}

/// The document that a binary frame holds.
pub fn from_cbor(data: &[u8]) -> (r: Result<serde_json::Value, Status>)
    ensures
        match cbor_reading(data@) {
            Ok(v) => r is Ok && content(r->Ok_0) == v,
            Err(e) => r is Err && r->Err_0@ == status(
                StatusLevel::Error,
                "invalid CBOR: "@ + e,
                None,
            ),
        },
{
    binary_document(read_cbor(data))
}

/// Whether every number in a value is finite, as JSON has it.
pub open spec fn finite_json(v: Json) -> bool
    decreases v,
{
    match v {
        Json::Number(n) => n.valid(),
        Json::Array(a) => forall|i: int| 0 <= i < a.len() ==> finite_json(#[trigger] a[i]),
        Json::Object(m) => forall|k: Seq<char>| #[trigger]
            m.dom().contains(k) ==> finite_json(m[k]),
        Json::Null => true,
        Json::Bool(_) => true,
        Json::String(_) => true,
    }
}

/// The elements of an array of finite numbers.
pub proof fn finite_item(a: Seq<Json>, i: int)
    requires
        finite_json(Json::Array(a)),
        0 <= i < a.len(),
    ensures
        finite_json(a[i]),
{
    let v = Json::Array(a);
    assert(v->Array_0 == a);
    assert(finite_json(v->Array_0[i]));
}

/// The members of an object of finite numbers.
pub proof fn finite_member(m: Map<Seq<char>, Json>, k: Seq<char>)
    requires
        finite_json(Json::Object(m)),
        m.dom().contains(k),
    ensures
        finite_json(m[k]),
{
    let v = Json::Object(m);
    assert(v->Object_0 == m);
    assert(v->Object_0.dom().contains(k));
}

fn write_double(f: Float64) -> (r: Vec<u8>)
    ensures
        r@ == double_item(f),
{
    let mut w = crate::cdr::CdrWriter::new(Endian::Big);
    w.write_f64(f);
    let bytes = w.into_bytes();
    proof {
        crate::cdr::le_bytes_have_value(f.bits as nat, 8);
    }
    let mut item: Vec<u8> = Vec::new();
    item.push(0xfb);
    let ghost number = uint_bytes(f.bits as nat, 8, Endian::Big);
    assert(number.len() == 8);
    assert(bytes@.len() == 12);
    assert(bytes@.skip(4) =~= number);
    for i in 4..12
        invariant
            bytes@.len() == 12,
            bytes@.skip(4) == number,
            item@ == seq![0xfbu8] + number.take(i - 4),
    {
        item.push(bytes[i]);
        assert(bytes@[i as int] == number[i - 4]);
        assert(item@ =~= seq![0xfbu8] + number.take(i - 3));
    }
    assert(number.take(8) =~= number);
    item
}

/// The `serde_json` value that holds a value.
pub fn to_document(v: &JsonValue) -> (r: serde_json::Value)
    requires
        finite_json(v@),
    ensures
        content(r) == v@,
    decreases v,
{
    match v {
        JsonValue::Null => null_document(),
        JsonValue::Bool(b) => bool_document(*b),
        JsonValue::Number(Number::PosInt(n)) => unsigned_document(*n),
        JsonValue::Number(Number::NegInt(n)) => negative_document(*n),
        JsonValue::Number(Number::Float(f)) => {
            let item = write_double(*f);
            match read_cbor(item.as_slice()) {
                Ok(doc) => doc,
                Err(_) => null_document(),
            }
        },
        JsonValue::String(s) => text_document(s.as_str()),
        JsonValue::Array(a) => {
            proof {
                lemma_array(*a);
            }
            let mut docs: Vec<serde_json::Value> = Vec::new();
            for i in 0..a.len()
                invariant
                    *v == JsonValue::Array(*a),
                    v@ == Json::Array(views(a@)),
                    finite_json(v@),
                    docs@.len() == i,
                    contents(docs@) == views(a@).take(i as int),
            {
                proof {
                    assert(decreases_to!(v => v->Array_0));
                    assert(decreases_to!(*a => a@));
                    assert(decreases_to!(a@ => a@[i as int]));
                    finite_item(views(a@), i as int);
                }
                let ghost before = docs@;
                let doc = to_document(&a[i]);
                docs.push(doc);
                assert(contents(docs@) =~= contents(before).push(content(doc)));
                assert(contents(docs@) =~= views(a@).take(i as int + 1));
            }
            assert(views(a@).take(a@.len() as int) =~= views(a@));
            array_document(docs)
        },
        JsonValue::Object(d) => {
            let mut object = object_document();
            assert(d.entries@.take(0) =~= Seq::empty());
            for i in 0..d.entries.len()
                invariant
                    *v == JsonValue::Object(*d),
                    finite_json(v@),
                    content(object) == Json::Object(entries(d.entries@.take(i as int))),
            {
                let key = d.entries[i].0.as_str();
                let first = match d.position(key) {
                    Some(p) => p == i,
                    None => false,
                };
                proof {
                    let s = d.entries@.take(i as int);
                    lemma_entries_push(s, d.entries@[i as int]);
                    assert(s.push(d.entries@[i as int]) =~= d.entries@.take(i as int + 1));
                    lemma_entries_has(s, key@);
                }
                if first {
                    proof {
                        assert(decreases_to!(v => v->Object_0));
                        assert(decreases_to!(*d => d.entries));
                        assert(decreases_to!(d.entries => d.entries@));
                        assert(decreases_to!(d.entries@ => d.entries@[i as int]));
                        lemma_dict_first(d.entries@, i as int, key@);
                        lemma_members(*d, key@);
                        finite_member(members(*d), key@);
                        assert forall|j: int| 0 <= j < i implies (#[trigger] d.entries@.take(
                            i as int,
                        )[j]).0@ != key@ by {
                            assert(d.entries@[j].0@ != key@);
                        }
                    }
                    let doc = to_document(&d.entries[i].1);
                    insert_document(&mut object, key, doc);
                } else {
                    proof {
                        if no_key(d.entries@.take(i as int), i as int, key@) {
                            assert forall|j: int| 0 <= j < i implies (#[trigger] d.entries@[j]).0@
                                != key@ by {
                                assert(d.entries@.take(i as int)[j] == d.entries@[j]);
                            }
                        }
                    }
                }
            }
            assert(d.entries@.take(d.entries@.len() as int) =~= d.entries@);
            object
        },
    }
}

proof fn lemma_entries_push(s: Seq<(String, JsonValue)>, e: (String, JsonValue))
    ensures
        entries(s.push(e)) == if entries(s).dom().contains(e.0@) {
            entries(s)
        } else {
            entries(s).insert(e.0@, json_of(e.1))
        },
    decreases s.len(),
{
    let u = s.push(e);
    if s.len() == 0 {
        assert(u.drop_first() =~= s);
    } else {
        let t = s.drop_first();
        assert(u.drop_first() =~= t.push(e));
        lemma_entries_push(t, e);
        assert(entries(u) =~= if entries(s).dom().contains(e.0@) {
            entries(s)
        } else {
            entries(s).insert(e.0@, json_of(e.1))
        });
    }
}

proof fn lemma_entries_has(s: Seq<(String, JsonValue)>, k: Seq<char>)
    ensures
        entries(s).dom().contains(k) <==> !no_key(s, s.len() as int, k),
{
    lemma_dict_dom(s, k);
    lemma_entries_dict(s, k);
}

/// The JSON text of a value.
pub fn to_text(v: &JsonValue) -> (r: String)
    requires
        finite_json(v@),
    ensures
        r@ == json_text(v@),
{
    match write_text(&to_document(v)) {
        Some(s) => s,
        None => String::new(),
    }
}

/// The CBOR bytes of a value. The value is read back from them where it is not nested
/// too deep and has no key that is too long.
pub fn to_cbor_bytes(v: &JsonValue) -> (r: Vec<u8>)
    requires
        finite_json(v@),
    ensures
        r@ == cbor_bytes(v@),
        reads_back(r@, v@),
{
    match write_cbor(&to_document(v)) {
        Some(b) => b,
        None => Vec::new(),
    }
}

/// An object with a new member, where both are of finite numbers.
pub proof fn finite_insert(m: Map<Seq<char>, Json>, k: Seq<char>, v: Json)
    requires
        finite_json(Json::Object(m)),
        finite_json(v),
    ensures
        finite_json(Json::Object(m.insert(k, v))),
{
    let o = Json::Object(m.insert(k, v));
    assert(o->Object_0 == m.insert(k, v));
    assert forall|x: Seq<char>| #[trigger] o->Object_0.dom().contains(x) implies finite_json(
        o->Object_0[x],
    ) by {
        if x != k {
            finite_member(m, x);
        }
    }
}

/// An operation under construction: an object with the member `op`.
pub struct Operation {
    members: Dict<JsonValue>,
}

/// The members of an operation without its parameters.
pub open spec fn op(name: Seq<char>) -> Map<Seq<char>, Json> {
    Map::<Seq<char>, Json>::empty().insert("op"@, Json::String(name))
}

impl View for Operation {
    type V = Map<Seq<char>, Json>;

    closed spec fn view(&self) -> Map<Seq<char>, Json> {
        members(self.members)
    }
}

impl Operation {
    /// The operation's numbers are finite.
    pub open spec fn wf(&self) -> bool {
        finite_json(Json::Object(self@))
    }

    /// An operation without parameters.
    pub fn new(name: &str) -> (r: Self)
        ensures
            r.wf(),
            r@ == op(name@),
    {
        let mut d: Dict<JsonValue> = Dict::new();
        proof {
            empty_has_no_members(d);
            assert(finite_json(Json::Object(Map::empty())));
            finite_insert(Map::empty(), "op"@, Json::String(name@));
        }
        set_member(&mut d, "op", JsonValue::text(name));
        Operation { members: d }
    }

    /// The operation with a further parameter.
    pub fn with(self, key: &str, value: JsonValue) -> (r: Self)
        requires
            self.wf(),
            finite_json(value@),
        ensures
            r.wf(),
            r@ == self@.insert(key@, value@),
    {
        proof {
            finite_insert(self@, key@, value@);
        }
        let mut d = self.members;
        set_member(&mut d, key, value);
        Operation { members: d }
    }

    /// The operation as a value.
    pub fn value(self) -> (r: JsonValue)
        ensures
            r@ == Json::Object(self@),
    {
        JsonValue::Object(self.members)
    }

    /// The operation as JSON text.
    pub fn text(self) -> (r: String)
        requires
            self.wf(),
        ensures
            r@ == json_text(Json::Object(self@)),
    {
        to_text(&self.value())
    }
}

} // verus!
