//! JSON values, with the number and object rules of the wire.
use vstd::prelude::*;
use crate::dict::Dict;
use crate::float::Float64;
use crate::text::optional;

verus! {

/// A JSON number: an integer where it was written as one, else a finite double.
#[derive(Debug, Clone, Copy, PartialEq, Eq, Structural)]
pub enum Number {
    /// An integer that is not negative.
    PosInt(u64),
    /// A negative integer.
    NegInt(i64),
    /// Any other number.
    Float(Float64),
}

/// A JSON value.
#[derive(Debug, PartialEq)]
pub enum JsonValue {
    Null,
    Bool(bool),
    Number(Number),
    String(String),
    Array(Vec<JsonValue>),
    Object(Dict<JsonValue>),
}

/// A JSON value as mathematics: an object is a map from keys to values.
pub ghost enum Json {
    Null,
    Bool(bool),
    Number(Number),
    String(Seq<char>),
    Array(Seq<Json>),
    Object(Map<Seq<char>, Json>),
}

/// The map that a list of entries stands for: the first entry of a key counts.
pub open spec fn entries(s: Seq<(String, JsonValue)>) -> Map<Seq<char>, Json>
    decreases s,
{
    if s.len() == 0 {
        Map::empty()
    } else {
        entries(s.drop_first()).insert(s[0].0@, json_of(s[0].1))
    }
}

/// What a value stands for.
pub open spec fn json_of(v: JsonValue) -> Json
    decreases v,
{
    match v {
        JsonValue::Null => Json::Null,
        JsonValue::Bool(b) => Json::Bool(b),
        JsonValue::Number(n) => Json::Number(n),
        JsonValue::String(s) => Json::String(s@),
        JsonValue::Array(a) => Json::Array(
            Seq::new(
                a@.len(),
                |i: int|
                    if 0 <= i < a@.len() {
                        json_of(a@[i])
                    } else {
                        Json::Null
                    },
            ),
        ),
        JsonValue::Object(d) => Json::Object(entries(d.entries@)),
    }
}

impl View for JsonValue {
    type V = Json;

    open spec fn view(&self) -> Json {
        json_of(*self)
    }
}

/// The members of an object.
pub open spec fn members(d: Dict<JsonValue>) -> Map<Seq<char>, Json> {
    entries(d.entries@)
}

/// The members of an object are its entries, each taken by its view.
pub proof fn lemma_members(d: Dict<JsonValue>, k: Seq<char>)
    ensures
        members(d).dom().contains(k) <==> d@.dom().contains(k),
        d@.dom().contains(k) ==> members(d)[k] == d@[k]@,
{
    lemma_entries_dict(d.entries@, k);
}

/// Entries by their views are entries, each taken by its view.
pub proof fn lemma_entries_dict(s: Seq<(String, JsonValue)>, k: Seq<char>)
    ensures
        entries(s).dom().contains(k) <==> crate::dict::dict_map(s).dom().contains(k),
        crate::dict::dict_map(s).dom().contains(k) ==> entries(s)[k] == crate::dict::dict_map(
            s,
        )[k]@,
    decreases s.len(),
{
    if s.len() > 0 {
        lemma_entries_dict(s.drop_first(), k);
    }
}

/// An empty dictionary has no members.
pub proof fn empty_has_no_members(d: Dict<JsonValue>)
    requires
        d@ == Map::<Seq<char>, JsonValue>::empty(),
    ensures
        members(d) == Map::<Seq<char>, Json>::empty(),
{
    assert forall|k: Seq<char>| !(#[trigger] members(d).dom().contains(k)) by {
        lemma_members(d, k);
    }
    assert(members(d) =~= Map::empty());
}

/// The view of a list of values.
pub open spec fn views(v: Seq<JsonValue>) -> Seq<Json> {
    Seq::new(v.len(), |i: int| v[i]@)
}

/// The elements of an array are the views of what it holds.
pub proof fn lemma_array(v: Vec<JsonValue>)
    ensures
        JsonValue::Array(v)@ == Json::Array(views(v@)),
{
    assert(JsonValue::Array(v)@->Array_0 =~= views(v@));
}

/// The number that an integer is written as.
pub open spec fn integer_number(x: int) -> Number {
    if x < 0 {
        Number::NegInt(x as i64)
    } else {
        Number::PosInt(x as u64)
    }
}

impl Number {
    /// Whether the number is finite, and negative where it is held as a negative
    /// integer.
    pub open spec fn valid(self) -> bool {
        match self {
            Number::PosInt(_) => true,
            Number::NegInt(n) => n < 0,
            Number::Float(f) => f.finite(),
        }
    }

    /// The number as a signed 64-bit integer, where it is written as one that fits.
    pub open spec fn signed(self) -> Option<int> {
        match self {
            Number::PosInt(n) => if n <= i64::MAX {
                Some(n as int)
            } else {
                None
            },
            Number::NegInt(n) => Some(n as int),
            Number::Float(_) => None,
        }
    }

    /// The number as an unsigned 64-bit integer, where it is written as one.
    pub open spec fn unsigned(self) -> Option<nat> {
        match self {
            Number::PosInt(n) => Some(n as nat),
            _ => None,
        }
    }

    /// The number as a double: the nearest one.
    pub open spec fn double(self) -> Float64 {
        match self {
            Number::PosInt(n) => Float64::of_nat(n as nat),
            Number::NegInt(n) => Float64::of_int(n as int),
            Number::Float(f) => f,
        }
    }

    pub fn as_i64(self) -> (r: Option<i64>)
        ensures
            match self.signed() {
                Some(x) => r matches Some(y) && y == x,
                None => r is None,
            },
    {
        match self {
            Number::PosInt(n) => if n <= i64::MAX as u64 {
                Some(n as i64)
            } else {
                None
            },
            Number::NegInt(n) => Some(n),
            Number::Float(_) => None,
        }
    }

    pub fn as_u64(self) -> (r: Option<u64>)
        ensures
            match self.unsigned() {
                Some(x) => r matches Some(y) && y == x,
                None => r is None,
            },
    {
        match self {
            Number::PosInt(n) => Some(n),
            _ => None,
        }
    }

    pub fn as_double(self) -> (r: Float64)
        ensures
            r == self.double(),
    {
        match self {
            Number::PosInt(n) => Float64::from_u64(n),
            Number::NegInt(n) => Float64::from_i64(n),
            Number::Float(f) => f,
        }
    }
}

impl JsonValue {
    /// The value that a signed integer is written as.
    pub fn from_i64(x: i64) -> (r: JsonValue)
        ensures
            r@ == Json::Number(integer_number(x as int)),
    {
        if x < 0 {
            JsonValue::Number(Number::NegInt(x))
        } else {
            JsonValue::Number(Number::PosInt(x as u64))
        }
    }

    /// The value that an unsigned integer is written as.
    pub fn from_u64(x: u64) -> (r: JsonValue)
        ensures
            r@ == Json::Number(integer_number(x as int)),
    {
        JsonValue::Number(Number::PosInt(x))
    }

    /// A string.
    pub fn text(s: &str) -> (r: JsonValue)
        ensures
            r@ == Json::String(s@),
    {
        JsonValue::String(s.to_owned())
    }

    /// A string, or null where there is none.
    pub fn optional_text(s: &Option<String>) -> (r: JsonValue)
        ensures
            r@ == optional_json(optional(*s)),
    {
        match s {
            Some(x) => JsonValue::text(x.as_str()),
            None => JsonValue::Null,
        }
    }

    /// The empty object.
    pub fn empty_object() -> (r: JsonValue)
        ensures
            r@ == Json::Object(Map::empty()),
    {
        let d: Dict<JsonValue> = Dict::new();
        proof {
            empty_has_no_members(d);
        }
        JsonValue::Object(d)
    }

    /// A copy of the value.
    pub fn copy(&self) -> (r: JsonValue)
        ensures
            r@ == self@,
        decreases self,
    {
        match self {
            JsonValue::Null => JsonValue::Null,
            JsonValue::Bool(b) => JsonValue::Bool(*b),
            JsonValue::Number(n) => JsonValue::Number(*n),
            JsonValue::String(s) => JsonValue::text(s.as_str()),
            JsonValue::Array(v) => {
                let mut out: Vec<JsonValue> = Vec::new();
                let n = v.len();
                for i in 0..n
                    invariant
                        n == v@.len(),
                        out@.len() == i,
                        *self == JsonValue::Array(*v),
                        forall|j: int| 0 <= j < i ==> out@[j]@ == v@[j]@,
                {
                    proof {
                        assert(decreases_to!(self => self->Array_0));
                        assert(decreases_to!(*v => v@));
                        assert(decreases_to!(v@ => v@[i as int]));
                    }
                    let x = v[i].copy();
                    out.push(x);
                }
                proof {
                    lemma_array(out);
                    lemma_array(*v);
                    assert(views(out@) =~= views(v@));
                }
                JsonValue::Array(out)
            },
            JsonValue::Object(d) => {
                let mut out: Vec<(String, JsonValue)> = Vec::new();
                let n = d.entries.len();
                for i in 0..n
                    invariant
                        n == d.entries@.len(),
                        out@.len() == i,
                        *self == JsonValue::Object(*d),
                        forall|j: int|
                            0 <= j < i ==> (#[trigger] out@[j]).0@ == d.entries@[j].0@
                                && out@[j].1@ == d.entries@[j].1@,
                {
                    proof {
                        assert(decreases_to!(self => self->Object_0));
                        assert(decreases_to!(*d => d.entries));
                        assert(decreases_to!(d.entries => d.entries@));
                        assert(decreases_to!(d.entries@ => d.entries@[i as int]));
                    }
                    let x = d.entries[i].1.copy();
                    out.push((d.entries[i].0.as_str().to_owned(), x));
                }
                proof {
                    lemma_same_entries(out@, d.entries@);
                }
                JsonValue::Object(Dict { entries: out })
            },
        }
    }
}

/// A string, or null where there is none.
pub open spec fn optional_json(s: Option<Seq<char>>) -> Json {
    match s {
        Some(x) => Json::String(x),
        None => Json::Null,
    }
}

proof fn lemma_same_entries(a: Seq<(String, JsonValue)>, b: Seq<(String, JsonValue)>)
    requires
        a.len() == b.len(),
        forall|j: int|
            0 <= j < a.len() ==> (#[trigger] a[j]).0@ == b[j].0@ && a[j].1@ == b[j].1@,
    ensures
        entries(a) == entries(b),
    decreases a.len(),
{
    if a.len() > 0 {
        assert forall|j: int| 0 <= j < a.drop_first().len() implies (
        #[trigger] a.drop_first()[j]).0@ == b.drop_first()[j].0@ && a.drop_first()[j].1@
            == b.drop_first()[j].1@ by {
            assert(a.drop_first()[j] == a[j + 1]);
        }
        assert(a[0].0@ == b[0].0@);
        lemma_same_entries(a.drop_first(), b.drop_first());
    }
}

/// Sets the member `key` of an object.
pub fn set_member(d: &mut Dict<JsonValue>, key: &str, value: JsonValue)
    ensures
        members(*final(d)) == members(*old(d)).insert(key@, value@),
{
    let ghost before = *d;
    let ghost v = value;
    d.insert(key.to_owned(), value);
    proof {
        assert forall|k: Seq<char>| #[trigger]
            members(*d).dom().contains(k) == members(before).insert(key@, v@).dom().contains(
            k,
        ) by {
            lemma_members(*d, k);
            lemma_members(before, k);
        }
        assert forall|k: Seq<char>| members(*d).dom().contains(k) implies #[trigger] members(
            *d,
        )[k] == members(before).insert(key@, v@)[k] by {
            lemma_members(*d, k);
            lemma_members(before, k);
        }
        assert(members(*d) =~= members(before).insert(key@, v@));
    }
}

/// The member `key` of an object, if it has one.
pub fn member<'a>(d: &'a Dict<JsonValue>, key: &str) -> (r: Option<&'a JsonValue>)
    ensures
        match r {
            Some(v) => members(*d).dom().contains(key@) && v@ == members(*d)[key@],
            None => !members(*d).dom().contains(key@),
        },
{
    proof {
        lemma_members(*d, key@);
    }
    d.get(key)
}

} // verus!
