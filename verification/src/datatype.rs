//! The data-type model for ROS 2 interface fields.
use vstd::prelude::*;
use crate::text::same_text;

verus! {

/// A ROS 2 primitive (built-in) scalar type.
#[derive(Debug, Clone, Copy, PartialEq, Eq, Hash, Structural)]
pub enum Primitive {
    Bool,
    /// `byte` / `octet`: 8-bit unsigned, treated as raw byte.
    Byte,
    /// `char`: 8-bit unsigned in ROS 2.
    Char,
    Int8,
    Uint8,
    Int16,
    Uint16,
    Int32,
    Uint32,
    Int64,
    Uint64,
    Float32,
    Float64,
}

impl Primitive {
    /// The primitive that a token names.
    pub open spec fn of_token(tok: Seq<char>) -> Option<Primitive> {
        if tok == "bool"@ || tok == "boolean"@ {
            Some(Primitive::Bool)
        } else if tok == "byte"@ || tok == "octet"@ {
            Some(Primitive::Byte)
        } else if tok == "char"@ {
            Some(Primitive::Char)
        } else if tok == "int8"@ {
            Some(Primitive::Int8)
        } else if tok == "uint8"@ {
            Some(Primitive::Uint8)
        } else if tok == "int16"@ {
            Some(Primitive::Int16)
        } else if tok == "uint16"@ {
            Some(Primitive::Uint16)
        } else if tok == "int32"@ {
            Some(Primitive::Int32)
        } else if tok == "uint32"@ {
            Some(Primitive::Uint32)
        } else if tok == "int64"@ {
            Some(Primitive::Int64)
        } else if tok == "uint64"@ {
            Some(Primitive::Uint64)
        } else if tok == "float32"@ || tok == "float"@ {
            Some(Primitive::Float32)
        } else if tok == "float64"@ || tok == "double"@ {
            Some(Primitive::Float64)
        } else {
            None
        }
    }

    /// The token that names the primitive.
    pub open spec fn token(self) -> Seq<char> {
        match self {
            Primitive::Bool => "bool"@,
            Primitive::Byte => "byte"@,
            Primitive::Char => "char"@,
            Primitive::Int8 => "int8"@,
            Primitive::Uint8 => "uint8"@,
            Primitive::Int16 => "int16"@,
            Primitive::Uint16 => "uint16"@,
            Primitive::Int32 => "int32"@,
            Primitive::Uint32 => "uint32"@,
            Primitive::Int64 => "int64"@,
            Primitive::Uint64 => "uint64"@,
            Primitive::Float32 => "float32"@,
            Primitive::Float64 => "float64"@,
        }
    }

    /// Size and alignment in bytes.
    pub open spec fn width(self) -> nat {
        match self {
            Primitive::Bool | Primitive::Byte | Primitive::Char | Primitive::Int8
            | Primitive::Uint8 => 1,
            Primitive::Int16 | Primitive::Uint16 => 2,
            Primitive::Int32 | Primitive::Uint32 | Primitive::Float32 => 4,
            Primitive::Int64 | Primitive::Uint64 | Primitive::Float64 => 8,
        }
    }

    /// Whether an array of the primitive is a byte blob.
    pub open spec fn byte_like(self) -> bool {
        self == Primitive::Uint8 || self == Primitive::Byte || self == Primitive::Char
    }

    /// Maps a textual base type to a primitive, if it is one.
    pub fn from_token(tok: &str) -> (r: Option<Primitive>)
        ensures
            r == Primitive::of_token(tok@),
    {
        if same_text(tok, "bool") || same_text(tok, "boolean") {
            Some(Primitive::Bool)
        } else if same_text(tok, "byte") || same_text(tok, "octet") {
            Some(Primitive::Byte)
        } else if same_text(tok, "char") {
            Some(Primitive::Char)
        } else if same_text(tok, "int8") {
            Some(Primitive::Int8)
        } else if same_text(tok, "uint8") {
            Some(Primitive::Uint8)
        } else if same_text(tok, "int16") {
            Some(Primitive::Int16)
        } else if same_text(tok, "uint16") {
            Some(Primitive::Uint16)
        } else if same_text(tok, "int32") {
            Some(Primitive::Int32)
        } else if same_text(tok, "uint32") {
            Some(Primitive::Uint32)
        } else if same_text(tok, "int64") {
            Some(Primitive::Int64)
        } else if same_text(tok, "uint64") {
            Some(Primitive::Uint64)
        } else if same_text(tok, "float32") || same_text(tok, "float") {
            Some(Primitive::Float32)
        } else if same_text(tok, "float64") || same_text(tok, "double") {
            Some(Primitive::Float64)
        } else {
            None
        }
    }

    /// Size and alignment (equal for all CDR primitives) in bytes.
    pub fn size(self) -> (r: usize)
        ensures
            r == self.width(),
    {
        match self {
            Primitive::Bool | Primitive::Byte | Primitive::Char | Primitive::Int8
            | Primitive::Uint8 => 1,
            Primitive::Int16 | Primitive::Uint16 => 2,
            Primitive::Int32 | Primitive::Uint32 | Primitive::Float32 => 4,
            Primitive::Int64 | Primitive::Uint64 | Primitive::Float64 => 8,
        }
    }

    /// Whether a sequence or array of this primitive is a byte blob that rosbridge
    /// encodes as base64 in JSON (`uint8[]`, `byte[]`, `char[]`).
    pub fn is_byte_like(self) -> (r: bool)
        ensures
            r == self.byte_like(),
    {
        match self {
            Primitive::Uint8 | Primitive::Byte | Primitive::Char => true,
            _ => false,
        }
    }

    /// The token that names the primitive.
    pub fn name(self) -> (r: &'static str)
        ensures
            r@ == self.token(),
    {
        match self {
            Primitive::Bool => "bool",
            Primitive::Byte => "byte",
            Primitive::Char => "char",
            Primitive::Int8 => "int8",
            Primitive::Uint8 => "uint8",
            Primitive::Int16 => "int16",
            Primitive::Uint16 => "uint16",
            Primitive::Int32 => "int32",
            Primitive::Uint32 => "uint32",
            Primitive::Int64 => "int64",
            Primitive::Uint64 => "uint64",
            Primitive::Float32 => "float32",
            Primitive::Float64 => "float64",
        }
    }
}

/// The token of a primitive names that primitive.
pub proof fn token_names_primitive(p: Primitive)
    ensures
        Primitive::of_token(p.token()) == Some(p),
{
    reveal_strlit("bool");
    reveal_strlit("boolean");
    reveal_strlit("byte");
    reveal_strlit("octet");
    reveal_strlit("char");
    reveal_strlit("int8");
    reveal_strlit("uint8");
    reveal_strlit("int16");
    reveal_strlit("uint16");
    reveal_strlit("int32");
    reveal_strlit("uint32");
    reveal_strlit("int64");
    reveal_strlit("uint64");
    reveal_strlit("float32");
    reveal_strlit("float");
    reveal_strlit("float64");
    reveal_strlit("double");
    let t = p.token();
    match p {
        Primitive::Bool => {},
        Primitive::Byte => {
            assert(t[1] == 'y');
        },
        Primitive::Char => {
            assert(t[0] == 'c');
        },
        Primitive::Int8 => {
            assert(t.len() == 4 && t[0] == 'i');
        },
        Primitive::Uint8 => {
            assert(t.len() == 5 && t[0] == 'u');
        },
        Primitive::Int16 => {
            assert(t.len() == 5 && t[0] == 'i');
        },
        Primitive::Uint16 => {
            assert(t.len() == 6 && t[0] == 'u' && t[4] == '1');
        },
        Primitive::Int32 => {
            assert(t.len() == 5 && t[0] == 'i' && t[3] == '3');
        },
        Primitive::Uint32 => {
            assert(t.len() == 6 && t[0] == 'u' && t[4] == '3');
        },
        Primitive::Int64 => {
            assert(t.len() == 5 && t[0] == 'i' && t[3] == '6');
        },
        Primitive::Uint64 => {
            assert(t.len() == 6 && t[0] == 'u' && t[4] == '6');
        },
        Primitive::Float32 => {
            assert(t.len() == 7 && t[0] == 'f' && t[5] == '3');
        },
        Primitive::Float64 => {
            assert(t.len() == 7 && t[0] == 'f' && t[5] == '6');
        },
    }
}

/// The base (element) type of a field, ignoring array-ness.
#[derive(Debug, PartialEq, Eq, Hash)]
pub enum BaseType {
    Primitive(Primitive),
    /// `string` with optional upper bound.
    String(Option<usize>),
    /// `wstring` with optional upper bound (UTF-16 on the wire).
    WString(Option<usize>),
    /// A nested message type, normalized to `package/msg/Type`.
    Message(String),
}

/// A base type as mathematics.
pub ghost enum BaseModel {
    Primitive(Primitive),
    String(Option<usize>),
    WString(Option<usize>),
    Message(Seq<char>),
}

impl View for BaseType {
    type V = BaseModel;

    open spec fn view(&self) -> BaseModel {
        match self {
            BaseType::Primitive(p) => BaseModel::Primitive(*p),
            BaseType::String(b) => BaseModel::String(*b),
            BaseType::WString(b) => BaseModel::WString(*b),
            BaseType::Message(n) => BaseModel::Message(n@),
        }
    }
}

impl BaseType {
    /// A copy of the type.
    pub fn copy(&self) -> (r: BaseType)
        ensures
            r@ == self@,
    {
        match self {
            BaseType::Primitive(p) => BaseType::Primitive(*p),
            BaseType::String(b) => BaseType::String(*b),
            BaseType::WString(b) => BaseType::WString(*b),
            BaseType::Message(n) => BaseType::Message(n.as_str().to_owned()),
        }
    }
}

/// How a field repeats.
#[derive(Debug, Clone, Copy, PartialEq, Eq, Hash, Structural)]
pub enum Multiplicity {
    /// A single value.
    Scalar,
    /// A fixed-length array `type[N]`, without a length prefix on the wire.
    FixedArray(usize),
    /// An upper-bounded sequence `sequence<type, N>` / `type[<=N]`.
    BoundedSequence(usize),
    /// An unbounded sequence `sequence<type>` / `type[]`.
    UnboundedSequence,
}

/// A fully-resolved field type: base type plus multiplicity.
#[derive(Debug, PartialEq, Eq, Hash)]
pub struct FieldType {
    pub base: BaseType,
    pub multiplicity: Multiplicity,
}

/// A field type as mathematics.
pub ghost struct TypeModel {
    pub base: BaseModel,
    pub multiplicity: Multiplicity,
}

impl View for FieldType {
    type V = TypeModel;

    open spec fn view(&self) -> TypeModel {
        TypeModel { base: self.base@, multiplicity: self.multiplicity }
    }
}

impl TypeModel {
    /// Whether the field is an array or a sequence of bytes.
    pub open spec fn blob(self) -> bool {
        self.multiplicity != Multiplicity::Scalar && (self.base matches BaseModel::Primitive(p)
            && p.byte_like())
    }
}

impl FieldType {
    /// Whether the field is an array or a sequence.
    pub fn is_array(&self) -> (r: bool)
        ensures
            r == (self.multiplicity != Multiplicity::Scalar),
    {
        match self.multiplicity {
            Multiplicity::Scalar => false,
            _ => true,
        }
    }

    /// True when this is a byte blob (`uint8[]`/`byte[]`/`char[]`, any array form)
    /// which rosbridge base64-encodes in JSON.
    pub fn is_byte_blob(&self) -> (r: bool)
        ensures
            r == self@.blob(),
    {
        self.is_array() && match &self.base {
            BaseType::Primitive(p) => p.is_byte_like(),
            _ => false,
        }
    }

    /// A copy of the type.
    pub fn copy(&self) -> (r: FieldType)
        ensures
            r@ == self@,
    {
        FieldType { base: self.base.copy(), multiplicity: self.multiplicity }
    }
}

/// The words by which some primitives are known besides their own: what IDL calls them.
pub proof fn primitives_have_other_names()
    ensures
        Primitive::of_token("boolean"@) == Some(Primitive::Bool),
        Primitive::of_token("octet"@) == Some(Primitive::Byte),
        Primitive::of_token("float"@) == Some(Primitive::Float32),
        Primitive::of_token("double"@) == Some(Primitive::Float64),
{
    reveal_strlit("bool");
    reveal_strlit("boolean");
    reveal_strlit("byte");
    reveal_strlit("octet");
    reveal_strlit("char");
    reveal_strlit("int8");
    reveal_strlit("uint8");
    reveal_strlit("int16");
    reveal_strlit("uint16");
    reveal_strlit("int32");
    reveal_strlit("uint32");
    reveal_strlit("int64");
    reveal_strlit("uint64");
    reveal_strlit("float32");
    reveal_strlit("float");
    reveal_strlit("float64");
    reveal_strlit("double");
    assert("octet"@[0] == 'o' && "int16"@[0] == 'i' && "int32"@[0] == 'i' && "int64"@[0] == 'i');
    assert("uint8"@[0] == 'u' && "float"@[0] == 'f' && "octet"@.len() == 5 && "float"@.len() == 5);
    assert("double"@.len() == 6 && "double"@[0] == 'd' && "uint16"@[0] == 'u' && "uint32"@[0] == 'u'
        && "uint64"@[0] == 'u');
}

} // verus!
