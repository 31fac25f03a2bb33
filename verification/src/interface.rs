//! Parsed representation of a ROS 2 interface definition.
use vstd::prelude::*;
use crate::datatype::{FieldType, TypeModel};

verus! {

/// A single named field of a message.
#[derive(Debug, PartialEq)]
pub struct Field {
    pub name: String,
    pub ty: FieldType,
    /// Default value text (as written in the `.msg`), if any.
    pub default: Option<String>,
}

/// A `TYPE NAME=value` constant.
#[derive(Debug, PartialEq)]
pub struct Constant {
    pub name: String,
    /// The primitive/string type token of the constant.
    pub ty: String,
    /// The literal value text.
    pub value: String,
}

/// A parsed message specification: the fields and constants of one message
/// type. The fully-qualified name is the registry key, kept here for context.
#[derive(Debug, PartialEq)]
pub struct MessageSpec {
    /// Fully-qualified `package/msg/Type`.
    pub name: String,
    pub fields: Vec<Field>,
    pub constants: Vec<Constant>,
}

/// A parsed service specification (request + response).
#[derive(Debug, PartialEq)]
pub struct ServiceSpec {
    pub name: String,
    pub request: MessageSpec,
    pub response: MessageSpec,
}

/// A parsed action specification (goal + result + feedback).
#[derive(Debug, PartialEq)]
pub struct ActionSpec {
    pub name: String,
    pub goal: MessageSpec,
    pub result: MessageSpec,
    pub feedback: MessageSpec,
}

/// A field as mathematics.
pub ghost struct FieldModel {
    pub name: Seq<char>,
    pub ty: TypeModel,
    pub default: Option<Seq<char>>,
}

/// A constant as mathematics.
pub ghost struct ConstantModel {
    pub name: Seq<char>,
    pub ty: Seq<char>,
    pub value: Seq<char>,
}

/// A message specification as mathematics.
pub ghost struct MessageModel {
    pub name: Seq<char>,
    pub fields: Seq<FieldModel>,
    pub constants: Seq<ConstantModel>,
}

/// A service specification as mathematics.
pub ghost struct ServiceModel {
    pub name: Seq<char>,
    pub request: MessageModel,
    pub response: MessageModel,
}

/// An action specification as mathematics.
pub ghost struct ActionModel {
    pub name: Seq<char>,
    pub goal: MessageModel,
    pub result: MessageModel,
    pub feedback: MessageModel,
}

/// The characters of an optional string.
pub open spec fn opt_text(s: Option<String>) -> Option<Seq<char>> {
    match s {
        Some(x) => Some(x@),
        None => None,
    }
}

impl View for Field {
    type V = FieldModel;

    open spec fn view(&self) -> FieldModel {
        FieldModel { name: self.name@, ty: self.ty@, default: opt_text(self.default) }
    }
}

impl View for Constant {
    type V = ConstantModel;

    open spec fn view(&self) -> ConstantModel {
        ConstantModel { name: self.name@, ty: self.ty@, value: self.value@ }
    }
}

/// The fields as mathematics.
pub open spec fn fields_of(s: Seq<Field>) -> Seq<FieldModel> {
    s.map_values(|f: Field| f@)
}

/// The constants as mathematics.
pub open spec fn constants_of(s: Seq<Constant>) -> Seq<ConstantModel> {
    s.map_values(|c: Constant| c@)
}

impl View for MessageSpec {
    type V = MessageModel;

    open spec fn view(&self) -> MessageModel {
        MessageModel {
            name: self.name@,
            fields: fields_of(self.fields@),
            constants: constants_of(self.constants@),
        }
    }
}

impl View for ServiceSpec {
    type V = ServiceModel;

    open spec fn view(&self) -> ServiceModel {
        ServiceModel { name: self.name@, request: self.request@, response: self.response@ }
    }
}

impl View for ActionSpec {
    type V = ActionModel;

    open spec fn view(&self) -> ActionModel {
        ActionModel {
            name: self.name@,
            goal: self.goal@,
            result: self.result@,
            feedback: self.feedback@,
        }
    }
}

impl MessageSpec {
    /// A copy of the specification.
    pub fn copy(&self) -> (r: MessageSpec)
        ensures
            r@ == self@,
    {
        let mut fields: Vec<Field> = Vec::new();
        for i in 0..self.fields.len()
            invariant
                fields@.len() == i,
                forall|j: int| 0 <= j < i ==> (#[trigger] fields@[j])@ == self.fields@[j]@,
        {
            let f = &self.fields[i];
            let default = match &f.default {
                Some(d) => Some(d.as_str().to_owned()),
                None => None,
            };
            fields.push(Field { name: f.name.as_str().to_owned(), ty: f.ty.copy(), default });
        }
        let mut constants: Vec<Constant> = Vec::new();
        for i in 0..self.constants.len()
            invariant
                constants@.len() == i,
                forall|j: int| 0 <= j < i ==> (#[trigger] constants@[j])@ == self.constants@[j]@,
        {
            let c = &self.constants[i];
            constants.push(
                Constant {
                    name: c.name.as_str().to_owned(),
                    ty: c.ty.as_str().to_owned(),
                    value: c.value.as_str().to_owned(),
                },
            );
        }
        assert(fields_of(fields@) =~= fields_of(self.fields@));
        assert(constants_of(constants@) =~= constants_of(self.constants@));
        MessageSpec { name: self.name.as_str().to_owned(), fields, constants }
    }
}

} // verus!
