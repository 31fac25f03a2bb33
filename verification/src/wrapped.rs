//! The types that ROS 2 generates round the goal, the result and the feedback of an
//! action.
use vstd::prelude::*;
use crate::datatype::{BaseModel, BaseType, FieldType, Multiplicity, Primitive, TypeModel};
use crate::interface::{
    constants_of, fields_of, Constant, ConstantModel, Field, FieldModel, MessageModel, MessageSpec,
    ServiceModel, ServiceSpec,
};
use crate::text::concat2;

verus! {

/// A field of one value, without a default.
pub open spec fn plain_field(name: Seq<char>, base: BaseModel) -> FieldModel {
    FieldModel {
        name,
        ty: TypeModel { base, multiplicity: Multiplicity::Scalar },
        default: None,
    }
}

/// A field that holds the id of a goal.
pub open spec fn goal_id_field() -> FieldModel {
    plain_field("goal_id"@, BaseModel::Message("unique_identifier_msgs/msg/UUID"@))
}

/// A message without constants.
pub open spec fn plain_message(name: Seq<char>, fields: Seq<FieldModel>) -> MessageModel {
    MessageModel { name, fields, constants: Seq::<ConstantModel>::empty() }
}

/// The service by which a goal is sent: its id and the goal, and whether and when it was
/// accepted.
pub open spec fn send_goal_service(action: Seq<char>) -> ServiceModel {
    let name = action + "_SendGoal"@;
    ServiceModel {
        name,
        request: plain_message(
            name + "_Request"@,
            seq![goal_id_field(), plain_field("goal"@, BaseModel::Message(action + "_Goal"@))],
        ),
        response: plain_message(
            name + "_Response"@,
            seq![
                plain_field("accepted"@, BaseModel::Primitive(Primitive::Bool)),
                plain_field("stamp"@, BaseModel::Message("builtin_interfaces/msg/Time"@)),
            ],
        ),
    }
}

/// The service by which a result is fetched: the id of the goal, and the status and the
/// result.
pub open spec fn get_result_service(action: Seq<char>) -> ServiceModel {
    let name = action + "_GetResult"@;
    ServiceModel {
        name,
        request: plain_message(name + "_Request"@, seq![goal_id_field()]),
        response: plain_message(
            name + "_Response"@,
            seq![
                plain_field("status"@, BaseModel::Primitive(Primitive::Int8)),
                plain_field("result"@, BaseModel::Message(action + "_Result"@)),
            ],
        ),
    }
}

/// The message by which feedback is published: the id of the goal and the feedback.
pub open spec fn feedback_message(action: Seq<char>) -> MessageModel {
    plain_message(
        action + "_FeedbackMessage"@,
        seq![goal_id_field(), plain_field("feedback"@, BaseModel::Message(action + "_Feedback"@))],
    )
}

fn field(name: &str, base: BaseType) -> (r: Field)
    ensures
        r@ == plain_field(name@, base@),
{
    Field {
        name: name.to_owned(),
        ty: FieldType { base, multiplicity: Multiplicity::Scalar },
        default: None,
    }
}

fn goal_id() -> (r: Field)
    ensures
        r@ == goal_id_field(),
{
    field("goal_id", BaseType::Message("unique_identifier_msgs/msg/UUID".to_owned()))
}

fn message(name: String, fields: Vec<Field>) -> (r: MessageSpec)
    ensures
        r@ == plain_message(name@, fields_of(fields@)),
{
    let constants: Vec<Constant> = Vec::new();
    assert(constants_of(constants@) =~= Seq::empty());
    MessageSpec { name, fields, constants }
}

fn one(a: Field) -> (r: Vec<Field>)
    ensures
        fields_of(r@) == seq![a@],
{
    let mut v: Vec<Field> = Vec::new();
    v.push(a);
    assert(fields_of(v@) =~= seq![a@]);
    v
}

fn two(a: Field, b: Field) -> (r: Vec<Field>)
    ensures
        fields_of(r@) == seq![a@, b@],
{
    let mut v: Vec<Field> = Vec::new();
    v.push(a);
    v.push(b);
    assert(fields_of(v@) =~= seq![a@, b@]);
    v
}

/// The service by which a goal is sent.
pub fn send_goal(action: &str) -> (r: ServiceSpec)
    ensures
        r@ == send_goal_service(action@),
{
    let name = concat2(action, "_SendGoal");
    let request = message(
        concat2(name.as_str(), "_Request"),
        two(goal_id(), field("goal", BaseType::Message(concat2(action, "_Goal")))),
    );
    let response = message(
        concat2(name.as_str(), "_Response"),
        two(
            field("accepted", BaseType::Primitive(Primitive::Bool)),
            field("stamp", BaseType::Message("builtin_interfaces/msg/Time".to_owned())),
        ),
    );
    ServiceSpec { name, request, response }
}

/// The service by which a result is fetched.
pub fn get_result(action: &str) -> (r: ServiceSpec)
    ensures
        r@ == get_result_service(action@),
{
    let name = concat2(action, "_GetResult");
    let request = message(concat2(name.as_str(), "_Request"), one(goal_id()));
    let response = message(
        concat2(name.as_str(), "_Response"),
        two(
            field("status", BaseType::Primitive(Primitive::Int8)),
            field("result", BaseType::Message(concat2(action, "_Result"))),
        ),
    );
    ServiceSpec { name, request, response }
}

/// The message by which feedback is published.
pub fn feedback(action: &str) -> (r: MessageSpec)
    ensures
        r@ == feedback_message(action@),
{
    message(
        concat2(action, "_FeedbackMessage"),
        two(goal_id(), field("feedback", BaseType::Message(concat2(action, "_Feedback")))),
    )
}

/// The types round an action carry what is sent: a goal goes with its id, the answer says
/// whether and when it was accepted; a result is asked for by the goal's id and comes with a
/// status; and feedback goes with the goal's id. What is carried is the action's own goal,
/// result and feedback.
pub proof fn wrapped_types_carry_the_actions_own(action: Seq<char>)
    ensures
        ({
            let send = send_goal_service(action);
            let get = get_result_service(action);
            let feedback = feedback_message(action);
            let uuid = BaseModel::Message("unique_identifier_msgs/msg/UUID"@);
            let time = BaseModel::Message("builtin_interfaces/msg/Time"@);
            &&& has_fields(
                send.request,
                seq![
                    ("goal_id"@, uuid),
                    ("goal"@, BaseModel::Message(action + "_Goal"@)),
                ],
            )
            &&& has_fields(
                send.response,
                seq![("accepted"@, BaseModel::Primitive(Primitive::Bool)), ("stamp"@, time)],
            )
            &&& has_fields(get.request, seq![("goal_id"@, uuid)])
            &&& has_fields(
                get.response,
                seq![
                    ("status"@, BaseModel::Primitive(Primitive::Int8)),
                    ("result"@, BaseModel::Message(action + "_Result"@)),
                ],
            )
            &&& has_fields(
                feedback,
                seq![
                    ("goal_id"@, uuid),
                    ("feedback"@, BaseModel::Message(action + "_Feedback"@)),
                ],
            )
        }),
{
}

/// Whether a message has these fields and no others, each of one value without a default.
pub open spec fn has_fields(m: MessageModel, fields: Seq<(Seq<char>, BaseModel)>) -> bool {
    &&& m.fields.len() == fields.len()
    &&& m.constants.len() == 0
    &&& forall|i: int|
        0 <= i < fields.len() ==> {
            let f = #[trigger] m.fields[i];
            &&& f.name == fields[i].0
            &&& f.ty.base == fields[i].1
            &&& f.ty.multiplicity == Multiplicity::Scalar
            &&& f.default is None
        }
}

} // verus!
