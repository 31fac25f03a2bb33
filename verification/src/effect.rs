//! What a session asks of the server: reports to the client and work for the ROS
//! backend.
use vstd::prelude::*;
use crate::backend::{ActionServerId, PublisherId, QosSpec, ServiceServerId, SubscriptionId};
use crate::float::Float64;
use crate::json::{Json, JsonValue};
use crate::outgoing::{Status, StatusModel};
use crate::subscription::SubParams;
use crate::text::optional;

verus! {

/// What is to be done about an operation.
#[derive(Debug)]
pub enum Effect {
    /// Nothing at all.
    Nothing,
    /// Log a status message and send it to the client.
    Report(Status),
    /// Create a publisher, and tell the session what came of it.
    Advertise {
        topic: String,
        ros_type: String,
        qos: QosSpec,
        adv_id: String,
        id: Option<String>,
    },
    /// Destroy a publisher.
    Unadvertise(PublisherId),
    /// Publish a message.
    Publish { publisher: PublisherId, msg: JsonValue, id: Option<String> },
    /// Create a publisher, tell the session what came of it, and publish a message.
    AdvertiseAndPublish {
        topic: String,
        ros_type: String,
        qos: QosSpec,
        msg: JsonValue,
        id: Option<String>,
    },
    /// Subscribe to a topic, and tell the session what came of it.
    Subscribe {
        topic: String,
        ros_type: String,
        qos: QosSpec,
        sid: String,
        params: SubParams,
        id: Option<String>,
    },
    /// Destroy a subscription.
    Unsubscribe(SubscriptionId),
    /// Call a service, and tell the session what came of it.
    CallService {
        service: String,
        ros_type: String,
        args: JsonValue,
        timeout: Float64,
        fragment_size: Option<usize>,
        id: Option<String>,
    },
    /// Host a service, and tell the session what came of it.
    AdvertiseService { service: String, ros_type: String },
    /// Stop hosting a service.
    UnadvertiseService(ServiceServerId),
    /// Answer a service request with values, or with a failure.
    Respond { request: String, values: Option<JsonValue> },
    /// Send a goal to an action server, and tell the session what came of it.
    SendGoal {
        action: String,
        action_type: String,
        args: JsonValue,
        feedback: bool,
        id: Option<String>,
    },
    /// Cancel a goal.
    CancelGoal { action: String, goal_id: [u8; 16] },
    /// Host an action server, and tell the session what came of it.
    AdvertiseAction { action: String, action_type: String },
    /// Stop hosting an action server.
    UnadvertiseAction(ActionServerId),
    /// Hand feedback to the issuer of a hosted goal.
    Feedback { goal: String, progress: JsonValue },
    /// Hand the result of a hosted goal to its issuer; without values it failed.
    Finish { goal: String, values: Option<JsonValue>, status: i8 },
    /// Handle a text that was put together from fragments.
    Handle(String),
}

/// What is to be done about an operation, as mathematics.
pub ghost enum EffectModel {
    Nothing,
    Report(StatusModel),
    Advertise {
        topic: Seq<char>,
        ros_type: Seq<char>,
        qos: QosSpec,
        adv_id: Seq<char>,
        id: Option<Seq<char>>,
    },
    Unadvertise(PublisherId),
    Publish { publisher: PublisherId, msg: Json, id: Option<Seq<char>> },
    AdvertiseAndPublish {
        topic: Seq<char>,
        ros_type: Seq<char>,
        qos: QosSpec,
        msg: Json,
        id: Option<Seq<char>>,
    },
    Subscribe {
        topic: Seq<char>,
        ros_type: Seq<char>,
        qos: QosSpec,
        sid: Seq<char>,
        params: SubParams,
        id: Option<Seq<char>>,
    },
    Unsubscribe(SubscriptionId),
    CallService {
        service: Seq<char>,
        ros_type: Seq<char>,
        args: Json,
        timeout: Float64,
        fragment_size: Option<usize>,
        id: Option<Seq<char>>,
    },
    AdvertiseService { service: Seq<char>, ros_type: Seq<char> },
    UnadvertiseService(ServiceServerId),
    Respond { request: Seq<char>, values: Option<Json> },
    SendGoal {
        action: Seq<char>,
        action_type: Seq<char>,
        args: Json,
        feedback: bool,
        id: Option<Seq<char>>,
    },
    CancelGoal { action: Seq<char>, goal_id: Seq<u8> },
    AdvertiseAction { action: Seq<char>, action_type: Seq<char> },
    UnadvertiseAction(ActionServerId),
    Feedback { goal: Seq<char>, progress: Json },
    Finish { goal: Seq<char>, values: Option<Json>, status: i8 },
    Handle(Seq<char>),
}

/// What an optional value stands for.
pub open spec fn optional_value(v: Option<JsonValue>) -> Option<Json> {
    match v {
        Some(x) => Some(x@),
        None => None,
    }
}

impl View for Effect {
    type V = EffectModel;

    open spec fn view(&self) -> EffectModel {
        match *self {
            Effect::Nothing => EffectModel::Nothing,
            Effect::Report(s) => EffectModel::Report(s@),
            Effect::Advertise { topic, ros_type, qos, adv_id, id } => EffectModel::Advertise {
                topic: topic@,
                ros_type: ros_type@,
                qos,
                adv_id: adv_id@,
                id: optional(id),
            },
            Effect::Unadvertise(p) => EffectModel::Unadvertise(p),
            Effect::Publish { publisher, msg, id } => EffectModel::Publish {
                publisher,
                msg: msg@,
                id: optional(id),
            },
            Effect::AdvertiseAndPublish { topic, ros_type, qos, msg, id } =>
            EffectModel::AdvertiseAndPublish {
                topic: topic@,
                ros_type: ros_type@,
                qos,
                msg: msg@,
                id: optional(id),
            },
            Effect::Subscribe { topic, ros_type, qos, sid, params, id } => EffectModel::Subscribe {
                topic: topic@,
                ros_type: ros_type@,
                qos,
                sid: sid@,
                params,
                id: optional(id),
            },
            Effect::Unsubscribe(s) => EffectModel::Unsubscribe(s),
            Effect::CallService { service, ros_type, args, timeout, fragment_size, id } =>
            EffectModel::CallService {
                service: service@,
                ros_type: ros_type@,
                args: args@,
                timeout,
                fragment_size,
                id: optional(id),
            },
            Effect::AdvertiseService { service, ros_type } => EffectModel::AdvertiseService {
                service: service@,
                ros_type: ros_type@,
            },
            Effect::UnadvertiseService(s) => EffectModel::UnadvertiseService(s),
            Effect::Respond { request, values } => EffectModel::Respond {
                request: request@,
                values: optional_value(values),
            },
            Effect::SendGoal { action, action_type, args, feedback, id } => EffectModel::SendGoal {
                action: action@,
                action_type: action_type@,
                args: args@,
                feedback,
                id: optional(id),
            },
            Effect::CancelGoal { action, goal_id } => EffectModel::CancelGoal {
                action: action@,
                goal_id: goal_id@,
            },
            Effect::AdvertiseAction { action, action_type } => EffectModel::AdvertiseAction {
                action: action@,
                action_type: action_type@,
            },
            Effect::UnadvertiseAction(a) => EffectModel::UnadvertiseAction(a),
            Effect::Feedback { goal, progress } => EffectModel::Feedback {
                goal: goal@,
                progress: progress@,
            },
            Effect::Finish { goal, values, status } => EffectModel::Finish {
                goal: goal@,
                values: optional_value(values),
                status,
            },
            Effect::Handle(s) => EffectModel::Handle(s@),
        }
    }
}

} // verus!
