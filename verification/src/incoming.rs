//! Client to server operations, as defined by the rosbridge v2.1 protocol.
use vstd::prelude::*;
use crate::float::Float64;
use crate::json::{JsonValue, Number};
use crate::qos::QosProfile;

verus! {

/// Any operation a client may send to the server. An operation that the protocol
/// does not know is [`IncomingMessage::Unknown`], so that the server can emit a
/// protocol-level error instead of dropping the connection.
#[derive(Debug)]
pub enum IncomingMessage {
    Advertise(Advertise),
    Unadvertise(Unadvertise),
    Publish(Publish),
    Subscribe(Subscribe),
    Unsubscribe(Unsubscribe),
    CallService(CallService),
    AdvertiseService(AdvertiseService),
    UnadvertiseService(UnadvertiseService),
    ServiceResponse(ServiceResponse),
    AdvertiseAction(AdvertiseAction),
    UnadvertiseAction(UnadvertiseAction),
    SendActionGoal(SendActionGoal),
    CancelActionGoal(CancelActionGoal),
    ActionFeedback(ActionFeedback),
    ActionResult(ActionResult),
    Fragment(Fragment),
    SetLevel(SetLevel),
    Status(StatusIn),
    Auth(Auth),
    Unknown,
}

#[derive(Debug)]
pub struct Advertise {
    pub topic: String,
    pub msg_type: String,
    pub id: Option<String>,
    pub qos: Option<QosProfile>,
    /// Deprecated alias for `qos.durability == transient_local`.
    pub latch: Option<bool>,
    /// Deprecated alias for `qos.depth`.
    pub queue_size: Option<usize>,
}

#[derive(Debug)]
pub struct Unadvertise {
    pub topic: String,
    pub id: Option<String>,
}

#[derive(Debug)]
pub struct Publish {
    pub topic: String,
    pub msg: JsonValue,
    pub id: Option<String>,
    pub msg_type: Option<String>,
    pub qos: Option<QosProfile>,
    pub latch: Option<bool>,
}

#[derive(Debug)]
pub struct Subscribe {
    pub topic: String,
    pub msg_type: Option<String>,
    pub id: Option<String>,
    /// Minimum milliseconds between forwarded messages (default 0 = no throttle).
    pub throttle_rate: Option<u64>,
    /// Buffer length used together with `throttle_rate` (default 0).
    pub queue_length: Option<usize>,
    /// Maximum characters before fragmenting outgoing messages.
    pub fragment_size: Option<usize>,
    /// One of `none`, `png`, `cbor`, `cbor-raw`.
    pub compression: Option<String>,
    pub qos: Option<QosProfile>,
}

#[derive(Debug)]
pub struct Unsubscribe {
    pub topic: String,
    pub id: Option<String>,
}

#[derive(Debug)]
pub struct CallService {
    pub service: String,
    pub srv_type: Option<String>,
    pub id: Option<String>,
    pub args: Option<JsonValue>,
    pub fragment_size: Option<usize>,
    pub compression: Option<String>,
    pub timeout: Option<Float64>,
}

#[derive(Debug)]
pub struct AdvertiseService {
    pub service: String,
    pub srv_type: String,
}

#[derive(Debug)]
pub struct UnadvertiseService {
    pub service: String,
}

/// Client's response to a server-forwarded `call_service` for a client-hosted
/// service (i.e. the client is acting as service server).
#[derive(Debug)]
pub struct ServiceResponse {
    pub service: String,
    pub id: Option<String>,
    pub result: bool,
    pub values: Option<JsonValue>,
}

#[derive(Debug)]
pub struct AdvertiseAction {
    pub action: String,
    pub action_type: String,
}

#[derive(Debug)]
pub struct UnadvertiseAction {
    pub action: String,
}

#[derive(Debug)]
pub struct SendActionGoal {
    pub action: String,
    pub action_type: String,
    pub id: Option<String>,
    pub args: Option<JsonValue>,
    pub feedback: bool,
    pub fragment_size: Option<usize>,
    pub compression: Option<String>,
}

#[derive(Debug)]
pub struct CancelActionGoal {
    pub action: String,
    pub id: String,
}

/// Feedback emitted by a client-hosted action server.
#[derive(Debug)]
pub struct ActionFeedback {
    pub action: String,
    pub id: String,
    pub values: JsonValue,
}

/// Result emitted by a client-hosted action server.
#[derive(Debug)]
pub struct ActionResult {
    pub action: String,
    pub id: String,
    pub result: bool,
    pub values: Option<JsonValue>,
    pub status: Option<i32>,
}

#[derive(Debug)]
pub struct Fragment {
    pub id: String,
    pub data: String,
    pub num: usize,
    pub total: usize,
}

#[derive(Debug)]
pub struct SetLevel {
    pub level: String,
    pub id: Option<String>,
}

/// Clients may echo `status` messages; the server accepts and ignores them.
#[derive(Debug)]
pub struct StatusIn {
    pub level: Option<String>,
    pub msg: Option<String>,
    pub id: Option<String>,
}

#[derive(Debug)]
pub struct Auth {
    pub mac: String,
    pub client: String,
    pub dest: String,
    pub rand: String,
    pub t: Number,
    pub level: String,
    pub end: Number,
}

} // verus!
