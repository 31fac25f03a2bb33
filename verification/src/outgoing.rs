//! Server to client operations.
use vstd::prelude::*;
use crate::json::JsonValue;
use crate::text::{lower, optional, same_text, to_chars, to_lower, to_text};

verus! {

/// Status level used in `status` messages and accepted by `set_level`.
#[derive(Debug, Clone, Copy, PartialEq, Eq, PartialOrd, Ord, Structural)]
pub enum StatusLevel {
    /// No messages at all.
    Off,
    Error,
    Warning,
    Info,
}

impl StatusLevel {
    /// The level that a name stands for, in letters of either case.
    pub open spec fn named(s: Seq<char>) -> Option<StatusLevel> {
        let t = s.map_values(|c: char| lower(c));
        if t == "none"@ {
            Some(StatusLevel::Off)
        } else if t == "error"@ {
            Some(StatusLevel::Error)
        } else if t == "warning"@ || t == "warn"@ {
            Some(StatusLevel::Warning)
        } else if t == "info"@ {
            Some(StatusLevel::Info)
        } else {
            None
        }
    }

    /// Severity rank: higher means more verbose.
    pub open spec fn verbosity(self) -> u8 {
        match self {
            StatusLevel::Off => 0,
            StatusLevel::Error => 1,
            StatusLevel::Warning => 2,
            StatusLevel::Info => 3,
        }
    }

    /// The name of the level.
    pub open spec fn label(self) -> Seq<char> {
        match self {
            StatusLevel::Off => "none"@,
            StatusLevel::Error => "error"@,
            StatusLevel::Warning => "warning"@,
            StatusLevel::Info => "info"@,
        }
    }

    /// Parses a level string as used by `set_level`.
    pub fn parse(s: &str) -> (r: Option<StatusLevel>)
        ensures
            r == StatusLevel::named(s@),
    {
        let low = to_lower(to_chars(s).as_slice());
        let t = to_text(low.as_slice());
        if same_text(t.as_str(), "none") {
            Some(StatusLevel::Off)
        } else if same_text(t.as_str(), "error") {
            Some(StatusLevel::Error)
        } else if same_text(t.as_str(), "warning") || same_text(t.as_str(), "warn") {
            Some(StatusLevel::Warning)
        } else if same_text(t.as_str(), "info") {
            Some(StatusLevel::Info)
        } else {
            None
        }
    }

    /// Severity rank: higher means more verbose. A configured threshold emits
    /// messages whose rank is `<=` the threshold rank.
    pub fn rank(self) -> (r: u8)
        ensures
            r == self.verbosity(),
    {
        match self {
            StatusLevel::Off => 0,
            StatusLevel::Error => 1,
            StatusLevel::Warning => 2,
            StatusLevel::Info => 3,
        }
    }

    /// The name of the level.
    pub fn as_str(self) -> (r: &'static str)
        ensures
            r@ == self.label(),
    {
        match self {
            StatusLevel::Off => "none",
            StatusLevel::Error => "error",
            StatusLevel::Warning => "warning",
            StatusLevel::Info => "info",
        }
    }
}

/// The name of a level stands for that level.
pub proof fn label_names_level(l: StatusLevel)
    ensures
        StatusLevel::named(l.label()) == Some(l),
{
    reveal_strlit("none");
    reveal_strlit("error");
    reveal_strlit("warning");
    reveal_strlit("warn");
    reveal_strlit("info");
    let t = l.label().map_values(|c: char| lower(c));
    assert(t =~= l.label());
    match l {
        StatusLevel::Off => {},
        StatusLevel::Error => {
            assert(t.len() == 5);
        },
        StatusLevel::Warning => {
            assert(t.len() == 7);
        },
        StatusLevel::Info => {
            assert(t.len() == 4 && t[0] == 'i');
        },
    }
}

/// A `status` message reporting protocol-level info/warnings/errors.
#[derive(Debug)]
pub struct Status {
    pub op: &'static str,
    pub level: StatusLevel,
    pub msg: String,
    pub id: Option<String>,
}

/// A `status` message as mathematics.
#[verifier::ext_equal]
pub ghost struct StatusModel {
    pub op: Seq<char>,
    pub level: StatusLevel,
    pub msg: Seq<char>,
    pub id: Option<Seq<char>>,
}

/// A `status` message of the given level.
pub open spec fn status(level: StatusLevel, msg: Seq<char>, id: Option<Seq<char>>) -> StatusModel {
    StatusModel { op: "status"@, level, msg, id }
}

impl View for Status {
    type V = StatusModel;

    open spec fn view(&self) -> StatusModel {
        StatusModel {
            op: self.op@,
            level: self.level,
            msg: self.msg@,
            id: optional(self.id),
        }
    }
}

impl Status {

    /// A status message of the given level.
    pub fn new(level: StatusLevel, msg: &str, id: Option<String>) -> (r: Status)
        ensures
            r@ == status(level, msg@, optional(id)),
    {
        Status { op: "status", level, msg: msg.to_owned(), id }
    }

    /// An error.
    pub fn error(msg: &str, id: Option<String>) -> (r: Status)
        ensures
            r@ == status(StatusLevel::Error, msg@, optional(id)),
    {
        Status::new(StatusLevel::Error, msg, id)
    }

    /// A warning.
    pub fn warning(msg: &str, id: Option<String>) -> (r: Status)
        ensures
            r@ == status(StatusLevel::Warning, msg@, optional(id)),
    {
        Status::new(StatusLevel::Warning, msg, id)
    }

    /// An information.
    pub fn info(msg: &str, id: Option<String>) -> (r: Status)
        ensures
            r@ == status(StatusLevel::Info, msg@, optional(id)),
    {
        Status::new(StatusLevel::Info, msg, id)
    }
}

/// A `publish` message forwarded to a subscribed client.
#[derive(Debug)]
pub struct PublishOut {
    pub op: &'static str,
    pub topic: String,
    pub msg: JsonValue,
}

impl PublishOut {
    /// A `publish` message for a topic.
    pub fn new(topic: &str, msg: JsonValue) -> (r: PublishOut)
        ensures
            r.op@ == "publish"@,
            r.topic@ == topic@,
            r.msg == msg,
    {
        PublishOut { op: "publish", topic: topic.to_owned(), msg }
    }
}

/// A server to client `call_service` forwarded to a client acting as service
/// server.
#[derive(Debug)]
pub struct CallServiceOut {
    pub op: &'static str,
    pub service: String,
    pub id: Option<String>,
    pub args: JsonValue,
}

/// A `service_response` returned to the client that issued `call_service`.
#[derive(Debug)]
pub struct ServiceResponseOut {
    pub op: &'static str,
    pub service: String,
    pub id: Option<String>,
    pub values: JsonValue,
    pub result: bool,
}

/// A server to client `send_action_goal` forwarded to a client action server.
#[derive(Debug)]
pub struct SendActionGoalOut {
    pub op: &'static str,
    pub action: String,
    pub action_type: String,
    pub id: Option<String>,
    pub args: JsonValue,
}

/// An `action_feedback` forwarded to the goal-issuing client.
#[derive(Debug)]
pub struct ActionFeedbackOut {
    pub op: &'static str,
    pub action: String,
    pub id: Option<String>,
    pub values: JsonValue,
}

/// An `action_result` forwarded to the goal-issuing client.
#[derive(Debug)]
pub struct ActionResultOut {
    pub op: &'static str,
    pub action: String,
    pub id: Option<String>,
    pub values: JsonValue,
    pub result: bool,
    pub status: i32,
}

/// A `fragment` chunk of a larger message.
#[derive(Debug)]
pub struct FragmentOut {
    pub op: &'static str,
    pub id: String,
    pub data: String,
    pub num: usize,
    pub total: usize,
}

} // verus!
