//! Action operations of a session: the client as issuer of goals, and as server.
use vstd::prelude::*;
use crate::backend::{ActionServerId, BackendError};
use crate::config::GlobList;
use crate::document::{finite_json, json_text, op, Operation};
use crate::effect::{optional_value, Effect, EffectModel};
use crate::glob::{allowed, passes};
use crate::incoming::{
    ActionFeedback, ActionResult, AdvertiseAction, CancelActionGoal, SendActionGoal,
    UnadvertiseAction,
};
use crate::json::{integer_number, optional_json, Json, JsonValue};
use crate::outgoing::{status, Status, StatusLevel};
use crate::session::{
    ActEntry, ActModel, ClientSession, FrameModel, OutFrame, SessionModel, Shared,
};
use crate::stamp::{args_or_empty, payload};
use crate::text::{concat2, concat3, optional, same_text};
use crate::uuid::{hex, string_to_uuid, uuid_of, uuid_to_string};

verus! {

/// What comes of a `send_action_goal`.
pub open spec fn send_goal_step(globs: GlobList, m: SendActionGoal) -> EffectModel {
    if passes(globs, m.action@) {
        EffectModel::SendGoal {
            action: m.action@,
            action_type: m.action_type@,
            args: payload(optional_value(m.args)),
            feedback: m.feedback,
            id: optional(m.id),
        }
    } else {
        let msg = "send_action_goal to "@ + m.action@ + " blocked by actions_glob"@;
        EffectModel::Report(status(StatusLevel::Warning, msg, optional(m.id)))
    }
}

/// The `action_result` operation.
pub open spec fn action_result_op(
    action: Seq<char>,
    values: Json,
    code: int,
    result: bool,
    id: Option<Seq<char>>,
) -> Json {
    Json::Object(
        op("action_result"@).insert("action"@, Json::String(action)).insert(
            "values"@,
            values,
        ).insert("status"@, Json::Number(integer_number(code))).insert(
            "result"@,
            Json::Bool(result),
        ).insert("id"@, optional_json(id)),
    )
}

/// The `action_feedback` operation.
pub open spec fn action_feedback_op(action: Seq<char>, values: Json, id: Option<Seq<char>>) -> Json {
    Json::Object(
        op("action_feedback"@).insert("action"@, Json::String(action)).insert(
            "values"@,
            values,
        ).insert("id"@, optional_json(id)),
    )
}

/// The operation that tells the issuer of a goal how it ended: with values and a
/// status, with an error, or with its channel closed.
pub open spec fn goal_end_op(
    action: Seq<char>,
    id: Option<Seq<char>>,
    outcome: Option<Result<(JsonValue, i8), String>>,
) -> Json {
    match outcome {
        Some(Ok((values, code))) => action_result_op(action, values@, code as int, true, id),
        Some(Err(e)) => action_result_op(action, Json::String(e@), 0, false, id),
        None => action_result_op(action, Json::String("action channel closed"@), 0, false, id),
    }
}

/// The session with a goal that an action server has accepted, under the text of its id
/// and, where the client gave the goal an id, under that.
pub open spec fn with_goal(
    s: SessionModel,
    action: Seq<char>,
    goal: Seq<char>,
    id: Option<Seq<char>>,
) -> SessionModel {
    SessionModel {
        issued_goals: s.issued_goals.insert(goal, action),
        goal_names: match id {
            Some(x) => s.goal_names.insert(x, goal),
            None => s.goal_names,
        },
        ..s
    }
}

/// The session without a goal that has ended. An id that the client has given to another
/// goal since stays with that.
pub open spec fn without_goal(s: SessionModel, goal: Seq<char>, id: Option<Seq<char>>) ->
    SessionModel {
    SessionModel {
        issued_goals: s.issued_goals.remove(goal),
        goal_names: match id {
            Some(x) => if s.goal_names.dom().contains(x) && s.goal_names[x] == goal {
                s.goal_names.remove(x)
            } else {
                s.goal_names
            },
            None => s.goal_names,
        },
        ..s
    }
}

/// The text of the goal id that an id stands for: that of the goal to which the client
/// gave the id, else the id itself.
pub open spec fn goal_named(s: SessionModel, id: Seq<char>) -> Seq<char> {
    if s.goal_names.dom().contains(id) {
        s.goal_names[id]
    } else {
        id
    }
}

/// What comes of a `cancel_action_goal`.
pub open spec fn cancel_goal_step(s: SessionModel, m: CancelActionGoal) -> EffectModel {
    let goal = goal_named(s, m.id@);
    match uuid_of(goal) {
        Some(goal_id) => EffectModel::CancelGoal {
            action: if s.issued_goals.dom().contains(goal) {
                s.issued_goals[goal]
            } else {
                m.action@
            },
            goal_id,
        },
        None => EffectModel::Nothing,
    }
}

/// What comes of an `advertise_action`.
pub open spec fn advertise_action_step(globs: GlobList, m: AdvertiseAction) -> EffectModel {
    if passes(globs, m.action@) {
        EffectModel::AdvertiseAction { action: m.action@, action_type: m.action_type@ }
    } else {
        EffectModel::Nothing
    }
}

/// The `send_action_goal` operation by which a goal goes to the client that hosts the
/// action.
pub open spec fn send_goal_op(
    action: Seq<char>,
    action_type: Seq<char>,
    id: Seq<char>,
    args: Json,
) -> Json {
    Json::Object(
        op("send_action_goal"@).insert("action"@, Json::String(action)).insert(
            "action_type"@,
            Json::String(action_type),
        ).insert("id"@, Json::String(id)).insert("args"@, args).insert(
            "feedback"@,
            Json::Bool(true),
        ),
    )
}

/// The `cancel_action_goal` operation by which a cancellation goes to the client that
/// hosts the action.
pub open spec fn cancel_goal_op(action: Seq<char>, id: Seq<char>) -> Json {
    Json::Object(
        op("cancel_action_goal"@).insert("action"@, Json::String(action)).insert(
            "id"@,
            Json::String(id),
        ),
    )
}

/// What comes of an `unadvertise_action`.
pub open spec fn unadvertise_action_step(
    s: SessionModel,
    globs: GlobList,
    m: UnadvertiseAction,
) -> (SessionModel, EffectModel) {
    let action = m.action@;
    if !passes(globs, action) {
        (s, EffectModel::Nothing)
    } else if s.actions.dom().contains(action) {
        (
            SessionModel { actions: s.actions.remove(action), ..s },
            EffectModel::UnadvertiseAction(s.actions[action].id),
        )
    } else {
        let msg = "action "@ + action + " was not advertised"@;
        (s, EffectModel::Report(status(StatusLevel::Error, msg, None)))
    }
}

/// What comes of an `action_feedback` from the client.
pub open spec fn action_feedback_step(s: SessionModel, m: ActionFeedback) -> EffectModel {
    if s.hosted_goals.contains(m.id@) {
        EffectModel::Feedback { goal: m.id@, progress: m.values@ }
    } else {
        let msg = "action_feedback for unknown goal "@ + m.id@;
        EffectModel::Report(status(StatusLevel::Error, msg, Some(m.id@)))
    }
}

/// The lowest eight bits of a number, as a signed one.
pub open spec fn low_i8(x: int) -> int {
    (x + 128) % 256 - 128
}

/// The status of a result: the one that is given, else that of a goal that succeeded
/// or was aborted.
pub open spec fn result_code(m: ActionResult) -> int {
    low_i8(
        match m.status {
            Some(x) => x as int,
            None => if m.result {
                4
            } else {
                6
            },
        },
    )
}

/// What comes of an `action_result` from the client.
pub open spec fn action_result_step(s: SessionModel, m: ActionResult) -> (
    SessionModel,
    EffectModel,
) {
    if s.hosted_goals.contains(m.id@) {
        (
            SessionModel { hosted_goals: s.hosted_goals.remove(m.id@), ..s },
            EffectModel::Finish {
                goal: m.id@,
                values: if m.result {
                    Some(payload(optional_value(m.values)))
                } else {
                    None
                },
                status: result_code(m) as i8,
            },
        )
    } else {
        let msg = "action_result for unknown goal "@ + m.id@;
        (s, EffectModel::Report(status(StatusLevel::Error, msg, Some(m.id@))))
    }
}

fn low_bits(x: i32) -> (r: i8)
    ensures
        r == low_i8(x as int),
{
    let y: i64 = (x as i64 + 128) % 256;
    if y < 0 {
        (y + 256 - 128) as i8
    } else {
        (y - 128) as i8
    }
}

/// The frame that tells the issuer of a goal that it was refused.
pub fn goal_refused(action: &str, id: &Option<String>, e: &BackendError) -> (r: OutFrame)
    ensures
        r@ == FrameModel::Text(
            json_text(action_result_op(action@, Json::String(e.text()), 0, false, optional(*id))),
        ),
{
    result_frame(action, JsonValue::text(e.message().as_str()), 0, false, id)
}

fn result_frame(
    action: &str,
    values: JsonValue,
    code: i8,
    result: bool,
    id: &Option<String>,
) -> (r: OutFrame)
    requires
        finite_json(values@),
    ensures
        r@ == FrameModel::Text(
            json_text(action_result_op(action@, values@, code as int, result, optional(*id))),
        ),
{
    let text = Operation::new("action_result").with("action", JsonValue::text(action)).with(
        "values",
        values,
    ).with("status", JsonValue::from_i64(code as i64)).with(
        "result",
        JsonValue::Bool(result),
    ).with("id", JsonValue::optional_text(id)).text();
    OutFrame::Text(text)
}

/// The frame by which feedback goes to the issuer of a goal.
pub fn goal_feedback(action: &str, id: &Option<String>, values: JsonValue) -> (r: OutFrame)
    requires
        finite_json(values@),
    ensures
        r@ == FrameModel::Text(json_text(action_feedback_op(action@, values@, optional(*id)))),
{
    let text = Operation::new("action_feedback").with("action", JsonValue::text(action)).with(
        "values",
        values,
    ).with("id", JsonValue::optional_text(id)).text();
    OutFrame::Text(text)
}

/// The frame by which a cancellation goes to the client that hosts the action.
pub fn goal_cancelled(action: &str, goal: &str) -> (r: OutFrame)
    ensures
        r@ == FrameModel::Text(json_text(cancel_goal_op(action@, goal@))),
{
    let text = Operation::new("cancel_action_goal").with("action", JsonValue::text(action)).with(
        "id",
        JsonValue::text(goal),
    ).text();
    OutFrame::Text(text)
}

impl ClientSession {
    /// Sends a goal to an action server.
    pub fn op_send_action_goal(&self, shared: &Shared, m: SendActionGoal) -> (r: Effect)
        ensures
            r@ == send_goal_step(shared.cfg.actions_glob, m),
    {
        if !allowed(&shared.cfg.actions_glob, m.action.as_str()) {
            let msg = concat3("send_action_goal to ", m.action.as_str(), " blocked by actions_glob");
            return Effect::Report(Status::warning(msg.as_str(), m.id));
        }
        Effect::SendGoal {
            action: m.action,
            action_type: m.action_type,
            args: args_or_empty(m.args),
            feedback: m.feedback,
            id: m.id,
        }
    }

    /// Takes up a goal that an action server has accepted: the text of its id. `id` is
    /// the id that the client gave it.
    pub fn goal_accepted(&mut self, action: &str, goal_id: &[u8; 16], id: &Option<String>) -> (r:
        String)
        requires
            old(self).wf(),
        ensures
            final(self).wf(),
            r@ == hex(goal_id@),
            final(self)@ == with_goal(old(self)@, action@, r@, optional(*id)),
    {
        let ghost before = self@;
        let key = uuid_to_string(goal_id);
        self.issued_goals.insert(key.as_str().to_owned(), action.to_owned());
        assert(self@.issued_goals =~= before.issued_goals.insert(key@, action@));
        if let Some(x) = id {
            self.goal_names.insert(x.as_str().to_owned(), key.as_str().to_owned());
            assert(self@.goal_names =~= before.goal_names.insert(x@, key@));
        }
        key
    }

    /// Takes up the end of a goal: the frame that tells its issuer.
    pub fn goal_finished(
        &mut self,
        goal: &str,
        action: &str,
        id: &Option<String>,
        outcome: Option<Result<(JsonValue, i8), String>>,
    ) -> (r: OutFrame)
        requires
            old(self).wf(),
            outcome matches Some(Ok((values, _))) ==> finite_json(values@),
        ensures
            final(self).wf(),
            r@ == FrameModel::Text(json_text(goal_end_op(action@, optional(*id), outcome))),
            final(self)@ == without_goal(old(self)@, goal@, optional(*id)),
    {
        let ghost before = self@;
        let dropped = self.issued_goals.remove(goal);
        assert(self@.issued_goals =~= before.issued_goals.remove(goal@));
        if let Some(x) = id {
            let named = match self.goal_names.get(x.as_str()) {
                Some(g) => same_text(g.as_str(), goal),
                None => false,
            };
            if named {
                let dropped = self.goal_names.remove(x.as_str());
                assert(self@.goal_names =~= before.goal_names.remove(x@));
            }
        }
        match outcome {
            Some(Ok((values, code))) => result_frame(action, values, code, true, id),
            Some(Err(e)) => result_frame(action, JsonValue::text(e.as_str()), 0, false, id),
            None => result_frame(action, JsonValue::text("action channel closed"), 0, false, id),
        }
    }

    /// Cancels a goal; the id is the one that the client gave the goal, or the text of
    /// the goal id.
    pub fn op_cancel_action_goal(&self, m: CancelActionGoal) -> (r: Effect)
        ensures
            r@ == cancel_goal_step(self@, m),
    {
        let goal = match self.goal_names.get(m.id.as_str()) {
            Some(g) => g.as_str().to_owned(),
            None => m.id,
        };
        match string_to_uuid(goal.as_str()) {
            Some(goal_id) => {
                let action = match self.issued_goals.get(goal.as_str()) {
                    Some(a) => a.as_str().to_owned(),
                    None => m.action,
                };
                Effect::CancelGoal { action, goal_id }
            },
            None => Effect::Nothing,
        }
    }

    /// Hosts an action server.
    pub fn op_advertise_action(&self, shared: &Shared, m: AdvertiseAction) -> (r: Effect)
        ensures
            r@ == advertise_action_step(shared.cfg.actions_glob, m),
    {
        if !allowed(&shared.cfg.actions_glob, m.action.as_str()) {
            return Effect::Nothing;
        }
        Effect::AdvertiseAction { action: m.action, action_type: m.action_type }
    }

    /// Takes up what came of hosting an action server: the server that it replaces, if
    /// there is one, or what to report.
    pub fn action_advertised(
        &mut self,
        action: &str,
        action_type: &str,
        result: Result<ActionServerId, BackendError>,
    ) -> (r: Result<Option<ActionServerId>, Status>)
        requires
            old(self).wf(),
        ensures
            final(self).wf(),
            match result {
                Ok(id) => {
                    &&& r == Ok::<Option<ActionServerId>, Status>(
                        if old(self)@.actions.dom().contains(action@) {
                            Some(old(self)@.actions[action@].id)
                        } else {
                            None
                        },
                    )
                    &&& final(self)@ == (SessionModel {
                        actions: old(self)@.actions.insert(
                            action@,
                            ActModel { id, ros_type: action_type@ },
                        ),
                        ..old(self)@
                    })
                },
                Err(e) => {
                    &&& r is Err
                    &&& r->Err_0@ == status(
                        StatusLevel::Error,
                        "advertise_action: "@ + e.text(),
                        None,
                    )
                    &&& final(self)@ == old(self)@
                },
            },
    {
        let ghost before = self@;
        match result {
            Ok(id) => {
                let replaced = match self.actions.get(action) {
                    Some(e) => Some(e.id),
                    None => None,
                };
                let entry = ActEntry { id, ros_type: action_type.to_owned() };
                self.actions.insert(action.to_owned(), entry);
                assert(self@.actions =~= before.actions.insert(action@, entry@));
                Ok(replaced)
            },
            Err(e) => {
                let msg = concat2("advertise_action: ", e.message().as_str());
                Err(Status::error(msg.as_str(), None))
            },
        }
    }

    /// Takes up a goal for a hosted action server: the text of its id, and the frame by
    /// which it goes to the client.
    pub fn goal_received(
        &mut self,
        action: &str,
        action_type: &str,
        goal_id: &[u8; 16],
        args: JsonValue,
    ) -> (r: (String, OutFrame))
        requires
            old(self).wf(),
            finite_json(args@),
        ensures
            final(self).wf(),
            r.0@ == hex(goal_id@),
            r.1@ == FrameModel::Text(
                json_text(send_goal_op(action@, action_type@, r.0@, args@)),
            ),
            final(self)@ == (SessionModel {
                hosted_goals: old(self)@.hosted_goals.insert(r.0@),
                ..old(self)@
            }),
    {
        let ghost before = self@;
        let key = uuid_to_string(goal_id);
        self.hosted_goals.insert(key.as_str().to_owned(), ());
        assert(self@.hosted_goals =~= before.hosted_goals.insert(key@));
        let text = Operation::new("send_action_goal").with("action", JsonValue::text(action)).with(
            "action_type",
            JsonValue::text(action_type),
        ).with("id", JsonValue::text(key.as_str())).with("args", args).with(
            "feedback",
            JsonValue::Bool(true),
        ).text();
        (key, OutFrame::Text(text))
    }

    /// Stops hosting an action server.
    pub fn op_unadvertise_action(&mut self, shared: &Shared, m: UnadvertiseAction) -> (r: Effect)
        requires
            old(self).wf(),
        ensures
            final(self).wf(),
            (final(self)@, r@) == unadvertise_action_step(old(self)@, shared.cfg.actions_glob, m),
    {
        let ghost before = self@;
        if !allowed(&shared.cfg.actions_glob, m.action.as_str()) {
            return Effect::Nothing;
        }
        match self.actions.remove(m.action.as_str()) {
            Some(entry) => {
                assert(self@.actions =~= before.actions.remove(m.action@));
                Effect::UnadvertiseAction(entry.id)
            },
            None => {
                assert(self@.actions =~= before.actions);
                let msg = concat3("action ", m.action.as_str(), " was not advertised");
                Effect::Report(Status::error(msg.as_str(), None))
            },
        }
    }

    /// Feedback from a client-hosted action server, routed to ROS.
    pub fn op_action_feedback(&self, m: ActionFeedback) -> (r: Effect)
        ensures
            r@ == action_feedback_step(self@, m),
    {
        if self.hosted_goals.contains_key(m.id.as_str()) {
            Effect::Feedback { goal: m.id, progress: m.values }
        } else {
            let msg = concat2("action_feedback for unknown goal ", m.id.as_str());
            Effect::Report(Status::error(msg.as_str(), Some(m.id)))
        }
    }

    /// Final result from a client-hosted action server, routed to ROS.
    pub fn op_action_result(&mut self, m: ActionResult) -> (r: Effect)
        requires
            old(self).wf(),
        ensures
            final(self).wf(),
            (final(self)@, r@) == action_result_step(old(self)@, m),
    {
        let ghost before = self@;
        let given: i32 = match m.status {
            Some(x) => x,
            None => if m.result {
                4
            } else {
                6
            },
        };
        let code = low_bits(given);
        match self.hosted_goals.remove(m.id.as_str()) {
            Some(_) => {
                assert(self@.hosted_goals =~= before.hosted_goals.remove(m.id@));
                let values = if m.result {
                    Some(args_or_empty(m.values))
                } else {
                    None
                };
                Effect::Finish { goal: m.id, values, status: code }
            },
            None => {
                assert(self@.hosted_goals =~= before.hosted_goals);
                let msg = concat2("action_result for unknown goal ", m.id.as_str());
                Effect::Report(Status::error(msg.as_str(), Some(m.id)))
            },
        }
    }
}

} // verus!
