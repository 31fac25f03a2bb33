//! Service operations of a session: the client as caller, and as server.
use vstd::prelude::*;
use crate::backend::{bump, next_number, BackendError, ServiceServerId};
use crate::config::{Config, GlobList};
use crate::document::{finite_json, json_text, op, Operation};
use crate::effect::{optional_value, Effect, EffectModel};
use crate::float::Float64;
use crate::glob::{allowed, passes};
use crate::incoming::{AdvertiseService, CallService, ServiceResponse, UnadvertiseService};
use crate::json::{optional_json, Json, JsonValue};
use crate::outgoing::{status, Status, StatusLevel};
use crate::session::{
    cut_session, frames, text_frames_of, ClientSession, FrameModel, OutFrame, SessionModel,
    Shared,
};
use crate::stamp::{args_or_empty, payload};
use crate::text::{
    concat2, concat3, decimal, decimal_chars, find, find_char, optional, to_chars, to_text,
};

verus! {

/// A deprecated `name#id` as a name and an id.
pub open spec fn name_and_id(s: Seq<char>) -> (Seq<char>, Option<Seq<char>>) {
    let i = find(s, '#');
    if i < s.len() {
        (s.take(i), Some(s.skip(i + 1)))
    } else {
        (s, None)
    }
}

/// Splits a deprecated `name#id` form into `(name, Some(id))`.
pub fn split_name_id(s: &str) -> (r: (String, Option<String>))
    ensures
        (r.0@, optional(r.1)) == name_and_id(s@),
{
    let chars = to_chars(s);
    let i = find_char(chars.as_slice(), '#');
    if i < chars.len() {
        let name = vstd::slice::slice_subrange(chars.as_slice(), 0, i);
        let id = vstd::slice::slice_subrange(chars.as_slice(), i + 1, chars.len());
        assert(name@ =~= s@.take(i as int));
        assert(id@ =~= s@.skip(i + 1));
        (to_text(name), Some(to_text(id)))
    } else {
        (s.to_owned(), None)
    }
}

/// The id of a service call: the one that is given, else the one in the name.
pub open spec fn call_id(m: CallService) -> Option<Seq<char>> {
    match optional(m.id) {
        Some(x) => Some(x),
        None => name_and_id(m.service@).1,
    }
}

/// What comes of a `call_service`.
pub open spec fn call_service_step(globs: GlobList, default_timeout: Float64, m: CallService) ->
    EffectModel {
    let service = name_and_id(m.service@).0;
    if !passes(globs, service) {
        let msg = "call to service "@ + service + " blocked by services_glob"@;
        EffectModel::Report(status(StatusLevel::Warning, msg, call_id(m)))
    } else {
        match optional(m.srv_type) {
            None => {
                let msg = "call_service "@ + service + ": missing service type"@;
                EffectModel::Report(status(StatusLevel::Error, msg, call_id(m)))
            },
            Some(ros_type) => EffectModel::CallService {
                service,
                ros_type,
                args: payload(optional_value(m.args)),
                timeout: match m.timeout {
                    Some(t) => t,
                    None => default_timeout,
                },
                fragment_size: m.fragment_size,
                id: call_id(m),
            },
        }
    }
}

/// The `service_response` operation.
pub open spec fn service_response_op(
    service: Seq<char>,
    values: Json,
    result: bool,
    id: Option<Seq<char>>,
) -> Json {
    Json::Object(
        op("service_response"@).insert("service"@, Json::String(service)).insert(
            "values"@,
            values,
        ).insert("result"@, Json::Bool(result)).insert("id"@, optional_json(id)),
    )
}

/// The id of a request to a hosted service.
pub open spec fn request_id(service: Seq<char>, seq: u64) -> Seq<char> {
    "service_request:"@ + service + ":"@ + decimal(seq as nat)
}

/// The `call_service` operation by which a request goes to the client that hosts the
/// service.
pub open spec fn call_service_op(service: Seq<char>, id: Seq<char>, args: Json) -> Json {
    Json::Object(
        op("call_service"@).insert("service"@, Json::String(service)).insert(
            "id"@,
            Json::String(id),
        ).insert("args"@, args),
    )
}

/// What comes of an `advertise_service`.
pub open spec fn advertise_service_step(globs: GlobList, m: AdvertiseService) -> EffectModel {
    if passes(globs, m.service@) {
        EffectModel::AdvertiseService { service: m.service@, ros_type: m.srv_type@ }
    } else {
        EffectModel::Nothing
    }
}

/// What comes of an `unadvertise_service`.
pub open spec fn unadvertise_service_step(
    s: SessionModel,
    globs: GlobList,
    m: UnadvertiseService,
) -> (SessionModel, EffectModel) {
    let service = m.service@;
    if !passes(globs, service) {
        (s, EffectModel::Nothing)
    } else if s.services.dom().contains(service) {
        (
            SessionModel { services: s.services.remove(service), ..s },
            EffectModel::UnadvertiseService(s.services[service]),
        )
    } else {
        let msg = "service "@ + service + " was not advertised"@;
        (s, EffectModel::Report(status(StatusLevel::Error, msg, None)))
    }
}

/// What comes of a `service_response`.
pub open spec fn service_response_step(s: SessionModel, m: ServiceResponse) -> (
    SessionModel,
    EffectModel,
) {
    match optional(m.id) {
        None => (
            s,
            EffectModel::Report(status(StatusLevel::Error, "service_response missing id"@, None)),
        ),
        Some(id) => if s.pending.contains(id) {
            (
                SessionModel { pending: s.pending.remove(id), ..s },
                EffectModel::Respond {
                    request: id,
                    values: if m.result {
                        Some(payload(optional_value(m.values)))
                    } else {
                        None
                    },
                },
            )
        } else {
            let msg = "no pending service request for id "@ + id;
            (s, EffectModel::Report(status(StatusLevel::Error, msg, Some(id))))
        },
    }
}

impl ClientSession {
    /// Calls a service.
    pub fn op_call_service(&self, shared: &Shared, m: CallService) -> (r: Effect)
        ensures
            r@ == call_service_step(
                shared.cfg.services_glob,
                shared.cfg.default_call_service_timeout,
                m,
            ),
    {
        let (service, inline_id) = split_name_id(m.service.as_str());
        let id = match m.id {
            Some(x) => Some(x),
            None => inline_id,
        };
        if !allowed(&shared.cfg.services_glob, service.as_str()) {
            let msg = concat3("call to service ", service.as_str(), " blocked by services_glob");
            return Effect::Report(Status::warning(msg.as_str(), id));
        }
        match m.srv_type {
            Some(ros_type) => Effect::CallService {
                service,
                ros_type,
                args: args_or_empty(m.args),
                timeout: match m.timeout {
                    Some(t) => t,
                    None => shared.cfg.default_call_service_timeout,
                },
                fragment_size: m.fragment_size,
                id,
            },
            None => {
                let msg = concat3("call_service ", service.as_str(), ": missing service type");
                Effect::Report(Status::error(msg.as_str(), id))
            },
        }
    }

    /// The frames by which the result of a service call goes to the client.
    pub fn service_replied(
        &mut self,
        cfg: &Config,
        service: &str,
        id: &Option<String>,
        fragment_size: Option<usize>,
        result: Result<JsonValue, BackendError>,
    ) -> (r: Vec<OutFrame>)
        requires
            old(self).wf(),
            result matches Ok(values) ==> finite_json(values@),
        ensures
            final(self).wf(),
            match result {
                Ok(values) => {
                    &&& frames(r@) == text_frames_of(
                        old(self)@.id,
                        old(self)@.frag_seed,
                        cfg.max_message_size,
                        json_text(service_response_op(service@, values@, true, optional(*id))),
                        fragment_size,
                    )
                    &&& final(self)@ == cut_session(
                        old(self)@,
                        cfg.max_message_size,
                        fragment_size,
                    )
                },
                Err(e) => {
                    &&& frames(r@) == seq![
                        FrameModel::Text(
                            json_text(
                                service_response_op(
                                    service@,
                                    Json::String(e.text()),
                                    false,
                                    optional(*id),
                                ),
                            ),
                        ),
                    ]
                    &&& final(self)@ == old(self)@
                },
            },
    {
        let v = Operation::new("service_response").with("service", JsonValue::text(service));
        match result {
            Ok(values) => {
                let text = v.with("values", values).with("result", JsonValue::Bool(true)).with(
                    "id",
                    JsonValue::optional_text(id),
                ).text();
                self.text_frames(cfg, text, fragment_size)
            },
            Err(e) => {
                let text = v.with("values", JsonValue::text(e.message().as_str())).with(
                    "result",
                    JsonValue::Bool(false),
                ).with("id", JsonValue::optional_text(id)).text();
                let mut out: Vec<OutFrame> = Vec::new();
                out.push(OutFrame::Text(text));
                assert(frames(out@) =~= seq![FrameModel::Text(text@)]);
                out
            },
        }
    }

    /// Hosts a service.
    pub fn op_advertise_service(&self, shared: &Shared, m: AdvertiseService) -> (r: Effect)
        ensures
            r@ == advertise_service_step(shared.cfg.services_glob, m),
    {
        if !allowed(&shared.cfg.services_glob, m.service.as_str()) {
            return Effect::Nothing;
        }
        Effect::AdvertiseService { service: m.service, ros_type: m.srv_type }
    }

    /// Takes up what came of hosting a service: the server that it replaces, if there
    /// is one, or what to report.
    pub fn service_advertised(
        &mut self,
        service: &str,
        result: Result<ServiceServerId, BackendError>,
    ) -> (r: Result<Option<ServiceServerId>, Status>)
        requires
            old(self).wf(),
        ensures
            final(self).wf(),
            match result {
                Ok(id) => {
                    &&& r == Ok::<Option<ServiceServerId>, Status>(
                        if old(self)@.services.dom().contains(service@) {
                            Some(old(self)@.services[service@])
                        } else {
                            None
                        },
                    )
                    &&& final(self)@ == (SessionModel {
                        services: old(self)@.services.insert(service@, id),
                        ..old(self)@
                    })
                },
                Err(e) => {
                    &&& r is Err
                    &&& r->Err_0@ == status(
                        StatusLevel::Error,
                        "advertise_service: "@ + e.text(),
                        None,
                    )
                    &&& final(self)@ == old(self)@
                },
            },
    {
        match result {
            Ok(id) => {
                let replaced = match self.services.get(service) {
                    Some(old_id) => Some(*old_id),
                    None => None,
                };
                self.services.insert(service.to_owned(), id);
                Ok(replaced)
            },
            Err(e) => {
                let msg = concat2("advertise_service: ", e.message().as_str());
                Err(Status::error(msg.as_str(), None))
            },
        }
    }

    /// Takes up a request to a hosted service: its id, and the frame by which it goes
    /// to the client.
    pub fn service_requested(&mut self, service: &str, args: JsonValue) -> (r: (String, OutFrame))
        requires
            old(self).wf(),
            finite_json(args@),
        ensures
            final(self).wf(),
            r.0@ == request_id(service@, old(self)@.service_req_seq),
            r.1@ == FrameModel::Text(json_text(call_service_op(service@, r.0@, args@))),
            final(self)@ == (SessionModel {
                pending: old(self)@.pending.insert(r.0@),
                service_req_seq: next_number(old(self)@.service_req_seq),
                ..old(self)@
            }),
    {
        let ghost before = self@;
        let mut id = concat3("service_request:", service, ":");
        id.append(to_text(decimal_chars(self.service_req_seq).as_slice()).as_str());
        self.service_req_seq = bump(self.service_req_seq);
        self.pending.insert(id.as_str().to_owned(), ());
        assert(self@.pending =~= before.pending.insert(id@));
        let text = Operation::new("call_service").with("service", JsonValue::text(service)).with(
            "id",
            JsonValue::text(id.as_str()),
        ).with("args", args).text();
        (id, OutFrame::Text(text))
    }

    /// Stops hosting a service.
    pub fn op_unadvertise_service(&mut self, shared: &Shared, m: UnadvertiseService) -> (r: Effect)
        requires
            old(self).wf(),
        ensures
            final(self).wf(),
            (final(self)@, r@) == unadvertise_service_step(
                old(self)@,
                shared.cfg.services_glob,
                m,
            ),
    {
        let ghost before = self@;
        if !allowed(&shared.cfg.services_glob, m.service.as_str()) {
            return Effect::Nothing;
        }
        match self.services.remove(m.service.as_str()) {
            Some(id) => Effect::UnadvertiseService(id),
            None => {
                assert(self@.services =~= before.services);
                let msg = concat3("service ", m.service.as_str(), " was not advertised");
                Effect::Report(Status::error(msg.as_str(), None))
            },
        }
    }

    /// Answers a request to a hosted service.
    pub fn op_service_response(&mut self, m: ServiceResponse) -> (r: Effect)
        requires
            old(self).wf(),
        ensures
            final(self).wf(),
            (final(self)@, r@) == service_response_step(old(self)@, m),
    {
        let ghost before = self@;
        match m.id {
            None => Effect::Report(Status::error("service_response missing id", None)),
            Some(id) => match self.pending.remove(id.as_str()) {
                Some(_) => {
                    assert(self@.pending =~= before.pending.remove(id@));
                    let values = if m.result {
                        Some(args_or_empty(m.values))
                    } else {
                        None
                    };
                    Effect::Respond { request: id, values }
                },
                None => {
                    assert(self@.pending =~= before.pending);
                    let msg = concat2("no pending service request for id ", id.as_str());
                    Effect::Report(Status::error(msg.as_str(), Some(id)))
                },
            },
        }
    }
}

} // verus!
