//! Dispatch of client operations, and the end of a session.
use vstd::prelude::*;
use crate::actions::{
    action_feedback_step, action_result_step, advertise_action_step, cancel_goal_step,
    send_goal_step, unadvertise_action_step,
};
use crate::backend::{ActionServerId, PublisherId, ServiceServerId, SubscriptionId};
use crate::config::Config;
use crate::dict::{lists, Dict};
use crate::effect::{Effect, EffectModel};
use crate::fragment::{pushed, FragmentOutcome, Outcome};
use crate::incoming::{Fragment, IncomingMessage, SetLevel};
use crate::outgoing::{status, Status, StatusLevel};
use crate::services::{
    advertise_service_step, call_service_step, service_response_step, unadvertise_service_step,
};
use crate::session::{ClientSession, SessionModel, Shared};
use crate::text::{concat2, optional, texts};
use crate::topics::{
    advertise_step, publish_looks_up, publish_step, subscribe_looks_up, subscribe_step,
    unadvertise_step, unsubscribe_step,
};

verus! {

/// What comes of a `set_level`.
pub open spec fn set_level_step(s: SessionModel, m: SetLevel) -> (SessionModel, EffectModel) {
    match StatusLevel::named(m.level@) {
        Some(level) => (SessionModel { status_level: level, ..s }, EffectModel::Nothing),
        None => {
            let msg = "invalid set_level value: "@ + m.level@;
            (s, EffectModel::Report(status(StatusLevel::Error, msg, optional(m.id))))
        },
    }
}

/// What comes of a `fragment`, at the time `clock` in nanoseconds.
pub open spec fn fragment_step(s: SessionModel, m: Fragment, clock: u64) -> (
    SessionModel,
    EffectModel,
) {
    let (groups, outcome) = pushed(
        s.groups,
        s.timeout,
        m.id@,
        m.num as nat,
        m.total as nat,
        m.data@,
        clock as nat,
    );
    (
        SessionModel { groups, ..s },
        match outcome {
            Outcome::Incomplete => EffectModel::Nothing,
            Outcome::Complete(text) => EffectModel::Handle(text),
            Outcome::Invalid(reason) => EffectModel::Report(
                status(StatusLevel::Error, "fragment: "@ + reason, Some(m.id@)),
            ),
        },
    )
}

/// The topic whose type has to be looked up in the ROS graph before an operation is
/// dispatched.
pub open spec fn looked_up(
    s: SessionModel,
    cfg: Config,
    types: Map<Seq<char>, Seq<char>>,
    msg: IncomingMessage,
) -> Option<Seq<char>> {
    match msg {
        IncomingMessage::Publish(m) => if publish_looks_up(s, cfg.topics_pub_glob, types, m) {
            Some(m.topic@)
        } else {
            None
        },
        IncomingMessage::Subscribe(m) => if subscribe_looks_up(
            s,
            cfg.topics_sub_glob,
            types,
            m,
        ) {
            Some(m.topic@)
        } else {
            None
        },
        _ => None,
    }
}

/// What comes of an operation: with the type that the ROS graph has for its topic, the
/// ROS time `now`, and the clock in nanoseconds.
pub open spec fn step(
    s: SessionModel,
    cfg: Config,
    types: Map<Seq<char>, Seq<char>>,
    msg: IncomingMessage,
    found: Option<Seq<char>>,
    now: (i32, u32),
    clock: u64,
) -> (SessionModel, EffectModel) {
    match msg {
        IncomingMessage::Advertise(m) => advertise_step(s, cfg.topics_pub_glob, m),
        IncomingMessage::Unadvertise(m) => unadvertise_step(s, cfg.topics_pub_glob, m),
        IncomingMessage::Publish(m) => (
            s,
            publish_step(s, cfg.topics_pub_glob, types, m, found, now),
        ),
        IncomingMessage::Subscribe(m) => subscribe_step(s, cfg.topics_sub_glob, types, m, found),
        IncomingMessage::Unsubscribe(m) => unsubscribe_step(s, m),
        IncomingMessage::CallService(m) => (
            s,
            call_service_step(cfg.services_glob, cfg.default_call_service_timeout, m),
        ),
        IncomingMessage::AdvertiseService(m) => (s, advertise_service_step(cfg.services_glob, m)),
        IncomingMessage::UnadvertiseService(m) => unadvertise_service_step(
            s,
            cfg.services_glob,
            m,
        ),
        IncomingMessage::ServiceResponse(m) => service_response_step(s, m),
        IncomingMessage::AdvertiseAction(m) => (s, advertise_action_step(cfg.actions_glob, m)),
        IncomingMessage::UnadvertiseAction(m) => unadvertise_action_step(s, cfg.actions_glob, m),
        IncomingMessage::SendActionGoal(m) => (s, send_goal_step(cfg.actions_glob, m)),
        IncomingMessage::CancelActionGoal(m) => (s, cancel_goal_step(s, m)),
        IncomingMessage::ActionFeedback(m) => (s, action_feedback_step(s, m)),
        IncomingMessage::ActionResult(m) => action_result_step(s, m),
        IncomingMessage::SetLevel(m) => set_level_step(s, m),
        IncomingMessage::Status(_) => (s, EffectModel::Nothing),
        IncomingMessage::Auth(_) => (s, EffectModel::Nothing),
        IncomingMessage::Fragment(m) => fragment_step(s, m, clock),
        IncomingMessage::Unknown => (
            s,
            EffectModel::Report(status(StatusLevel::Error, "unknown operation"@, None)),
        ),
    }
}

/// The handles that a session held, in some order.
pub struct Released {
    pub publishers: Vec<PublisherId>,
    pub subscriptions: Vec<SubscriptionId>,
    pub services: Vec<ServiceServerId>,
    pub actions: Vec<ActionServerId>,
}

/// Whether handles are those that a map gives to its keys, each key taken once.
pub open spec fn handles<V>(r: Seq<V>, m: Map<Seq<char>, V>) -> bool {
    exists|keys: Seq<Seq<char>>|
        #![trigger keys.no_duplicates()]
        {
            &&& keys.no_duplicates()
            &&& keys.to_set() == m.dom()
            &&& r == keys.map_values(|k: Seq<char>| m[k])
        }
}

impl ClientSession {
    /// The topic whose type has to be looked up in the ROS graph before an operation is
    /// dispatched.
    pub fn needs_type(&self, shared: &Shared, msg: &IncomingMessage) -> (r: Option<String>)
        ensures
            optional(r) == looked_up(self@, shared.cfg, shared.types(), *msg),
    {
        match msg {
            IncomingMessage::Publish(m) => if self.publish_needs_type(shared, m) {
                Some(m.topic.as_str().to_owned())
            } else {
                None
            },
            IncomingMessage::Subscribe(m) => if self.subscribe_needs_type(shared, m) {
                Some(m.topic.as_str().to_owned())
            } else {
                None
            },
            _ => None,
        }
    }

    /// Dispatches an operation. `found` is the type that the ROS graph has for the
    /// topic of the operation, `now` the ROS time, and `clock` a time in nanoseconds.
    pub fn dispatch(
        &mut self,
        shared: &Shared,
        msg: IncomingMessage,
        found: Option<String>,
        now: (i32, u32),
        clock: u64,
    ) -> (r: Effect)
        requires
            old(self).wf(),
        ensures
            final(self).wf(),
            (final(self)@, r@) == step(
                old(self)@,
                shared.cfg,
                shared.types(),
                msg,
                optional(found),
                now,
                clock,
            ),
    {
        match msg {
            IncomingMessage::Advertise(m) => self.op_advertise(shared, m),
            IncomingMessage::Unadvertise(m) => self.op_unadvertise(shared, m),
            IncomingMessage::Publish(m) => self.op_publish(shared, m, found, now),
            IncomingMessage::Subscribe(m) => self.op_subscribe(shared, m, found),
            IncomingMessage::Unsubscribe(m) => self.op_unsubscribe(m),
            IncomingMessage::CallService(m) => self.op_call_service(shared, m),
            IncomingMessage::AdvertiseService(m) => self.op_advertise_service(shared, m),
            IncomingMessage::UnadvertiseService(m) => self.op_unadvertise_service(shared, m),
            IncomingMessage::ServiceResponse(m) => self.op_service_response(m),
            IncomingMessage::AdvertiseAction(m) => self.op_advertise_action(shared, m),
            IncomingMessage::UnadvertiseAction(m) => self.op_unadvertise_action(shared, m),
            IncomingMessage::SendActionGoal(m) => self.op_send_action_goal(shared, m),
            IncomingMessage::CancelActionGoal(m) => self.op_cancel_action_goal(m),
            IncomingMessage::ActionFeedback(m) => self.op_action_feedback(m),
            IncomingMessage::ActionResult(m) => self.op_action_result(m),
            IncomingMessage::SetLevel(m) => self.op_set_level(m),
            // Status echoes and auth are accepted and ignored.
            IncomingMessage::Status(_) => Effect::Nothing,
            IncomingMessage::Auth(_) => Effect::Nothing,
            IncomingMessage::Fragment(m) => self.op_fragment(m, clock),
            IncomingMessage::Unknown => Effect::Report(Status::error("unknown operation", None)),
        }
    }

    /// Sets which status messages the client gets.
    pub fn op_set_level(&mut self, m: SetLevel) -> (r: Effect)
        requires
            old(self).wf(),
        ensures
            final(self).wf(),
            (final(self)@, r@) == set_level_step(old(self)@, m),
    {
        match StatusLevel::parse(m.level.as_str()) {
            Some(level) => {
                self.status_level = level;
                Effect::Nothing
            },
            None => {
                let msg = concat2("invalid set_level value: ", m.level.as_str());
                Effect::Report(Status::error(msg.as_str(), m.id))
            },
        }
    }

    /// Takes up a fragment of a text.
    pub fn op_fragment(&mut self, m: Fragment, clock: u64) -> (r: Effect)
        requires
            old(self).wf(),
        ensures
            final(self).wf(),
            (final(self)@, r@) == fragment_step(old(self)@, m, clock),
    {
        match self.defrag.push(m.id.as_str(), m.num, m.total, m.data, clock) {
            FragmentOutcome::Complete(s) => Effect::Handle(s),
            FragmentOutcome::Incomplete => Effect::Nothing,
            FragmentOutcome::Invalid(reason) => {
                let msg = concat2("fragment: ", reason);
                Effect::Report(Status::error(msg.as_str(), Some(m.id)))
            },
        }
    }

    /// Gives up all backend resources of the client on disconnect.
    pub fn shutdown(&mut self) -> (r: Released)
        requires
            old(self).wf(),
        ensures
            final(self).wf(),
            handles(
                r.publishers@,
                old(self)@.publishers.map_values(|e: crate::session::PubModel| e.id),
            ),
            handles(
                r.subscriptions@,
                old(self)@.subscriptions.map_values(|e: crate::session::SubModel| e.id),
            ),
            handles(r.services@, old(self)@.services),
            handles(
                r.actions@,
                old(self)@.actions.map_values(|e: crate::session::ActModel| e.id),
            ),
            final(self)@ == (SessionModel {
                publishers: Map::empty(),
                subscriptions: Map::empty(),
                services: Map::empty(),
                actions: Map::empty(),
                ..old(self)@
            }),
    {
        let ghost before = self@;
        let keys = self.publishers.keys();
        let mut publishers: Vec<PublisherId> = Vec::new();
        for i in 0..keys.len()
            invariant
                lists(keys@, self.publishers@.dom()),
                publishers@.len() == i,
                forall|j: int|
                    0 <= j < i ==> #[trigger] publishers@[j] == self.publishers@[texts(keys@)[j]].id,
        {
            let key = keys[i].as_str();
            assert(texts(keys@)[i as int] == key@);
            assert(texts(keys@).to_set().contains(key@));
            if let Some(e) = self.publishers.get(key) {
                publishers.push(e.id);
            }
        }
        proof {
            let m = before.publishers.map_values(|e: crate::session::PubModel| e.id);
            lemma_handles(publishers@, texts(keys@), m);
        }
        let keys = self.subscriptions.keys();
        let mut subscriptions: Vec<SubscriptionId> = Vec::new();
        for i in 0..keys.len()
            invariant
                lists(keys@, self.subscriptions@.dom()),
                subscriptions@.len() == i,
                forall|j: int|
                    0 <= j < i ==> #[trigger] subscriptions@[j]
                        == self.subscriptions@[texts(keys@)[j]].id,
        {
            let key = keys[i].as_str();
            assert(texts(keys@)[i as int] == key@);
            assert(texts(keys@).to_set().contains(key@));
            if let Some(e) = self.subscriptions.get(key) {
                subscriptions.push(e.id);
            }
        }
        proof {
            let m = before.subscriptions.map_values(|e: crate::session::SubModel| e.id);
            lemma_handles(subscriptions@, texts(keys@), m);
        }
        let keys = self.services.keys();
        let mut services: Vec<ServiceServerId> = Vec::new();
        for i in 0..keys.len()
            invariant
                lists(keys@, self.services@.dom()),
                services@.len() == i,
                forall|j: int|
                    0 <= j < i ==> #[trigger] services@[j] == self.services@[texts(keys@)[j]],
        {
            let key = keys[i].as_str();
            assert(texts(keys@)[i as int] == key@);
            assert(texts(keys@).to_set().contains(key@));
            if let Some(id) = self.services.get(key) {
                services.push(*id);
            }
        }
        proof {
            lemma_handles(services@, texts(keys@), before.services);
        }
        let keys = self.actions.keys();
        let mut actions: Vec<ActionServerId> = Vec::new();
        for i in 0..keys.len()
            invariant
                lists(keys@, self.actions@.dom()),
                actions@.len() == i,
                forall|j: int|
                    0 <= j < i ==> #[trigger] actions@[j] == self.actions@[texts(keys@)[j]].id,
        {
            let key = keys[i].as_str();
            assert(texts(keys@)[i as int] == key@);
            assert(texts(keys@).to_set().contains(key@));
            if let Some(e) = self.actions.get(key) {
                actions.push(e.id);
            }
        }
        proof {
            let m = before.actions.map_values(|e: crate::session::ActModel| e.id);
            lemma_handles(actions@, texts(keys@), m);
        }
        self.publishers = Dict::new();
        self.subscriptions = Dict::new();
        self.services = Dict::new();
        self.actions = Dict::new();
        assert(self@.publishers =~= Map::empty());
        assert(self@.subscriptions =~= Map::empty());
        assert(self@.actions =~= Map::empty());
        Released { publishers, subscriptions, services, actions }
    }
}

proof fn lemma_handles<V>(r: Seq<V>, keys: Seq<Seq<char>>, m: Map<Seq<char>, V>)
    requires
        keys.no_duplicates(),
        keys.to_set() =~= m.dom(),
        r.len() == keys.len(),
        forall|j: int| 0 <= j < r.len() ==> #[trigger] r[j] == m[keys[j]],
    ensures
        handles(r, m),
{
    assert(r =~= keys.map_values(|k: Seq<char>| m[k]));
}

} // verus!
