//! Laws of what a client's operations ask of ROS: what the client named and gave is what
//! the backend is handed.
use vstd::prelude::*;
use crate::backend::{ActionServerId, PublisherId, ServiceServerId, SubscriptionId};
use crate::config::Config;
use crate::dispatch::{looked_up, step};
use crate::effect::EffectModel;
use crate::glob::passes;
use crate::incoming::{
    ActionFeedback, ActionResult, Advertise, AdvertiseAction, AdvertiseService, CallService, CancelActionGoal,
    IncomingMessage, Publish, SendActionGoal, ServiceResponse, Subscribe, UnadvertiseAction,
    UnadvertiseService,
};
use crate::json::{integer_number, Json, JsonValue};
use crate::loopback::{
    listed, reached, subscriber_is_reached, with_action, with_publisher as bus_with_publisher,
    with_service, with_subscription as bus_with_subscription, BusModel,
};
use crate::session::{ActModel, SessionModel};
use crate::text::{find_is_first, lemma_find_at, optional};
use crate::topics::with_publisher;
use crate::uuid::{hex, uuid_reads_back};

verus! {

/// Whether two messages are the same, or objects that differ in nothing but the stamp of
/// their headers.
pub open spec fn same_but_for_stamp(a: Json, b: Json) -> bool {
    a == b || {
        &&& a is Object && b is Object
        &&& a->Object_0.dom() == b->Object_0.dom()
        &&& forall|k: Seq<char>|
            k != "header"@ && a->Object_0.dom().contains(k) ==> #[trigger] a->Object_0[k]
                == b->Object_0[k]
        &&& a->Object_0.dom().contains("header"@)
        &&& a->Object_0["header"@] is Object && b->Object_0["header"@] is Object
        &&& a->Object_0["header"@]->Object_0.remove("stamp"@)
            == b->Object_0["header"@]->Object_0.remove("stamp"@)
    }
}

/// The stamp in the header of a message, where it has a header that is an object.
pub open spec fn stamp_in(v: Json) -> Option<Option<Json>> {
    if v is Object && v->Object_0.dom().contains("header"@) && v->Object_0["header"@] is Object {
        let h = v->Object_0["header"@]->Object_0;
        Some(
            if h.dom().contains("stamp"@) {
                Some(h["stamp"@])
            } else {
                None
            },
        )
    } else {
        None
    }
}

/// Whether a stamp is to be the current time.
pub open spec fn left_open(stamp: Option<Json>) -> bool {
    match stamp {
        None => true,
        Some(v) => v == Json::Null || v == Json::String("now"@),
    }
}

/// Whether a value is an object of these seconds and nanoseconds.
pub open spec fn is_time(v: Json, now: (i32, u32)) -> bool {
    &&& v is Object
    &&& v->Object_0.dom().contains("sec"@)
    &&& v->Object_0["sec"@] == Json::Number(integer_number(now.0 as int))
    &&& v->Object_0.dom().contains("nanosec"@)
    &&& v->Object_0["nanosec"@] == Json::Number(integer_number(now.1 as int))
}

/// The message that the backend is handed to publish.
pub open spec fn handed_message(e: EffectModel) -> Option<Json> {
    match e {
        EffectModel::Publish { msg, .. } => Some(msg),
        EffectModel::AdvertiseAndPublish { msg, .. } => Some(msg),
        _ => None,
    }
}

/// Whether the type of a message that is published is known: from the topic, from the
/// operation, from what was learned or from the ROS graph.
pub open spec fn type_known(
    s: SessionModel,
    types: Map<Seq<char>, Seq<char>>,
    m: Publish,
    found: Option<Seq<char>>,
) -> bool {
    ||| s.publishers.dom().contains(m.topic@) && s.publishers[m.topic@].ros_type.len() > 0
    ||| m.msg_type is Some
    ||| types.dom().contains(m.topic@)
    ||| found is Some
}

/// The first of several types that is known.
pub open spec fn first_known(
    own: Option<Seq<char>>,
    learned: Option<Seq<char>>,
    found: Option<Seq<char>>,
) -> Option<Seq<char>> {
    match own {
        Some(t) => Some(t),
        None => match learned {
            Some(t) => Some(t),
            None => found,
        },
    }
}

/// The type that was learned of a topic.
pub open spec fn learned_of(types: Map<Seq<char>, Seq<char>>, topic: Seq<char>) -> Option<
    Seq<char>,
> {
    if types.dom().contains(topic) {
        Some(types[topic])
    } else {
        None
    }
}

/// However a message goes out, what the backend is handed is the message of the client,
/// changed in the stamp of its header at most, and in that only where the client left it
/// open; then it is the current time. It goes out on the topic that the client named:
/// through the client's publisher where it has one, else through a new one.
pub proof fn published_message_is_the_clients(
    s: SessionModel,
    cfg: Config,
    types: Map<Seq<char>, Seq<char>>,
    m: Publish,
    found: Option<Seq<char>>,
    now: (i32, u32),
    clock: u64,
)
    ensures
        ({
            let (t, e) = step(s, cfg, types, IncomingMessage::Publish(m), found, now, clock);
            &&& t == s
            &&& handed_message(e) is Some <==> passes(cfg.topics_pub_glob, m.topic@) && type_known(
                s,
                types,
                m,
                found,
            )
            &&& handed_message(e) is None ==> e is Report
            &&& handed_message(e) matches Some(msg) ==> {
                &&& same_but_for_stamp(msg, m.msg@)
                &&& match stamp_in(m.msg@) {
                    Some(stamp) => if left_open(stamp) {
                        stamp_in(msg) matches Some(Some(v)) && is_time(v, now)
                    } else {
                        msg == m.msg@
                    },
                    None => msg == m.msg@,
                }
            }
            &&& e matches EffectModel::Publish { publisher, id, .. } ==> {
                &&& s.publishers.dom().contains(m.topic@)
                &&& publisher == s.publishers[m.topic@].id
                &&& id == optional(m.id)
            }
            &&& e matches EffectModel::AdvertiseAndPublish { topic, ros_type, id, .. } ==> {
                &&& !s.publishers.dom().contains(m.topic@)
                &&& topic == m.topic@
                &&& Some(ros_type) == first_known(
                    optional(m.msg_type),
                    learned_of(types, m.topic@),
                    found,
                )
                &&& id == optional(m.id)
            }
        }),
{
    let v = m.msg@;
    let e = step(s, cfg, types, IncomingMessage::Publish(m), found, now, clock).1;
    reveal_strlit("sec");
    reveal_strlit("nanosec");
    assert("sec"@ != "nanosec"@) by {
        assert("sec"@.len() != "nanosec"@.len());
    }
    if let Some(msg) = handed_message(e) {
        if msg != v {
            let (o, p) = (msg->Object_0, v->Object_0);
            let (g, h) = (o["header"@]->Object_0, p["header"@]->Object_0);
            assert(o.dom() =~= p.dom());
            assert(g.remove("stamp"@) =~= h.remove("stamp"@));
        }
    }
}

/// Publishing on a topic that the client has not advertised has the same message reach the
/// same subscribers as advertising it first: the publisher that is asked for is one on the
/// client's topic, and through a publisher that the client has the same message goes out.
pub proof fn publishing_unadvertised_reaches_the_same(
    s: SessionModel,
    b: BusModel,
    cfg: Config,
    types: Map<Seq<char>, Seq<char>>,
    m: Publish,
    found: Option<Seq<char>>,
    now: (i32, u32),
    clock: u64,
    adv_id: Seq<char>,
    publisher: PublisherId,
    sub: SubscriptionId,
)
    requires
        passes(cfg.topics_pub_glob, m.topic@),
        type_known(s, types, m, found),
        !s.publishers.dom().contains(m.topic@),
    ensures
        ({
            let msg = IncomingMessage::Publish(m);
            let first = step(s, cfg, types, msg, found, now, clock).1;
            &&& first matches EffectModel::AdvertiseAndPublish { topic, ros_type, msg: sent, .. }
            &&& {
                let c = bus_with_publisher(b, topic);
                &&& c.publishers[b.counter] == m.topic@
                &&& reached(c, c.publishers[b.counter]).contains(sub) <==> listed(b, m.topic@, sub)
            }
            &&& step(
                with_publisher(s, m.topic@, ros_type, adv_id, publisher),
                cfg,
                types,
                msg,
                found,
                now,
                clock,
            ).1 == (EffectModel::Publish { publisher, msg: sent, id: optional(m.id) })
        }),
{
}

/// A message gets from one client to another over the in-process bus: where the other has
/// subscribed to a topic of that name, the subscription that was asked for is reached by
/// the publisher that is asked for.
pub proof fn message_gets_across(
    s: SessionModel,
    other: SessionModel,
    b: BusModel,
    cfg: Config,
    types: Map<Seq<char>, Seq<char>>,
    m: Publish,
    q: Subscribe,
    found: Option<Seq<char>>,
    now: (i32, u32),
    clock: u64,
)
    requires
        m.topic@ == q.topic@,
        passes(cfg.topics_pub_glob, m.topic@),
        passes(cfg.topics_sub_glob, q.topic@),
        type_known(s, types, m, found),
        first_known(optional(q.msg_type), learned_of(types, q.topic@), found) is Some,
        !s.publishers.dom().contains(m.topic@),
        !other.subscriptions.dom().contains(q.topic@),
    ensures
        step(other, cfg, types, IncomingMessage::Subscribe(q), found, now, clock).1 is Subscribe,
        step(s, cfg, types, IncomingMessage::Publish(m), found, now, clock).1
            is AdvertiseAndPublish,
        ({
            let asked = step(other, cfg, types, IncomingMessage::Subscribe(q), found, now, clock).1;
            let sent = step(s, cfg, types, IncomingMessage::Publish(m), found, now, clock).1;
            let c = bus_with_subscription(b, asked->Subscribe_topic);
            let d = bus_with_publisher(c, sent->AdvertiseAndPublish_topic);
            reached(d, d.publishers[c.counter]).contains(SubscriptionId(b.counter))
        }),
{
    let asked = step(other, cfg, types, IncomingMessage::Subscribe(q), found, now, clock).1;
    let sent = step(s, cfg, types, IncomingMessage::Publish(m), found, now, clock).1;
    let c = bus_with_subscription(b, asked->Subscribe_topic);
    let d = bus_with_publisher(c, sent->AdvertiseAndPublish_topic);
    subscriber_is_reached(b, q.topic@, q.topic@, SubscriptionId(b.counter));
    assert(listed(c, q.topic@, SubscriptionId(b.counter)));
    assert(reached(d, q.topic@) == reached(c, q.topic@));
}

/// A publisher is asked for on the topic and with the type that the client named.
pub proof fn advertised_topic_is_the_clients(
    s: SessionModel,
    cfg: Config,
    types: Map<Seq<char>, Seq<char>>,
    m: Advertise,
    found: Option<Seq<char>>,
    now: (i32, u32),
    clock: u64,
)
    ensures
        ({
            let (t, e) = step(s, cfg, types, IncomingMessage::Advertise(m), found, now, clock);
            &&& e is Advertise <==> passes(cfg.topics_pub_glob, m.topic@)
                && !s.publishers.dom().contains(m.topic@)
            &&& e matches EffectModel::Advertise { topic, ros_type, adv_id, id, .. } ==> {
                &&& t == s
                &&& topic == m.topic@
                &&& ros_type == m.msg_type@
                &&& id == optional(m.id)
                &&& m.id matches Some(x) ==> adv_id == x@
            }
        }),
{
}

/// What was advertised is published through: a message on the topic goes out through the
/// publisher that the `advertise` asked for.
pub proof fn advertised_publisher_is_used(
    s: SessionModel,
    cfg: Config,
    types: Map<Seq<char>, Seq<char>>,
    a: Advertise,
    m: Publish,
    found: Option<Seq<char>>,
    now: (i32, u32),
    clock: u64,
    publisher: PublisherId,
)
    requires
        m.topic@ == a.topic@,
        a.msg_type@.len() > 0,
        passes(cfg.topics_pub_glob, a.topic@),
        !s.publishers.dom().contains(a.topic@),
    ensures
        step(s, cfg, types, IncomingMessage::Advertise(a), found, now, clock).1 matches
            EffectModel::Advertise { topic, ros_type, adv_id, .. } && (step(
            with_publisher(s, topic, ros_type, adv_id, publisher),
            cfg,
            types,
            IncomingMessage::Publish(m),
            found,
            now,
            clock,
        ).1 matches EffectModel::Publish { publisher: p, .. } && p == publisher),
{
}

/// A subscription is asked for to the topic that the client named, with the type that it
/// gave or else the one that is known, under its id or else the topic's name, and with the
/// parameters that it gave; a parameter that it left out limits nothing.
pub proof fn subscribed_topic_is_the_clients(
    s: SessionModel,
    cfg: Config,
    types: Map<Seq<char>, Seq<char>>,
    m: Subscribe,
    found: Option<Seq<char>>,
    now: (i32, u32),
    clock: u64,
)
    requires
        !s.subscriptions.dom().contains(m.topic@),
    ensures
        ({
            let (t, e) = step(s, cfg, types, IncomingMessage::Subscribe(m), found, now, clock);
            let known = first_known(optional(m.msg_type), learned_of(types, m.topic@), found);
            &&& t == s
            &&& e is Subscribe <==> passes(cfg.topics_sub_glob, m.topic@) && known is Some
            &&& e matches EffectModel::Subscribe { topic, ros_type, sid, params, id, .. } ==> {
                &&& topic == m.topic@
                &&& Some(ros_type) == known
                &&& id == optional(m.id)
                &&& sid == (match m.id {
                    Some(x) => x@,
                    None => m.topic@,
                })
                &&& params.throttle_rate == (match m.throttle_rate {
                    Some(x) => x,
                    None => 0,
                })
                &&& params.queue_length == (match m.queue_length {
                    Some(x) => x,
                    None => 0,
                })
                &&& params.fragment_size == m.fragment_size
                &&& m.compression is None ==> params.compression is Plain
            }
        }),
{
}

/// A further subscription to a topic asks nothing of ROS and counts with the first.
pub proof fn further_subscription_counts(
    s: SessionModel,
    cfg: Config,
    types: Map<Seq<char>, Seq<char>>,
    m: Subscribe,
    found: Option<Seq<char>>,
    now: (i32, u32),
    clock: u64,
    other: Seq<char>,
)
    requires
        s.subscriptions.dom().contains(m.topic@),
        passes(cfg.topics_sub_glob, m.topic@),
    ensures
        ({
            let (t, e) = step(s, cfg, types, IncomingMessage::Subscribe(m), found, now, clock);
            let (before, after) = (s.subscriptions[m.topic@], t.subscriptions[m.topic@]);
            let sid = match m.id {
                Some(x) => x@,
                None => m.topic@,
            };
            &&& e is Nothing
            &&& t.subscriptions.dom() == s.subscriptions.dom()
            &&& after.id == before.id
            &&& after.ros_type == before.ros_type
            &&& after.sids.dom().contains(sid)
            &&& after.sids[sid].fragment_size == m.fragment_size
            &&& m.throttle_rate matches Some(x) ==> after.sids[sid].throttle_rate == x
            &&& m.queue_length matches Some(x) ==> after.sids[sid].queue_length == x
            &&& other != sid ==> (after.sids.dom().contains(other) <==> before.sids.dom().contains(
                other,
            ))
            &&& other != sid && before.sids.dom().contains(other) ==> after.sids[other]
                == before.sids[other]
        }),
{
    let t = step(s, cfg, types, IncomingMessage::Subscribe(m), found, now, clock).0;
    assert(t.subscriptions.dom() =~= s.subscriptions.dom());
}

/// Whether `args` is what a client gave for a request: what it left out, or gave as null,
/// is the empty object.
pub open spec fn as_given(args: Json, given: Option<JsonValue>) -> bool {
    match given {
        Some(v) => if v@ == Json::Null {
            args == Json::Object(Map::empty())
        } else {
            args == v@
        },
        None => args == Json::Object(Map::empty()),
    }
}

/// A service call goes to the service that the client named, with the type, the arguments
/// and the timeout that it gave.
pub proof fn call_goes_to_the_named_service(
    s: SessionModel,
    cfg: Config,
    types: Map<Seq<char>, Seq<char>>,
    m: CallService,
    found: Option<Seq<char>>,
    now: (i32, u32),
    clock: u64,
)
    requires
        !m.service@.contains('#'),
    ensures
        ({
            let (t, e) = step(s, cfg, types, IncomingMessage::CallService(m), found, now, clock);
            &&& t == s
            &&& e is CallService <==> passes(cfg.services_glob, m.service@) && m.srv_type is Some
            &&& e is CallService || e is Report
            &&& e matches EffectModel::CallService {
                service,
                ros_type,
                args,
                timeout,
                fragment_size,
                id,
            } ==> {
                &&& service == m.service@
                &&& ros_type == m.srv_type.unwrap()@
                &&& as_given(args, m.args)
                &&& timeout == (match m.timeout {
                    Some(x) => x,
                    None => cfg.default_call_service_timeout,
                })
                &&& fragment_size == m.fragment_size
                &&& id == optional(m.id)
            }
        }),
{
    find_is_first(m.service@, '#');
}

/// A `#` in the name of a service begins an id: the call is the one to the name before it,
/// and what follows it is the id where the client gave no other.
pub proof fn inline_id_is_no_part_of_the_name(
    s: SessionModel,
    cfg: Config,
    types: Map<Seq<char>, Seq<char>>,
    plain: CallService,
    m: CallService,
    tag: Seq<char>,
    found: Option<Seq<char>>,
    now: (i32, u32),
    clock: u64,
)
    requires
        !plain.service@.contains('#'),
        m.service@ == plain.service@ + seq!['#'] + tag,
        optional(plain.id) == (match m.id {
            Some(x) => Some(x@),
            None => Some(tag),
        }),
        optional(m.srv_type) == optional(plain.srv_type),
        m.args == plain.args,
        m.timeout == plain.timeout,
        m.fragment_size == plain.fragment_size,
    ensures
        step(s, cfg, types, IncomingMessage::CallService(m), found, now, clock) == step(
            s,
            cfg,
            types,
            IncomingMessage::CallService(plain),
            found,
            now,
            clock,
        ),
{
    let n = plain.service@.len() as int;
    find_is_first(plain.service@, '#');
    assert forall|i: int| 0 <= i < n implies m.service@[i] != '#' by {
        assert(m.service@[i] == plain.service@[i]);
        if plain.service@[i] == '#' {
            assert(plain.service@.contains('#'));
        }
    }
    assert(m.service@[n] == '#');
    lemma_find_at(m.service@, '#', n);
    assert(m.service@.take(n) =~= plain.service@);
    assert(m.service@.skip(n + 1) =~= tag);
}

/// A call finds its server on the in-process bus: where a client hosts a service, the call
/// of another to that name and type names the service and the type under which it is
/// hosted, and the bus has the server under that name.
pub proof fn call_finds_the_host(
    s: SessionModel,
    host: SessionModel,
    b: BusModel,
    cfg: Config,
    types: Map<Seq<char>, Seq<char>>,
    a: AdvertiseService,
    m: CallService,
    found: Option<Seq<char>>,
    now: (i32, u32),
    clock: u64,
)
    requires
        passes(cfg.services_glob, a.service@),
        !m.service@.contains('#'),
        m.service@ == a.service@,
        optional(m.srv_type) == Some(a.srv_type@),
    ensures
        ({
            let hosted = step(
                host,
                cfg,
                types,
                IncomingMessage::AdvertiseService(a),
                found,
                now,
                clock,
            ).1;
            let call = step(s, cfg, types, IncomingMessage::CallService(m), found, now, clock).1;
            &&& hosted matches EffectModel::AdvertiseService { service: name, ros_type: ty }
            &&& name == a.service@ && ty == a.srv_type@
            &&& call matches EffectModel::CallService { service, ros_type, .. }
            &&& service == name && ros_type == ty
            &&& with_service(b, name).services.dom().contains(service)
            &&& with_service(b, name).services[service] == ServiceServerId(b.counter)
        }),
{
    find_is_first(m.service@, '#');
}

/// A service is hosted under the name and with the type that the client gave.
pub proof fn hosted_service_is_the_clients(
    s: SessionModel,
    cfg: Config,
    types: Map<Seq<char>, Seq<char>>,
    m: AdvertiseService,
    found: Option<Seq<char>>,
    now: (i32, u32),
    clock: u64,
)
    ensures
        ({
            let (t, e) = step(
                s,
                cfg,
                types,
                IncomingMessage::AdvertiseService(m),
                found,
                now,
                clock,
            );
            &&& t == s
            &&& if passes(cfg.services_glob, m.service@) {
                e matches EffectModel::AdvertiseService { service, ros_type } && service
                    == m.service@ && ros_type == m.srv_type@
            } else {
                e is Nothing
            }
        }),
{
}

/// Withdrawing a hosted service gives up the server that hosts it, and leaves the session
/// as it was before.
pub proof fn unadvertise_service_undoes(
    s: SessionModel,
    cfg: Config,
    types: Map<Seq<char>, Seq<char>>,
    m: UnadvertiseService,
    id: ServiceServerId,
    found: Option<Seq<char>>,
    now: (i32, u32),
    clock: u64,
)
    requires
        passes(cfg.services_glob, m.service@),
        !s.services.dom().contains(m.service@),
    ensures
        step(
            SessionModel { services: s.services.insert(m.service@, id), ..s },
            cfg,
            types,
            IncomingMessage::UnadvertiseService(m),
            found,
            now,
            clock,
        ) == (s, EffectModel::UnadvertiseService(id)),
        step(s, cfg, types, IncomingMessage::UnadvertiseService(m), found, now, clock).0 == s,
        step(s, cfg, types, IncomingMessage::UnadvertiseService(m), found, now, clock).1 is Report,
{
    assert(s.services.insert(m.service@, id).remove(m.service@) =~= s.services);
}

/// The answer that a client gives to a request is what the caller gets: the values that it
/// gave, or a failure where it says so.
pub proof fn answer_is_the_clients(
    s: SessionModel,
    cfg: Config,
    types: Map<Seq<char>, Seq<char>>,
    m: ServiceResponse,
    found: Option<Seq<char>>,
    now: (i32, u32),
    clock: u64,
)
    requires
        m.id is Some,
        s.pending.contains(m.id.unwrap()@),
    ensures
        ({
            let (t, e) = step(
                s,
                cfg,
                types,
                IncomingMessage::ServiceResponse(m),
                found,
                now,
                clock,
            );
            &&& t.pending == s.pending.remove(m.id.unwrap()@)
            &&& t == (SessionModel { pending: t.pending, ..s })
            &&& e matches EffectModel::Respond { request, values }
            &&& request == m.id.unwrap()@
            &&& if m.result {
                values matches Some(v) && as_given(v, m.values)
            } else {
                values is None
            }
        }),
{
}

/// A response that answers no pending request changes nothing and asks nothing of ROS.
pub proof fn unasked_answer_is_refused(
    s: SessionModel,
    cfg: Config,
    types: Map<Seq<char>, Seq<char>>,
    m: ServiceResponse,
    found: Option<Seq<char>>,
    now: (i32, u32),
    clock: u64,
)
    requires
        m.id matches Some(x) ==> !s.pending.contains(x@),
    ensures
        ({
            let (t, e) = step(
                s,
                cfg,
                types,
                IncomingMessage::ServiceResponse(m),
                found,
                now,
                clock,
            );
            t == s && e is Report
        }),
{
}

/// A goal goes to the action that the client named, with the type and the arguments that
/// it gave.
pub proof fn goal_goes_to_the_named_action(
    s: SessionModel,
    cfg: Config,
    types: Map<Seq<char>, Seq<char>>,
    m: SendActionGoal,
    found: Option<Seq<char>>,
    now: (i32, u32),
    clock: u64,
)
    ensures
        ({
            let (t, e) = step(s, cfg, types, IncomingMessage::SendActionGoal(m), found, now, clock);
            &&& t == s
            &&& e is SendGoal <==> passes(cfg.actions_glob, m.action@)
            &&& e is SendGoal || e is Report
            &&& e matches EffectModel::SendGoal { action, action_type, args, feedback, id } ==> {
                &&& action == m.action@
                &&& action_type == m.action_type@
                &&& as_given(args, m.args)
                &&& feedback == m.feedback
                &&& id == optional(m.id)
            }
        }),
{
}

/// A goal finds its server on the in-process bus: where a client hosts an action, the goal
/// of another for that name and type names the action and the type under which it is
/// hosted, and the bus has the server under that name.
pub proof fn goal_finds_the_host(
    s: SessionModel,
    host: SessionModel,
    b: BusModel,
    cfg: Config,
    types: Map<Seq<char>, Seq<char>>,
    a: AdvertiseAction,
    m: SendActionGoal,
    found: Option<Seq<char>>,
    now: (i32, u32),
    clock: u64,
)
    requires
        passes(cfg.actions_glob, a.action@),
        m.action@ == a.action@,
        m.action_type@ == a.action_type@,
    ensures
        ({
            let hosted = step(
                host,
                cfg,
                types,
                IncomingMessage::AdvertiseAction(a),
                found,
                now,
                clock,
            ).1;
            let goal = step(s, cfg, types, IncomingMessage::SendActionGoal(m), found, now, clock).1;
            &&& hosted matches EffectModel::AdvertiseAction { action: name, action_type: ty }
            &&& name == a.action@ && ty == a.action_type@
            &&& goal matches EffectModel::SendGoal { action, action_type, .. }
            &&& action == name && action_type == ty
            &&& with_action(b, name).actions.dom().contains(action)
            &&& with_action(b, name).actions[action] == ActionServerId(b.counter)
        }),
{
}

/// An action is hosted under the name and with the type that the client gave.
pub proof fn hosted_action_is_the_clients(
    s: SessionModel,
    cfg: Config,
    types: Map<Seq<char>, Seq<char>>,
    m: AdvertiseAction,
    found: Option<Seq<char>>,
    now: (i32, u32),
    clock: u64,
)
    ensures
        ({
            let (t, e) = step(
                s,
                cfg,
                types,
                IncomingMessage::AdvertiseAction(m),
                found,
                now,
                clock,
            );
            &&& t == s
            &&& if passes(cfg.actions_glob, m.action@) {
                e matches EffectModel::AdvertiseAction { action, action_type } && action
                    == m.action@ && action_type == m.action_type@
            } else {
                e is Nothing
            }
        }),
{
}

/// Withdrawing a hosted action gives up the server that hosts it, and leaves the session
/// as it was before.
pub proof fn unadvertise_action_undoes(
    s: SessionModel,
    cfg: Config,
    types: Map<Seq<char>, Seq<char>>,
    m: UnadvertiseAction,
    entry: ActModel,
    found: Option<Seq<char>>,
    now: (i32, u32),
    clock: u64,
)
    requires
        passes(cfg.actions_glob, m.action@),
        !s.actions.dom().contains(m.action@),
    ensures
        step(
            SessionModel { actions: s.actions.insert(m.action@, entry), ..s },
            cfg,
            types,
            IncomingMessage::UnadvertiseAction(m),
            found,
            now,
            clock,
        ) == (s, EffectModel::UnadvertiseAction(entry.id)),
        step(s, cfg, types, IncomingMessage::UnadvertiseAction(m), found, now, clock).0 == s,
        step(s, cfg, types, IncomingMessage::UnadvertiseAction(m), found, now, clock).1 is Report,
{
    assert(s.actions.insert(m.action@, entry).remove(m.action@) =~= s.actions);
}

/// A goal that the session has not issued is cancelled at the action that the client names,
/// by the id that it gives; a text that is no goal id cancels nothing.
pub proof fn foreign_goal_is_cancelled_where_named(
    s: SessionModel,
    cfg: Config,
    types: Map<Seq<char>, Seq<char>>,
    m: CancelActionGoal,
    goal: Seq<u8>,
    found: Option<Seq<char>>,
    now: (i32, u32),
    clock: u64,
)
    requires
        goal.len() == 16,
        m.id@ == hex(goal),
        !s.goal_names.dom().contains(m.id@),
        !s.issued_goals.dom().contains(m.id@),
    ensures
        step(s, cfg, types, IncomingMessage::CancelActionGoal(m), found, now, clock) == (
            s,
            EffectModel::CancelGoal { action: m.action@, goal_id: goal },
        ),
{
    uuid_reads_back(goal);
}

/// The result that a hosting client gives is what the issuer of the goal gets: the values
/// that it gave, or a failure where it says so, and its status; without one a goal that
/// did not fail has succeeded, and any other was aborted.
pub proof fn result_is_the_clients(
    s: SessionModel,
    cfg: Config,
    types: Map<Seq<char>, Seq<char>>,
    m: ActionResult,
    found: Option<Seq<char>>,
    now: (i32, u32),
    clock: u64,
)
    requires
        s.hosted_goals.contains(m.id@),
    ensures
        ({
            let (t, e) = step(s, cfg, types, IncomingMessage::ActionResult(m), found, now, clock);
            &&& t.hosted_goals == s.hosted_goals.remove(m.id@)
            &&& t == (SessionModel { hosted_goals: t.hosted_goals, ..s })
            &&& e matches EffectModel::Finish { goal, values, status }
            &&& goal == m.id@
            &&& if m.result {
                values matches Some(v) && as_given(v, m.values)
            } else {
                values is None
            }
            &&& match m.status {
                Some(x) => (x - status) % 256 == 0,
                None => status == (if m.result {
                    4
                } else {
                    6int
                }),
            }
        }),
{
}

/// The feedback that a client gives for a goal that it hosts is passed on with that goal.
pub proof fn feedback_is_the_clients(
    s: SessionModel,
    cfg: Config,
    types: Map<Seq<char>, Seq<char>>,
    m: ActionFeedback,
    found: Option<Seq<char>>,
    now: (i32, u32),
    clock: u64,
)
    ensures
        ({
            let (t, e) = step(s, cfg, types, IncomingMessage::ActionFeedback(m), found, now, clock);
            &&& t == s
            &&& e is Feedback <==> s.hosted_goals.contains(m.id@)
            &&& e matches EffectModel::Feedback { goal, progress } ==> goal == m.id@ && progress
                == m.values@
            &&& !(e is Feedback) ==> e is Report
        }),
{
}

/// The compression of a subscription is the one that the client named.
pub proof fn asked_compression_is_the_clients(
    s: SessionModel,
    cfg: Config,
    types: Map<Seq<char>, Seq<char>>,
    m: Subscribe,
    found: Option<Seq<char>>,
    now: (i32, u32),
    clock: u64,
)
    requires
        m.compression is Some,
    ensures
        ({
            let e = step(s, cfg, types, IncomingMessage::Subscribe(m), found, now, clock).1;
            let name = m.compression.unwrap()@;
            e matches EffectModel::Subscribe { params, .. } ==> {
                &&& params.compression is Png <==> name == "png"@
                &&& params.compression is Cbor <==> name == "cbor"@
                &&& params.compression is CborRaw <==> name == "cbor-raw"@
            }
        }),
{
    reveal_strlit("png");
    reveal_strlit("cbor");
    reveal_strlit("cbor-raw");
    assert("cbor"@.len() != "cbor-raw"@.len() && "png"@.len() != "cbor"@.len());
}

/// The type of a topic is looked up for that topic, and only where the operation may go on and
/// neither the client nor what was learned gives the type.
pub proof fn type_is_looked_up_for_the_topic(
    s: SessionModel,
    cfg: Config,
    types: Map<Seq<char>, Seq<char>>,
    p: Publish,
    m: Subscribe,
)
    ensures
        looked_up(s, cfg, types, IncomingMessage::Subscribe(m)) == (if passes(
            cfg.topics_sub_glob,
            m.topic@,
        ) && !s.subscriptions.dom().contains(m.topic@) && m.msg_type is None
            && !types.dom().contains(m.topic@) {
            Some(m.topic@)
        } else {
            None
        }),
        !s.publishers.dom().contains(p.topic@) ==> looked_up(
            s,
            cfg,
            types,
            IncomingMessage::Publish(p),
        ) == (if passes(cfg.topics_pub_glob, p.topic@) && p.msg_type is None
            && !types.dom().contains(p.topic@) {
            Some(p.topic@)
        } else {
            None
        }),
        looked_up(s, cfg, types, IncomingMessage::Publish(p)) matches Some(t) ==> t == p.topic@,
{
}

} // verus!
